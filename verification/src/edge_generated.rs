//! Installing the vectors a model made for relationships.
use std::collections::HashSet;
use vstd::prelude::*;
use crate::catalog::{lookup, place_is_first};
use crate::coordinate::{
    fault_of, non_finite_message, same_vector, validate_finite_vector, vector_eq,
};
use crate::edge_log::all_live;
use crate::edge_replace::{
    all_removed, edge_slots, edge_slots_grow, faultless_list_is_sound, install_store,
    listed_fault, listed_sound, replace_done, validate_listed,
};
use crate::edge_store::EdgeEmbeddingStore;
use crate::edge_writes::{
    metric_fault, store_option, validate_metric, EdgeEmbeddingWriteReport,
};
use crate::graph::DirGraph;
use crate::names::{store_name, store_name_of, store_names_read_back};
use crate::store::{empty_store, hash_of, holds, vector_of, with_hash, with_vector, StoreModel};
use crate::text::{decimal, push_number, text_option, text_option_eq, Text};
use crate::topology::Topology;
use crate::value::EdgeIndex;

verus! {

/// A vector a model made for a relationship, with the hash of its text.
pub type GeneratedVector = (EdgeIndex, Vec<u32>, u64);

/// What a pass over relationships is to write.
#[derive(Debug)]
pub struct GeneratedEdgeEmbeddingWrite {
    /// The numbers in a vector.
    pub dimension: usize,
    /// The metric the store declares from now on.
    pub metric: Option<String>,
    /// The model the store names from now on.
    pub final_model_id: Option<String>,
    /// The vectors to install.
    pub generated: Vec<GeneratedVector>,
    /// The relationships whose vectors go.
    pub remove_selected: Vec<EdgeIndex>,
    /// Every relationship the pass was over.
    pub affected: Vec<EdgeIndex>,
}

/// What is to be written.
pub struct WriteModel {
    pub dimension: usize,
    pub metric: Option<Text>,
    pub model_id: Option<Text>,
    pub generated: Seq<(EdgeIndex, Seq<u32>, u64)>,
    pub removed: Seq<EdgeIndex>,
    pub affected: Seq<EdgeIndex>,
}

impl View for GeneratedEdgeEmbeddingWrite {
    type V = WriteModel;

    open spec fn view(&self) -> WriteModel {
        WriteModel {
            dimension: self.dimension,
            metric: text_option(self.metric),
            model_id: text_option(self.final_model_id),
            generated: Seq::new(
                self.generated@.len(),
                |i: int| (self.generated@[i].0, self.generated@[i].1@, self.generated@[i].2),
            ),
            removed: self.remove_selected@,
            affected: self.affected@,
        }
    }
}

/// The relationships that vectors were made for.
pub open spec fn generated_edges(generated: Seq<(EdgeIndex, Seq<u32>, u64)>) -> Seq<EdgeIndex> {
    Seq::new(generated.len(), |i: int| generated[i].0)
}

/// What is said of a relationship slot.
pub open spec fn slot_text(edge: EdgeIndex, rest: Text) -> Text {
    "Relationship slot "@ + decimal(edge.slot as nat) + rest
}

fn slot_message(edge: EdgeIndex, rest: &str) -> (message: String)
    ensures
        message@ == slot_text(edge, rest@),
{
    let mut message = "Relationship slot ".to_owned();
    push_number(&mut message, edge.slot);
    message.append(rest);
    message
}

/// What is wrong with one generated vector, given the slots of the pass and
/// those already acted on.
pub open spec fn member_fault(
    edge: EdgeIndex,
    vector: Seq<u32>,
    dimension: usize,
    affected: Set<usize>,
    acted: Set<usize>,
) -> Option<Text> {
    if !affected.contains(edge.slot) {
        Some(slot_text(edge, " is not in the affected batch"@))
    } else if acted.contains(edge.slot) {
        Some(slot_text(edge, " appears more than once in generated output"@))
    } else if vector.len() != dimension {
        Some(
            "Embedding for relationship slot "@ + decimal(edge.slot as nat) + " has dimension "@
                + decimal(vector.len()) + ", expected "@ + decimal(dimension as nat),
        )
    } else {
        match fault_of(vector) {
            Some(error) => Some(
                "Invalid embedding for relationship slot "@ + decimal(edge.slot as nat) + ": "@
                    + non_finite_message(error),
            ),
            None => None,
        }
    }
}

/// What is wrong with the first faulty generated vector from `position` on.
pub open spec fn members_fault(write: WriteModel, position: int) -> Option<Text>
    decreases write.generated.len() - position,
{
    if position < 0 || position >= write.generated.len() {
        None
    } else {
        match member_fault(
            write.generated[position].0,
            write.generated[position].1,
            write.dimension,
            edge_slots(write.affected, write.affected.len() as int),
            edge_slots(generated_edges(write.generated), position),
        ) {
            Some(fault) => Some(fault),
            None => members_fault(write, position + 1),
        }
    }
}

/// What is wrong with the first faulty removal from `position` on.
pub open spec fn removals_fault(write: WriteModel, position: int) -> Option<Text>
    decreases write.removed.len() - position,
{
    if position < 0 || position >= write.removed.len() {
        None
    } else {
        let edge = write.removed[position];
        if !edge_slots(write.affected, write.affected.len() as int).contains(edge.slot) {
            Some(slot_text(edge, " is not in the affected batch"@))
        } else if edge_slots(
            generated_edges(write.generated),
            write.generated.len() as int,
        ).contains(edge.slot) || edge_slots(write.removed, position).contains(edge.slot) {
            Some(slot_text(edge, " appears in more than one generated action"@))
        } else {
            removals_fault(write, position + 1)
        }
    }
}

/// What is wrong with a generated write.
pub open spec fn generated_fault(topology: Topology, connection_type: Text, write: WriteModel) -> Option<
    Text,
> {
    if write.dimension == 0 {
        Some("Embedding vectors must not be empty"@)
    } else if metric_fault(write.metric) is Some {
        metric_fault(write.metric)
    } else if listed_fault(
        topology,
        connection_type,
        write.affected,
        "the affected batch"@,
        0,
    ) is Some {
        listed_fault(topology, connection_type, write.affected, "the affected batch"@, 0)
    } else if members_fault(write, 0) is Some {
        members_fault(write, 0)
    } else {
        removals_fault(write, 0)
    }
}

/// Refuses a generated vector that is outside the pass, made twice, of another
/// dimension or not finite; else counts its relationship as acted on.
pub(crate) fn validate_generated_member(
    edge: EdgeIndex,
    vector: &Vec<u32>,
    dimension: usize,
    affected: &HashSet<usize>,
    acted: &mut HashSet<usize>,
) -> (result: Result<(), String>)
    ensures
        match result {
            Ok(_) => {
                &&& member_fault(edge, vector@, dimension, affected@, old(acted)@) is None
                &&& final(acted)@ == old(acted)@.insert(edge.slot)
            },
            Err(message) => member_fault(edge, vector@, dimension, affected@, old(acted)@) == Some(
                message@,
            ),
        },
{
    broadcast use vstd::std_specs::hash::group_hash_axioms;
    if !affected.contains(&edge.slot) {
        return Err(slot_message(edge, " is not in the affected batch"));
    }
    if !acted.insert(edge.slot) {
        return Err(slot_message(edge, " appears more than once in generated output"));
    }
    if vector.len() != dimension {
        let mut message = "Embedding for relationship slot ".to_owned();
        push_number(&mut message, edge.slot);
        message.append(" has dimension ");
        push_number(&mut message, vector.len());
        message.append(", expected ");
        push_number(&mut message, dimension);
        return Err(message);
    }
    match validate_finite_vector(vector.as_slice()) {
        Ok(_) => Ok(()),
        Err(error) => {
            let mut message = "Invalid embedding for relationship slot ".to_owned();
            push_number(&mut message, edge.slot);
            message.append(": ");
            message.append(error.message().as_str());
            Err(message)
        },
    }
}

/// Refuses a generated write that acts outside its pass, twice on one
/// relationship, or with a vector that cannot be stored.
pub fn validate_generated_write(
    graph: &DirGraph,
    connection_type: &str,
    write: &GeneratedEdgeEmbeddingWrite,
) -> (result: Result<(), String>)
    ensures
        match result {
            Ok(_) => generated_fault(graph.topology, connection_type@, write@) is None,
            Err(message) => generated_fault(graph.topology, connection_type@, write@) == Some(
                message@,
            ),
        },
{
    broadcast use vstd::std_specs::hash::group_hash_axioms;
    if write.dimension == 0 {
        return Err("Embedding vectors must not be empty".to_owned());
    }
    let metric: Option<&str> = match &write.metric {
        Some(name) => Some(name.as_str()),
        None => None,
    };
    match validate_metric(metric) {
        Ok(_) => {},
        Err(message) => {
            return Err(message);
        },
    }
    let affected = match validate_listed(
        graph,
        connection_type,
        &write.affected,
        "the affected batch",
    ) {
        Ok(affected) => affected,
        Err(message) => {
            return Err(message);
        },
    };
    let ghost edges = generated_edges(write@.generated);
    let mut acted: HashSet<usize> = HashSet::new();
    let mut i: usize = 0;
    assert(acted@ =~= edge_slots(edges, 0));
    while i < write.generated.len()
        invariant
            i <= write.generated@.len(),
            write.dimension != 0,
            metric_fault(write@.metric) is None,
            listed_fault(
                graph.topology,
                connection_type@,
                write@.affected,
                "the affected batch"@,
                0,
            ) is None,
            affected@ == edge_slots(write.affected@, write.affected@.len() as int),
            edges == generated_edges(write@.generated),
            acted@ == edge_slots(edges, i as int),
            members_fault(write@, 0) == members_fault(write@, i as int),
        decreases write.generated@.len() - i,
    {
        assert(write@.generated[i as int] == (
            write.generated@[i as int].0,
            write.generated@[i as int].1@,
            write.generated@[i as int].2,
        ));
        match validate_generated_member(
            write.generated[i].0,
            &write.generated[i].1,
            write.dimension,
            &affected,
            &mut acted,
        ) {
            Ok(_) => {},
            Err(message) => {
                return Err(message);
            },
        }
        proof {
            edge_slots_grow(edges, i as int);
        }
        i = i + 1;
    }
    let mut j: usize = 0;
    assert(acted@ =~= edge_slots(edges, edges.len() as int).union(
        edge_slots(write.remove_selected@, 0),
    ));
    while j < write.remove_selected.len()
        invariant
            j <= write.remove_selected@.len(),
            write.dimension != 0,
            metric_fault(write@.metric) is None,
            listed_fault(
                graph.topology,
                connection_type@,
                write@.affected,
                "the affected batch"@,
                0,
            ) is None,
            members_fault(write@, 0) is None,
            affected@ == edge_slots(write.affected@, write.affected@.len() as int),
            edges == generated_edges(write@.generated),
            acted@ == edge_slots(edges, edges.len() as int).union(
                edge_slots(write.remove_selected@, j as int),
            ),
            removals_fault(write@, 0) == removals_fault(write@, j as int),
        decreases write.remove_selected@.len() - j,
    {
        broadcast use vstd::std_specs::hash::group_hash_axioms;
        let edge = write.remove_selected[j];
        if !affected.contains(&edge.slot) {
            return Err(slot_message(edge, " is not in the affected batch"));
        }
        if !acted.insert(edge.slot) {
            return Err(slot_message(edge, " appears in more than one generated action"));
        }
        proof {
            edge_slots_grow(write.remove_selected@, j as int);
            assert(acted@ =~= edge_slots(edges, edges.len() as int).union(
                edge_slots(write.remove_selected@, j + 1),
            ));
        }
        j = j + 1;
    }
    Ok(())
}

/// A write that can be installed: every action is on a relationship of the
/// pass, no two on the same one, and the vectors fit.
pub open spec fn write_sound(topology: Topology, connection_type: Text, write: WriteModel) -> bool {
    &&& listed_sound(topology, connection_type, write.affected)
    &&& forall|i: int|
        0 <= i < write.generated.len() ==> write.affected.contains(
            (#[trigger] write.generated[i]).0,
        ) && write.generated[i].1.len() == write.dimension && fault_of(write.generated[i].1) is None
    &&& forall|i: int|
        0 <= i < write.removed.len() ==> write.affected.contains(#[trigger] write.removed[i])
    &&& (generated_edges(write.generated) + write.removed).no_duplicates()
}

proof fn listed_by_slot(edges: Seq<EdgeIndex>, edge: EdgeIndex)
    requires
        edge_slots(edges, edges.len() as int).contains(edge.slot),
    ensures
        edges.contains(edge),
{
    let i = choose|i: int| 0 <= i < edges.len() && (#[trigger] edges[i]).slot == edge.slot;
    assert(edges[i] == edge);
}

proof fn no_member_fault_at(write: WriteModel, from: int, at: int)
    requires
        0 <= from <= at < write.generated.len(),
        members_fault(write, from) is None,
    ensures
        member_fault(
            write.generated[at].0,
            write.generated[at].1,
            write.dimension,
            edge_slots(write.affected, write.affected.len() as int),
            edge_slots(generated_edges(write.generated), at),
        ) is None,
    decreases at - from,
{
    if from < at {
        no_member_fault_at(write, from + 1, at);
    }
}

proof fn no_removal_fault_at(write: WriteModel, from: int, at: int)
    requires
        0 <= from <= at < write.removed.len(),
        removals_fault(write, from) is None,
    ensures
        edge_slots(write.affected, write.affected.len() as int).contains(write.removed[at].slot),
        !edge_slots(generated_edges(write.generated), write.generated.len() as int).contains(
            write.removed[at].slot,
        ),
        !edge_slots(write.removed, at).contains(write.removed[at].slot),
    decreases at - from,
{
    if from < at {
        no_removal_fault_at(write, from + 1, at);
    }
}

/// A write without a fault can be installed.
pub proof fn faultless_write_is_sound(
    topology: Topology,
    connection_type: Text,
    write: WriteModel,
)
    requires
        generated_fault(topology, connection_type, write) is None,
    ensures
        write_sound(topology, connection_type, write),
{
    faultless_list_is_sound(topology, connection_type, write.affected, "the affected batch"@);
    let edges = generated_edges(write.generated);
    assert forall|i: int| 0 <= i < write.generated.len() implies write.affected.contains(
        (#[trigger] write.generated[i]).0,
    ) && write.generated[i].1.len() == write.dimension && fault_of(write.generated[i].1) is None by {
        no_member_fault_at(write, 0, i);
        listed_by_slot(write.affected, write.generated[i].0);
    }
    assert forall|i: int| 0 <= i < write.removed.len() implies write.affected.contains(
        #[trigger] write.removed[i],
    ) by {
        no_removal_fault_at(write, 0, i);
        listed_by_slot(write.affected, write.removed[i]);
    }
    let all = edges + write.removed;
    assert forall|i: int, j: int|
        0 <= i < j < all.len() implies all[i] != all[j] by {
        if j < edges.len() {
            no_member_fault_at(write, 0, j);
            assert(edges[i].slot != edges[j].slot);
        } else {
            let r = j - edges.len();
            no_removal_fault_at(write, 0, r);
            if i < edges.len() {
                assert(edges[i].slot != write.removed[r].slot);
            } else {
                assert(write.removed[i - edges.len()].slot != write.removed[r].slot);
            }
        }
    }
    assert forall|i: int, j: int|
        0 <= i < all.len() && 0 <= j < all.len() && i != j implies all[i] != all[j] by {
        if i < j {
            assert(all[i] != all[j]);
        } else {
            assert(all[j] != all[i]);
        }
    }
}

/// A sound write acts on no more relationships than it was over.
pub proof fn actions_fit(topology: Topology, connection_type: Text, write: WriteModel)
    requires
        write_sound(topology, connection_type, write),
    ensures
        write.generated.len() + write.removed.len() <= write.affected.len(),
{
    let all = generated_edges(write.generated) + write.removed;
    all.unique_seq_to_set();
    assert(all.to_set().subset_of(write.affected.to_set())) by {
        assert forall|e: EdgeIndex| all.to_set().contains(e) implies write.affected.to_set().contains(
            e,
        ) by {
            let k = all.index_of(e);
            assert(all[k] == e);
            if k < write.generated.len() {
                assert(write.affected.contains(write.generated[k].0));
            } else {
                assert(write.affected.contains(write.removed[k - write.generated.len()]));
            }
        }
    }
    vstd::seq_lib::seq_to_set_is_finite(write.affected);
    vstd::set_lib::lemma_len_subset(all.to_set(), write.affected.to_set());
    write.affected.lemma_cardinality_of_set();
}

/// A generated vector differs from what the store holds for it.
pub open spec fn vector_differs(
    existing: Option<StoreModel>,
    edge: EdgeIndex,
    vector: Seq<u32>,
    hash: u64,
) -> bool {
    match existing {
        Some(store) => !(vector_of(store, edge.slot) is Some && same_vector(
            vector_of(store, edge.slot)->0,
            vector,
        )) || hash_of(store, edge.slot) != Some(hash),
        None => true,
    }
}

/// How many of the first `count` generated vectors differ from the store's.
pub open spec fn vectors_differing(
    existing: Option<StoreModel>,
    generated: Seq<(EdgeIndex, Seq<u32>, u64)>,
    count: nat,
) -> nat
    decreases count,
{
    if count == 0 {
        0
    } else {
        let last = generated[count - 1];
        vectors_differing(existing, generated, (count - 1) as nat) + if vector_differs(
            existing,
            last.0,
            last.1,
            last.2,
        ) {
            1nat
        } else {
            0nat
        }
    }
}

/// How many of the first `count` relationships have a vector.
pub open spec fn vectors_held(existing: Option<StoreModel>, edges: Seq<EdgeIndex>, count: nat) -> nat
    decreases count,
{
    if count == 0 {
        0
    } else {
        vectors_held(existing, edges, (count - 1) as nat) + if existing is Some && holds(
            existing->0,
            edges[count - 1].slot,
        ) {
            1nat
        } else {
            0nat
        }
    }
}

/// How many cells a generated write changes.
pub open spec fn cells_changed(existing: Option<StoreModel>, write: WriteModel) -> nat {
    vectors_differing(existing, write.generated, write.generated.len()) + vectors_held(
        existing,
        write.removed,
        write.removed.len(),
    )
}

/// A write changes what a store declares.
pub open spec fn metadata_changes(existing: Option<StoreModel>, write: WriteModel) -> bool {
    match existing {
        Some(store) => store.dimension != write.dimension || store.metric != write.metric
            || store.model_id != write.model_id,
        None => true,
    }
}

/// The write changes the dimension of a store.
pub open spec fn dimension_changes(existing: Option<StoreModel>, write: WriteModel) -> bool {
    existing is Some && existing->0.dimension != write.dimension
}

/// The store with the first `count` generated vectors installed.
pub open spec fn all_installed(
    store: StoreModel,
    generated: Seq<(EdgeIndex, Seq<u32>, u64)>,
    count: nat,
) -> StoreModel
    decreases count,
{
    if count == 0 {
        store
    } else {
        let before = all_installed(store, generated, (count - 1) as nat);
        let last = generated[count - 1];
        with_hash(with_vector(before, last.0.slot, last.1), last.0.slot, Some(last.2))
    }
}

/// The store after a generated write: what it declares is the write's, the
/// selected vectors are gone, and the generated ones installed. A store of
/// another dimension starts anew.
pub open spec fn generated_successor(existing: Option<StoreModel>, write: WriteModel) -> StoreModel {
    let base = if existing is Some && !dimension_changes(existing, write) {
        existing->0
    } else {
        empty_store(write.dimension, write.metric)
    };
    let declared = StoreModel {
        dimension: write.dimension,
        metric: write.metric,
        model_id: write.model_id,
        ..base
    };
    all_installed(
        all_removed(declared, write.removed, write.removed.len()),
        write.generated,
        write.generated.len(),
    )
}

/// Every owner is among the relationships.
pub open spec fn owners_covered(store: StoreModel, edges: Seq<EdgeIndex>) -> bool {
    forall|i: int|
        0 <= i < store.nodes.len() ==> edge_slots(edges, edges.len() as int).contains(
            #[trigger] store.nodes[i],
        )
}

/// What is wrong with a generated write to a store.
pub open spec fn install_fault(
    topology: Topology,
    connection_type: Text,
    existing: Option<StoreModel>,
    write: WriteModel,
) -> Option<Text> {
    if generated_fault(topology, connection_type, write) is Some {
        generated_fault(topology, connection_type, write)
    } else if dimension_changes(existing, write) && !owners_covered(existing->0, write.affected) {
        Some(
            "Changing relationship embedding dimension requires coverage of every stored relationship vector"@,
        )
    } else if dimension_changes(existing, write) && write.generated.len() + write.removed.len()
        != write.affected.len() {
        Some(
            "Changing relationship embedding dimension requires an action for every affected relationship"@,
        )
    } else {
        None
    }
}

/// How many cells a generated write changes.
pub(crate) fn generated_change_count(
    existing: Option<&EdgeEmbeddingStore>,
    write: &GeneratedEdgeEmbeddingWrite,
) -> (count: usize)
    requires
        existing is Some ==> existing->0.well_formed(),
        write.generated@.len() + write.remove_selected@.len() <= usize::MAX,
    ensures
        count == cells_changed(store_option(existing), write@),
        count <= write.generated@.len() + write.remove_selected@.len(),
{
    let ghost held = store_option(existing);
    let mut count: usize = 0;
    let mut i: usize = 0;
    while i < write.generated.len()
        invariant
            i <= write.generated@.len(),
            existing is Some ==> existing->0.well_formed(),
            held == store_option(existing),
            count == vectors_differing(held, write@.generated, i as nat),
            count <= i,
        decreases write.generated@.len() - i,
    {
        let edge = write.generated[i].0;
        let hash: u64 = write.generated[i].2;
        assert(write@.generated[i as int] == (edge, write.generated@[i as int].1@, hash));
        let differs = match existing {
            Some(store) => {
                let same = match store.get(edge) {
                    Some(vector) => vector_eq(vector, write.generated[i].1.as_slice()),
                    None => false,
                };
                let hashed = match store.text_hash(edge) {
                    Some(h) => h == hash,
                    None => false,
                };
                !same || !hashed
            },
            None => true,
        };
        if differs {
            count = count + 1;
        }
        i = i + 1;
    }
    let ghost differing = count as nat;
    let mut j: usize = 0;
    while j < write.remove_selected.len()
        invariant
            j <= write.remove_selected@.len(),
            existing is Some ==> existing->0.well_formed(),
            held == store_option(existing),
            differing <= write.generated@.len(),
            write.generated@.len() + write.remove_selected@.len() <= usize::MAX,
            count == differing + vectors_held(held, write.remove_selected@, j as nat),
            count <= differing + j,
        decreases write.remove_selected@.len() - j,
    {
        let has = match existing {
            Some(store) => store.get(write.remove_selected[j]).is_some(),
            None => false,
        };
        if has {
            count = count + 1;
        }
        j = j + 1;
    }
    count
}

proof fn removals_keep(store: StoreModel, edges: Seq<EdgeIndex>, count: nat)
    ensures
        all_removed(store, edges, count).dimension == store.dimension,
    decreases count,
{
    if count > 0 {
        removals_keep(store, edges, (count - 1) as nat);
    }
}

proof fn installs_keep(
    store: StoreModel,
    generated: Seq<(EdgeIndex, Seq<u32>, u64)>,
    count: nat,
)
    ensures
        all_installed(store, generated, count).dimension == store.dimension,
    decreases count,
{
    if count > 0 {
        installs_keep(store, generated, (count - 1) as nat);
    }
}

/// Removes the selected vectors and installs the generated ones.
fn apply_write(store: &mut EdgeEmbeddingStore, write: &GeneratedEdgeEmbeddingWrite)
    requires
        old(store).well_formed(),
        forall|i: int|
            0 <= i < write.generated@.len() ==> (#[trigger] write.generated@[i]).1@.len() == old(
                store,
            )@.dimension,
    ensures
        final(store).well_formed(),
        final(store)@ == all_installed(
            all_removed(old(store)@, write@.removed, write@.removed.len()),
            write@.generated,
            write@.generated.len(),
        ),
{
    let ghost base = store@;
    let mut j: usize = 0;
    while j < write.remove_selected.len()
        invariant
            j <= write.remove_selected@.len(),
            store.well_formed(),
            store@ == all_removed(base, write.remove_selected@, j as nat),
        decreases write.remove_selected@.len() - j,
    {
        let _ = store.remove(write.remove_selected[j]);
        j = j + 1;
    }
    let ghost thinned = store@;
    proof {
        removals_keep(base, write.remove_selected@, write.remove_selected@.len());
    }
    let mut i: usize = 0;
    while i < write.generated.len()
        invariant
            i <= write.generated@.len(),
            forall|k: int|
                0 <= k < write.generated@.len() ==> (#[trigger] write.generated@[k]).1@.len()
                    == thinned.dimension,
            store.well_formed(),
            store@ == all_installed(thinned, write@.generated, i as nat),
        decreases write.generated@.len() - i,
    {
        proof {
            installs_keep(thinned, write@.generated, i as nat);
        }
        assert(write@.generated[i as int] == (
            write.generated@[i as int].0,
            write.generated@[i as int].1@,
            write.generated@[i as int].2,
        ));
        store.install_wal_vector(
            write.generated[i].0,
            write.generated[i].1.as_slice(),
            Some(write.generated[i].2),
        );
        i = i + 1;
    }
}

/// Whether every owner of a store is among the relationships.
pub(crate) fn covers_owners(store: &EdgeEmbeddingStore, affected: &Vec<EdgeIndex>) -> (covers: bool)
    ensures
        covers == owners_covered(store@, affected@),
{
    broadcast use vstd::std_specs::hash::group_hash_axioms;
    let mut slots: HashSet<usize> = HashSet::new();
    let mut i: usize = 0;
    assert(slots@ =~= edge_slots(affected@, 0));
    while i < affected.len()
        invariant
            i <= affected@.len(),
            slots@ == edge_slots(affected@, i as int),
        decreases affected@.len() - i,
    {
        broadcast use vstd::std_specs::hash::group_hash_axioms;
        slots.insert(affected[i].slot);
        proof {
            edge_slots_grow(affected@, i as int);
        }
        i = i + 1;
    }
    let mut k: usize = 0;
    while k < store.numeric.slot_to_node.len()
        invariant
            k <= store.numeric.slot_to_node@.len(),
            slots@ == edge_slots(affected@, affected@.len() as int),
            forall|n: int|
                0 <= n < k ==> slots@.contains(#[trigger] store.numeric.slot_to_node@[n]),
        decreases store.numeric.slot_to_node@.len() - k,
    {
        broadcast use vstd::std_specs::hash::group_hash_axioms;
        if !slots.contains(&store.numeric.slot_to_node[k]) {
            assert(!edge_slots(affected@, affected@.len() as int).contains(store@.nodes[k as int]));
            return false;
        }
        k = k + 1;
    }
    true
}

/// What is reported of a generated write, and what it does to the graph.
pub open spec fn install_done(
    before: DirGraph,
    after: DirGraph,
    connection_type: Text,
    text_property: Text,
    write: WriteModel,
    report: EdgeEmbeddingWriteReport,
) -> bool {
    let existing = lookup(before.edge_embeddings@, connection_type, store_name_of(text_property));
    let changed = cells_changed(existing, write);
    if changed == 0 && !metadata_changes(existing, write) {
        &&& after == before
        &&& report == (EdgeEmbeddingWriteReport {
            stored: match existing {
                Some(store) => store.nodes.len() as usize,
                None => 0,
            },
            dimension: write.dimension,
            changed: 0,
            store_created: false,
        })
    } else {
        let successor = generated_successor(existing, write);
        &&& replace_done(
            before,
            after,
            connection_type,
            text_property,
            successor,
            write.affected,
        )
        &&& report == (EdgeEmbeddingWriteReport {
            stored: successor.nodes.len() as usize,
            dimension: write.dimension,
            changed: changed as usize,
            store_created: existing is None,
        })
    }
}

/// Installs what a pass over relationships made, in one step. Everything is
/// checked first: a refused write changes nothing, and one that would change
/// nothing writes nothing.
pub fn install_generated_edge_embeddings(
    graph: &mut DirGraph,
    connection_type: &str,
    text_property: &str,
    write: &GeneratedEdgeEmbeddingWrite,
) -> (result: Result<EdgeEmbeddingWriteReport, String>)
    requires
        old(graph).well_formed(),
    ensures
        final(graph).well_formed(),
        match result {
            Ok(report) => {
                &&& install_fault(
                    old(graph).topology,
                    connection_type@,
                    lookup(
                        old(graph).edge_embeddings@,
                        connection_type@,
                        store_name_of(text_property@),
                    ),
                    write@,
                ) is None
                &&& install_done(
                    *old(graph),
                    *final(graph),
                    connection_type@,
                    text_property@,
                    write@,
                    report,
                )
            },
            Err(message) => {
                &&& *final(graph) == *old(graph)
                &&& install_fault(
                    old(graph).topology,
                    connection_type@,
                    lookup(
                        old(graph).edge_embeddings@,
                        connection_type@,
                        store_name_of(text_property@),
                    ),
                    write@,
                ) == Some(message@)
            },
        },
{
    match validate_generated_write(graph, connection_type, write) {
        Ok(_) => {},
        Err(message) => {
            return Err(message);
        },
    }
    let affected_count: usize = write.affected.len();
    proof {
        faultless_write_is_sound(graph.topology, connection_type@, write@);
        actions_fit(graph.topology, connection_type@, write@);
        assert(all_live(graph.topology, write.affected@)) by {
            assert forall|k: int| 0 <= k < write.affected@.len() implies graph.topology.live(
                #[trigger] write.affected@[k],
            ) by {
                assert(graph.topology.live_of_type(write@.affected[k], connection_type@));
            }
        }
        place_is_first(
            graph.edge_embeddings@,
            connection_type@,
            store_name_of(text_property@),
        );
        store_names_read_back(text_property@);
    }
    let name = store_name(text_property);
    let place = graph.edge_embeddings.position(connection_type, name.as_str());
    let ghost existing = lookup(graph.edge_embeddings@, connection_type@, name@);
    let store: Option<&EdgeEmbeddingStore> = match place {
        Some(p) => {
            assert(graph.edge_embeddings.entries@[p as int].store.well_formed());
            Some(&graph.edge_embeddings.entries[p].store)
        },
        None => None,
    };
    assert(store_option(store) == existing);
    let metric: Option<&str> = match &write.metric {
        Some(name) => Some(name.as_str()),
        None => None,
    };
    let model: Option<&str> = match &write.final_model_id {
        Some(name) => Some(name.as_str()),
        None => None,
    };
    let resized = match store {
        Some(s) => s.dimension() != write.dimension,
        None => false,
    };
    if resized {
        let covered = match store {
            Some(s) => covers_owners(s, &write.affected),
            None => true,
        };
        if !covered {
            return Err(
                "Changing relationship embedding dimension requires coverage of every stored relationship vector".to_owned(),
            );
        }
    }
    let changed: usize = generated_change_count(store, write);
    let redeclared = match store {
        Some(s) => resized || !text_option_eq(s.metric(), metric) || !text_option_eq(
            s.model_id(),
            model,
        ),
        None => true,
    };
    let held: usize = match store {
        Some(s) => s.len(),
        None => 0,
    };
    if changed == 0 && !redeclared {
        return Ok(
            EdgeEmbeddingWriteReport {
                stored: held,
                dimension: write.dimension,
                changed: 0,
                store_created: false,
            },
        );
    }
    if resized && write.generated.len() + write.remove_selected.len() != affected_count {
        return Err(
            "Changing relationship embedding dimension requires an action for every affected relationship".to_owned(),
        );
    }
    let mut successor = match store {
        Some(s) => if resized {
            EdgeEmbeddingStore::new(write.dimension, metric)
        } else {
            s.duplicate()
        },
        None => EdgeEmbeddingStore::new(write.dimension, metric),
    };
    match successor.set_wal_metadata(
        write.dimension,
        write.metric.clone(),
        write.final_model_id.clone(),
    ) {
        Ok(_) => {},
        Err(_) => {
            assert(false);
        },
    }
    assert forall|i: int| 0 <= i < write.generated@.len() implies (
    #[trigger] write.generated@[i]).1@.len() == successor@.dimension by {
        assert(write@.generated[i].1.len() == write.dimension);
    }
    apply_write(&mut successor, write);
    assert(successor@ == generated_successor(existing, write@));
    let stored: usize = successor.len();
    let created = place.is_none();
    install_store(graph, connection_type, text_property, successor, &write.affected);
    Ok(
        EdgeEmbeddingWriteReport {
            stored,
            dimension: write.dimension,
            changed,
            store_created: created,
        },
    )
}

} // verus!
