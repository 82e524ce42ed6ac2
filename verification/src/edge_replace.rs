//! Replacing, dropping and thinning out whole relationship stores.
use std::collections::HashSet;
use vstd::prelude::*;
use crate::catalog::{
    a_dropped_store_is_gone, a_kept_store_is_found, kept, lookup, place_is_first, with_entry,
    without_entry,
};
use crate::edge_log::{
    all_live, bases_before, capture_wal_edge_embedding_bases, changes_recorded,
    no_repeats_to_merge, note_wal_edge_embedding_changes,
};
use crate::edge_store::EdgeEmbeddingStore;
use crate::edge_writes::{
    edge_fault, edge_names_stay, entries_fault, entry_models, faultless_entries_are_sound,
    metric_fault, nothing_written, repeated_message, repeated_text, validate_live_edge_type,
    validate_manual_entries, validate_metric, wrote_stores, EdgeEmbeddingWriteReport, EdgeVector,
};
use crate::graph::{bumped, recorded, recorded_with, undo_of, undo_with, DirGraph};
use crate::names::{column_of, store_name, store_name_of, store_names_read_back};
use crate::recording::{RecordingModel, UndoEntry, UndoModel};
use crate::store::{
    empty_store, holds, index_state_of, removed_of, unindexed, vector_of, without_vector,
    RemovedEmbedding, StoreModel,
};
use crate::text::{str_option, Text};
use crate::topology::{typed_edges, typed_edges_are_the_live_ones, Topology};
use crate::value::EdgeIndex;

verus! {

/// What is wrong with a batch that is to replace a store.
pub open spec fn replace_fault(
    topology: Topology,
    connection_type: Text,
    entries: Seq<(EdgeIndex, Seq<u32>)>,
    metric: Option<Text>,
    list: Text,
) -> Option<Text> {
    if metric_fault(metric) is Some {
        metric_fault(metric)
    } else if entries[0].1.len() == 0 {
        Some("Embedding vectors must not be empty"@)
    } else {
        entries_fault(
            topology,
            connection_type,
            entries,
            entries[0].1.len() as usize,
            list,
            0,
        )
    }
}

/// The store that holds the entries and nothing else, in their order.
pub open spec fn store_of_entries(
    dimension: usize,
    metric: Option<Text>,
    entries: Seq<(EdgeIndex, Seq<u32>)>,
) -> StoreModel {
    StoreModel {
        nodes: Seq::new(entries.len(), |i: int| entries[i].0.slot),
        rows: Seq::new(entries.len(), |i: int| entries[i].1),
        ..empty_store(dimension, metric)
    }
}

/// What replacing a store does to the graph.
pub open spec fn replace_done(
    before: DirGraph,
    after: DirGraph,
    connection_type: Text,
    text_property: Text,
    store: StoreModel,
    affected: Seq<EdgeIndex>,
) -> bool {
    let name = store_name_of(text_property);
    &&& wrote_stores(before, after)
    &&& after.edge_embeddings@ == with_entry(before.edge_embeddings@, connection_type, name, store)
    &&& undo_of(after) == undo_with(
        undo_of(before),
        seq![
            UndoModel::EdgeEmbeddingStoreReplaced {
                conn_type: connection_type,
                name,
                prior: lookup(before.edge_embeddings@, connection_type, name),
            },
        ],
    )
    &&& recorded(after) == changes_recorded(
        recorded_with(
            recorded(before),
            bases_before(
                before.topology,
                before.edge_embeddings@,
                connection_type,
                text_property,
                affected,
            ),
        ),
        before.topology,
        connection_type,
        text_property,
        true,
        affected,
    )
}

/// The relationships of a type live, and each is listed once.
pub proof fn typed_edges_live(topology: Topology, connection_type: Text)
    requires
        topology.edges@.len() <= usize::MAX,
    ensures
        all_live(topology, typed_edges(topology.edges@, connection_type)),
        typed_edges(topology.edges@, connection_type).no_duplicates(),
{
    let edges = typed_edges(topology.edges@, connection_type);
    typed_edges_are_the_live_ones(topology.edges@, connection_type);
    assert forall|i: int| 0 <= i < edges.len() implies topology.live(#[trigger] edges[i]) by {
        assert(edges.contains(edges[i]));
    }
    assert forall|i: int, j: int|
        0 <= i < edges.len() && 0 <= j < edges.len() && i != j implies edges[i] != edges[j] by {
        if i < j {
            assert(edges[i].slot < edges[j].slot);
        } else {
            assert(edges[j].slot < edges[i].slot);
        }
    }
}

/// A store that holds the entries and nothing else.
fn build_store(dimension: usize, metric: Option<&str>, entries: &Vec<EdgeVector>) -> (store:
    EdgeEmbeddingStore)
    requires
        forall|i: int|
            0 <= i < entries@.len() ==> (#[trigger] entries@[i]).1@.len() == dimension,
        forall|i: int, j: int|
            0 <= i < j < entries@.len() ==> (#[trigger] entries@[i]).0 != (#[trigger] entries@[j]).0,
    ensures
        store.well_formed(),
        store@ == store_of_entries(dimension, str_option(metric), entry_models(entries@)),
{
    let ghost models = entry_models(entries@);
    let mut store = EdgeEmbeddingStore::new(dimension, metric);
    let mut i: usize = 0;
    assert(store@ =~= store_of_entries(dimension, str_option(metric), models.take(0)));
    while i < entries.len()
        invariant
            i <= entries@.len(),
            models == entry_models(entries@),
            forall|k: int|
                0 <= k < entries@.len() ==> (#[trigger] entries@[k]).1@.len() == dimension,
            forall|k: int, j: int|
                0 <= k < j < entries@.len() ==> (#[trigger] entries@[k]).0 != (
                #[trigger] entries@[j]).0,
            store.well_formed(),
            store@ == store_of_entries(dimension, str_option(metric), models.take(i as int)),
        decreases entries@.len() - i,
    {
        let ghost before = store@;
        store.set_manual(entries[i].0, entries[i].1.as_slice());
        proof {
            let slot = entries@[i as int].0.slot;
            if holds(before, slot) {
                let k = before.nodes.index_of(slot);
                assert(before.nodes[k] == slot);
                assert(models.take(i as int)[k].0 == entries@[k].0);
                assert(entries@[k].0 != entries@[i as int].0);
            }
            assert(models.take(i + 1) =~= models.take(i as int).push(models[i as int]));
            assert(store@.hashes =~= Map::<usize, u64>::empty());
            assert(store@ =~= store_of_entries(
                dimension,
                str_option(metric),
                models.take(i + 1),
            ));
        }
        i = i + 1;
    }
    assert(models.take(i as int) =~= models);
    store
}

/// Keeps `store` in place of the one there is, with its undo entry and its
/// recording; the version is the caller's to count.
pub(crate) fn keep_store(
    graph: &mut DirGraph,
    connection_type: &str,
    text_property: &str,
    store: EdgeEmbeddingStore,
    affected: &Vec<EdgeIndex>,
)
    requires
        old(graph).well_formed(),
        store.well_formed(),
        all_live(old(graph).topology, affected@),
        affected@.no_duplicates(),
    ensures
        final(graph).well_formed(),
        final(graph).version == old(graph).version,
        replace_done(
            *old(graph),
            DirGraph { version: bumped(old(graph).version), ..*final(graph) },
            connection_type@,
            text_property@,
            store@,
            affected@,
        ),
{
    proof {
        no_repeats_to_merge(affected@, affected@.len());
        assert(affected@.take(affected@.len() as int) =~= affected@);
    }
    match capture_wal_edge_embedding_bases(graph, connection_type, text_property, affected) {
        Ok(_) => {},
        Err(_) => {
            assert(false);
        },
    }
    let name = store_name(text_property);
    let ghost captured = *graph;
    let prior = graph.edge_embeddings.insert(connection_type, name.as_str(), store);
    proof {
        store_names_read_back(text_property@);
        a_kept_store_is_found(captured.edge_embeddings@, connection_type@, name@, store@);
        edge_names_stay(captured, *graph, connection_type@, name@, store);
        if prior is Some {
            let i = choose|i: int|
                0 <= i < captured.edge_embeddings.entries@.len() && (
                #[trigger] captured.edge_embeddings.entries@[i]).store == prior->0;
            assert(captured.edge_embeddings.entries@[i].store.well_formed());
        }
    }
    graph.note_undo(
        UndoEntry::EdgeEmbeddingStoreReplaced {
            conn_type: connection_type.to_owned(),
            name,
            prior,
        },
    );
    note_wal_edge_embedding_changes(graph, connection_type, text_property, true, affected);
}

/// Keeps `store` in place of the one there is, with its undo entry, its
/// recording and its version.
pub(crate) fn install_store(
    graph: &mut DirGraph,
    connection_type: &str,
    text_property: &str,
    store: EdgeEmbeddingStore,
    affected: &Vec<EdgeIndex>,
)
    requires
        old(graph).well_formed(),
        store.well_formed(),
        all_live(old(graph).topology, affected@),
        affected@.no_duplicates(),
    ensures
        final(graph).well_formed(),
        replace_done(
            *old(graph),
            *final(graph),
            connection_type@,
            text_property@,
            store@,
            affected@,
        ),
{
    keep_store(graph, connection_type, text_property, store, affected);
    graph.bump_version();
}

/// Replaces the whole store of a type and a text property with the entries.
/// Everything is checked first, and an empty batch writes nothing.
pub fn replace_edge_embeddings_listed(
    graph: &mut DirGraph,
    connection_type: &str,
    text_property: &str,
    entries: &Vec<EdgeVector>,
    metric: Option<&str>,
    list: &str,
) -> (result: Result<EdgeEmbeddingWriteReport, String>)
    requires
        old(graph).well_formed(),
    ensures
        final(graph).well_formed(),
        match result {
            Ok(report) => if entries@.len() == 0 {
                *final(graph) == *old(graph) && report == nothing_written()
            } else {
                &&& replace_fault(
                    old(graph).topology,
                    connection_type@,
                    entry_models(entries@),
                    str_option(metric),
                    list@,
                ) is None
                &&& replace_done(
                    *old(graph),
                    *final(graph),
                    connection_type@,
                    text_property@,
                    store_of_entries(
                        entries@[0].1@.len() as usize,
                        str_option(metric),
                        entry_models(entries@),
                    ),
                    typed_edges(old(graph).topology.edges@, connection_type@),
                )
                &&& report == (EdgeEmbeddingWriteReport {
                    stored: entries@.len() as usize,
                    dimension: entries@[0].1@.len() as usize,
                    changed: entries@.len() as usize,
                    store_created: true,
                })
            },
            Err(message) => {
                &&& entries@.len() > 0
                &&& *final(graph) == *old(graph)
                &&& replace_fault(
                    old(graph).topology,
                    connection_type@,
                    entry_models(entries@),
                    str_option(metric),
                    list@,
                ) == Some(message@)
            },
        },
{
    if entries.len() == 0 {
        return Ok(EdgeEmbeddingWriteReport::default());
    }
    match validate_metric(metric) {
        Ok(_) => {},
        Err(message) => {
            return Err(message);
        },
    }
    let dimension: usize = entries[0].1.len();
    if dimension == 0 {
        return Err("Embedding vectors must not be empty".to_owned());
    }
    match validate_manual_entries(graph, connection_type, entries, dimension, list) {
        Ok(_) => {},
        Err(message) => {
            return Err(message);
        },
    }
    let ghost models = entry_models(entries@);
    proof {
        faultless_entries_are_sound(graph.topology, connection_type@, models, dimension, list@);
        assert forall|i: int| 0 <= i < entries@.len() implies (#[trigger] entries@[i]).1@.len()
            == dimension by {
            assert(models[i].1.len() == dimension);
        }
        assert forall|i: int, j: int| 0 <= i < j < entries@.len() implies (
        #[trigger] entries@[i]).0 != (#[trigger] entries@[j]).0 by {
            assert(models[i].0 != models[j].0);
        }
    }
    let store = build_store(dimension, metric, entries);
    let affected = graph.topology.edges_of_type(connection_type);
    let bound: usize = graph.topology.edges.len();
    proof {
        typed_edges_live(graph.topology, connection_type@);
    }
    let stored: usize = store.len();
    install_store(graph, connection_type, text_property, store, &affected);
    Ok(
        EdgeEmbeddingWriteReport {
            stored,
            dimension,
            changed: entries.len(),
            store_created: true,
        },
    )
}

/// What dropping a store does to the graph.
pub open spec fn drop_done(
    before: DirGraph,
    after: DirGraph,
    connection_type: Text,
    text_property: Text,
) -> bool {
    let name = store_name_of(text_property);
    let affected = typed_edges(before.topology.edges@, connection_type);
    &&& wrote_stores(before, after)
    &&& after.edge_embeddings@ == without_entry(before.edge_embeddings@, connection_type, name)
    &&& undo_of(after) == undo_with(
        undo_of(before),
        seq![
            UndoModel::EdgeEmbeddingStoreReplaced {
                conn_type: connection_type,
                name,
                prior: lookup(before.edge_embeddings@, connection_type, name),
            },
        ],
    )
    &&& recorded(after) == match changes_recorded(
        recorded_with(
            recorded(before),
            bases_before(
                before.topology,
                before.edge_embeddings@,
                connection_type,
                text_property,
                affected,
            ),
        ),
        before.topology,
        connection_type,
        text_property,
        true,
        affected,
    ) {
        Some(r) => Some(
            RecordingModel { base_capture: after.edge_embeddings@.len() > 0, ..r },
        ),
        None => None,
    }
}

/// Drops the store of a type and a text property, and says whether there was
/// one. The last store that goes ends the capture of bases.
pub fn drop_edge_embedding_store(
    graph: &mut DirGraph,
    connection_type: &str,
    text_property: &str,
) -> (result: Result<bool, String>)
    requires
        old(graph).well_formed(),
    ensures
        final(graph).well_formed(),
        match result {
            Ok(dropped) => {
                &&& dropped == kept(
                    old(graph).edge_embeddings@,
                    connection_type@,
                    store_name_of(text_property@),
                )
                &&& dropped ==> drop_done(
                    *old(graph),
                    *final(graph),
                    connection_type@,
                    text_property@,
                )
                &&& !dropped ==> *final(graph) == *old(graph)
            },
            Err(_) => false,
        },
{
    let name = store_name(text_property);
    if !graph.edge_embeddings.contains(connection_type, name.as_str()) {
        return Ok(false);
    }
    let affected = graph.topology.edges_of_type(connection_type);
    let bound: usize = graph.topology.edges.len();
    proof {
        typed_edges_live(graph.topology, connection_type@);
        store_names_read_back(text_property@);
    }
    proof {
        no_repeats_to_merge(affected@, affected@.len());
        assert(affected@.take(affected@.len() as int) =~= affected@);
    }
    match capture_wal_edge_embedding_bases(graph, connection_type, text_property, &affected) {
        Ok(_) => {},
        Err(_) => {
            assert(false);
        },
    }
    let ghost captured = *graph;
    let prior = graph.edge_embeddings.remove(connection_type, name.as_str());
    proof {
        a_dropped_store_is_gone(captured.edge_embeddings@, connection_type@, name@);
        place_is_first(captured.edge_embeddings@, connection_type@, name@);
        if prior is Some {
            let i = choose|i: int|
                0 <= i < captured.edge_embeddings.entries@.len() && (
                #[trigger] captured.edge_embeddings.entries@[i]).store == prior->0;
            assert(captured.edge_embeddings.entries@[i].store.well_formed());
        }
        let place = crate::catalog::entry_place(
            captured.edge_embeddings@,
            connection_type@,
            name@,
        );
        assert forall|i: int| 0 <= i < graph.edge_embeddings.entries@.len() implies (
        #[trigger] graph.edge_embeddings.entries@[i]).store.well_formed() && column_of(
            graph.edge_embeddings.entries@[i].name@,
        ) is Some by {
            let j = choose|j: int|
                0 <= j < captured.edge_embeddings.entries@.len() && (
                #[trigger] captured.edge_embeddings.entries@[j]).store
                    == graph.edge_embeddings.entries@[i].store;
            assert(captured.edge_embeddings.entries@[j].store.well_formed());
            let k = if i < place { i } else { i + 1 };
            assert(graph.edge_embeddings@.len() == graph.edge_embeddings.entries@.len());
            assert(graph.edge_embeddings@[i] == captured.edge_embeddings@[k]);
            assert(graph.edge_embeddings@[i].name == graph.edge_embeddings.entries@[i].name@);
            assert(captured.edge_embeddings@[k].name == captured.edge_embeddings.entries@[k].name@);
            assert(column_of(captured.edge_embeddings.entries@[k].name@) is Some);
        }
    }
    graph.note_undo(
        UndoEntry::EdgeEmbeddingStoreReplaced {
            conn_type: connection_type.to_owned(),
            name,
            prior,
        },
    );
    note_wal_edge_embedding_changes(graph, connection_type, text_property, true, &affected);
    let capture = !graph.edge_embeddings.is_empty();
    graph.set_edge_embedding_base_capture(capture);
    graph.bump_version();
    Ok(true)
}

/// The slots of the first `count` relationships of a list.
pub open spec fn edge_slots(edges: Seq<EdgeIndex>, count: int) -> Set<usize> {
    Set::new(|s: usize| exists|i: int| 0 <= i < count && (#[trigger] edges[i]).slot == s)
}

/// One more relationship adds its slot.
pub proof fn edge_slots_grow(edges: Seq<EdgeIndex>, count: int)
    requires
        0 <= count < edges.len(),
    ensures
        edge_slots(edges, count + 1) == edge_slots(edges, count).insert(edges[count].slot),
{
    assert forall|s: usize|
        edge_slots(edges, count + 1).contains(s) <==> edge_slots(edges, count).insert(
            edges[count].slot,
        ).contains(s) by {
        if s == edges[count].slot {
            assert(edges[count].slot == s);
        }
    }
    assert(edge_slots(edges, count + 1) =~= edge_slots(edges, count).insert(edges[count].slot));
}

/// What is wrong with the first faulty relationship of a list from `position`
/// on: listed before, not live, or not of the type.
pub open spec fn listed_fault(
    topology: Topology,
    connection_type: Text,
    edges: Seq<EdgeIndex>,
    place: Text,
    position: int,
) -> Option<Text>
    decreases edges.len() - position,
{
    if position < 0 || position >= edges.len() {
        None
    } else if edge_slots(edges, position).contains(edges[position].slot) {
        Some(repeated_text(edges[position], place))
    } else {
        match edge_fault(topology, edges[position], connection_type) {
            Some(fault) => Some(fault),
            None => listed_fault(topology, connection_type, edges, place, position + 1),
        }
    }
}

/// The relationships of a list live, are of the type, and are listed once.
pub open spec fn listed_sound(
    topology: Topology,
    connection_type: Text,
    edges: Seq<EdgeIndex>,
) -> bool {
    &&& forall|i: int|
        0 <= i < edges.len() ==> topology.live_of_type(#[trigger] edges[i], connection_type)
    &&& edges.no_duplicates()
}

/// A list without a fault is sound.
pub proof fn faultless_list_is_sound(
    topology: Topology,
    connection_type: Text,
    edges: Seq<EdgeIndex>,
    place: Text,
)
    requires
        listed_fault(topology, connection_type, edges, place, 0) is None,
    ensures
        listed_sound(topology, connection_type, edges),
{
    assert forall|i: int| 0 <= i < edges.len() implies !edge_slots(edges, i).contains(
        #[trigger] edges[i].slot,
    ) && edge_fault(topology, edges[i], connection_type) is None by {
        no_listed_fault_at(topology, connection_type, edges, place, 0, i);
    }
    assert forall|i: int, j: int|
        0 <= i < edges.len() && 0 <= j < edges.len() && i != j implies edges[i] != edges[j] by {
        if i < j {
            assert(!edge_slots(edges, j).contains(edges[j].slot));
            assert(edges[i].slot != edges[j].slot);
        } else {
            assert(!edge_slots(edges, i).contains(edges[i].slot));
            assert(edges[j].slot != edges[i].slot);
        }
    }
    assert forall|i: int| 0 <= i < edges.len() implies topology.live_of_type(
        #[trigger] edges[i],
        connection_type,
    ) by {
        assert(!edge_slots(edges, i).contains(edges[i].slot));
    }
}

proof fn no_listed_fault_at(
    topology: Topology,
    connection_type: Text,
    edges: Seq<EdgeIndex>,
    place: Text,
    from: int,
    at: int,
)
    requires
        0 <= from <= at < edges.len(),
        listed_fault(topology, connection_type, edges, place, from) is None,
    ensures
        !edge_slots(edges, at).contains(edges[at].slot),
        edge_fault(topology, edges[at], connection_type) is None,
    decreases at - from,
{
    if from < at {
        no_listed_fault_at(topology, connection_type, edges, place, from + 1, at);
    }
}

/// Refuses a list with a relationship that is listed twice, does not live, or
/// is not of the type; gives back the slots listed.
pub(crate) fn validate_listed(
    graph: &DirGraph,
    connection_type: &str,
    edges: &Vec<EdgeIndex>,
    place: &str,
) -> (result: Result<HashSet<usize>, String>)
    ensures
        match result {
            Ok(slots) => {
                &&& listed_fault(graph.topology, connection_type@, edges@, place@, 0) is None
                &&& slots@ == edge_slots(edges@, edges@.len() as int)
            },
            Err(message) => listed_fault(graph.topology, connection_type@, edges@, place@, 0)
                == Some(message@),
        },
{
    broadcast use vstd::std_specs::hash::group_hash_axioms;
    let mut seen: HashSet<usize> = HashSet::new();
    let mut i: usize = 0;
    assert(seen@ =~= edge_slots(edges@, 0));
    while i < edges.len()
        invariant
            i <= edges@.len(),
            seen@ == edge_slots(edges@, i as int),
            listed_fault(graph.topology, connection_type@, edges@, place@, 0) == listed_fault(
                graph.topology,
                connection_type@,
                edges@,
                place@,
                i as int,
            ),
        decreases edges@.len() - i,
    {
        broadcast use vstd::std_specs::hash::group_hash_axioms;
        let edge = edges[i];
        if !seen.insert(edge.slot) {
            return Err(repeated_message(edge, place));
        }
        match validate_live_edge_type(graph, edge, connection_type) {
            Ok(_) => {},
            Err(message) => {
                return Err(message);
            },
        }
        proof {
            edge_slots_grow(edges@, i as int);
        }
        i = i + 1;
    }
    Ok(seen)
}

/// The relationships among the first `count` that have a vector.
pub open spec fn held_edges(store: StoreModel, edges: Seq<EdgeIndex>, count: nat) -> Seq<EdgeIndex>
    decreases count,
{
    if count == 0 {
        Seq::empty()
    } else {
        let before = held_edges(store, edges, (count - 1) as nat);
        if holds(store, edges[count - 1].slot) {
            before.push(edges[count - 1])
        } else {
            before
        }
    }
}

/// The store without the vectors of the first `count` relationships.
pub open spec fn all_removed(store: StoreModel, edges: Seq<EdgeIndex>, count: nat) -> StoreModel
    decreases count,
{
    if count == 0 {
        store
    } else {
        without_vector(all_removed(store, edges, (count - 1) as nat), edges[count - 1].slot)
    }
}

/// The undo entries of removing the vectors of the first `count` relationships.
pub open spec fn removed_entries(
    connection_type: Text,
    name: Text,
    store: StoreModel,
    edges: Seq<EdgeIndex>,
    count: nat,
) -> Seq<UndoModel>
    decreases count,
{
    if count == 0 {
        Seq::empty()
    } else {
        let before = removed_entries(connection_type, name, store, edges, (count - 1) as nat);
        match removed_of(
            all_removed(store, edges, (count - 1) as nat),
            edges[count - 1].slot,
        ) {
            Some(removed) => before.push(
                UndoModel::EdgeEmbeddingRemoved {
                    conn_type: connection_type,
                    name,
                    edge: edges[count - 1],
                    prior: removed,
                },
            ),
            None => before,
        }
    }
}

/// Removing some vectors leaves the others.
pub proof fn removing_leaves_the_others(store: StoreModel, edges: Seq<EdgeIndex>, count: nat)
    requires
        crate::store::coherent(store),
        count <= edges.len(),
    ensures
        crate::store::coherent(all_removed(store, edges, count)),
        forall|n: usize|
            #[trigger] holds(all_removed(store, edges, count), n) <==> holds(store, n)
                && !edge_slots(edges, count as int).contains(n),
        forall|n: usize|
            !edge_slots(edges, count as int).contains(n) ==> #[trigger] vector_of(
                all_removed(store, edges, count),
                n,
            ) == vector_of(store, n),
    decreases count,
{
    if count > 0 {
        let at = count - 1;
        removing_leaves_the_others(store, edges, at as nat);
        edge_slots_grow(edges, at);
        a_removed_vector_is_gone(all_removed(store, edges, at as nat), edges[at].slot);
    } else {
        assert(edge_slots(edges, 0) =~= Set::<usize>::empty());
    }
}

/// A removed vector is gone, and every other owner keeps its own.
pub proof fn a_removed_vector_is_gone(store: StoreModel, node: usize)
    requires
        crate::store::coherent(store),
    ensures
        crate::store::coherent(without_vector(store, node)),
        !holds(without_vector(store, node), node),
        forall|n: usize|
            n != node ==> (#[trigger] holds(without_vector(store, node), n) <==> holds(store, n)),
        forall|n: usize|
            n != node ==> #[trigger] vector_of(without_vector(store, node), n) == vector_of(
                store,
                n,
            ),
{
    let after = without_vector(store, node);
    if holds(store, node) {
        let at = crate::store::place_of(store, node);
        let last = store.nodes.len() - 1;
        assert(store.nodes[at] == node);
        let from = |k: int| if k == at { last } else { k };
        assert(after.nodes.len() == last);
        assert forall|k: int| 0 <= k < last implies #[trigger] after.nodes[k] == store.nodes[from(k)]
            && after.rows[k] == store.rows[from(k)] by {}
        assert(after.nodes.no_duplicates()) by {
            assert forall|i: int, j: int|
                0 <= i < after.nodes.len() && 0 <= j < after.nodes.len() && i != j implies
                after.nodes[i] != after.nodes[j] by {
                assert(after.nodes[i] == store.nodes[from(i)]);
                assert(after.nodes[j] == store.nodes[from(j)]);
            }
        }
        assert(!holds(after, node)) by {
            if after.nodes.contains(node) {
                let k = after.nodes.index_of(node);
                assert(after.nodes[k] == store.nodes[from(k)]);
            }
        }
        assert forall|n: usize| n != node implies (#[trigger] holds(after, n) <==> holds(store, n))
            && vector_of(after, n) == vector_of(store, n) by {
            if holds(after, n) {
                let k = after.nodes.index_of(n);
                assert(after.nodes[k] == store.nodes[from(k)]);
                assert(store.nodes.contains(n));
                assert(store.nodes[store.nodes.index_of(n)] == n);
            }
            if holds(store, n) {
                let j = store.nodes.index_of(n);
                assert(store.nodes[j] == n);
                let k = if j == last { at } else { j };
                assert(after.nodes[k] == store.nodes[from(k)]);
                assert(after.nodes[k] == n);
                assert(after.nodes.contains(n));
                assert(after.nodes[after.nodes.index_of(n)] == n);
            }
        }
        assert forall|n: usize| #[trigger] after.hashes.contains_key(n) implies after.nodes.contains(
            n,
        ) by {
            assert(store.hashes.contains_key(n));
            assert(holds(store, n));
            assert(holds(after, n));
        }
        assert forall|k: int| 0 <= k < after.rows.len() implies (#[trigger] after.rows[k]).len()
            == after.dimension by {
            assert(after.nodes[k] == store.nodes[from(k)]);
        }
    }
}

/// What removing vectors does to the graph.
pub open spec fn removal_done(
    before: DirGraph,
    after: DirGraph,
    connection_type: Text,
    text_property: Text,
    edges: Seq<EdgeIndex>,
) -> bool {
    let name = store_name_of(text_property);
    let store = lookup(before.edge_embeddings@, connection_type, name)->0;
    &&& wrote_stores(before, after)
    &&& after.edge_embeddings@ == with_entry(
        before.edge_embeddings@,
        connection_type,
        name,
        all_removed(unindexed(store), edges, edges.len()),
    )
    &&& undo_of(after) == undo_with(
        undo_of(before),
        seq![
            UndoModel::EdgeVectorIndexReplaced {
                conn_type: connection_type,
                name,
                prior: index_state_of(store),
            },
        ] + removed_entries(connection_type, name, unindexed(store), edges, edges.len()),
    )
    &&& recorded(after) == changes_recorded(
        recorded_with(
            recorded(before),
            bases_before(
                before.topology,
                before.edge_embeddings@,
                connection_type,
                text_property,
                held_edges(store, edges, edges.len()),
            ),
        ),
        before.topology,
        connection_type,
        text_property,
        false,
        edges,
    )
}

proof fn held_are_listed(store: StoreModel, edges: Seq<EdgeIndex>, count: nat)
    requires
        count <= edges.len(),
        edges.no_duplicates(),
    ensures
        held_edges(store, edges, count).len() <= count,
        forall|k: int|
            0 <= k < held_edges(store, edges, count).len() ==> exists|i: int|
                0 <= i < count && (#[trigger] edges[i]) == (#[trigger] held_edges(
                    store,
                    edges,
                    count,
                )[k]),
        held_edges(store, edges, count).no_duplicates(),
    decreases count,
{
    if count > 0 {
        let at = count - 1;
        held_are_listed(store, edges, at as nat);
        let before = held_edges(store, edges, at as nat);
        let after = held_edges(store, edges, count);
        assert forall|k: int| 0 <= k < after.len() implies exists|i: int|
            0 <= i < count && (#[trigger] edges[i]) == (#[trigger] after[k]) by {
            if k < before.len() {
                let i = choose|i: int| 0 <= i < at && (#[trigger] edges[i]) == before[k];
                assert(edges[i] == after[k]);
            } else {
                assert(edges[at] == after[k]);
            }
        }
        assert forall|a: int, b: int|
            0 <= a < after.len() && 0 <= b < after.len() && a != b implies after[a] != after[b] by {
            if a == before.len() {
                let i = choose|i: int| 0 <= i < at && (#[trigger] edges[i]) == before[b];
                assert(edges[i] != edges[at]);
            } else if b == before.len() {
                let i = choose|i: int| 0 <= i < at && (#[trigger] edges[i]) == before[a];
                assert(edges[i] != edges[at]);
            }
        }
    }
}

/// Takes the vectors of the relationships out of a store, and keeps what each
/// was.
fn remove_all(store: &mut EdgeEmbeddingStore, edges: &Vec<EdgeIndex>) -> (removed: Vec<
    (EdgeIndex, RemovedEmbedding),
>)
    requires
        old(store).well_formed(),
    ensures
        final(store).well_formed(),
        final(store)@ == all_removed(old(store)@, edges@, edges@.len()),
        forall|connection_type: Text, name: Text|
            #[trigger] removed_entries(
                connection_type,
                name,
                old(store)@,
                edges@,
                edges@.len(),
            ) == noted_removals(connection_type, name, removed@),
{
    let mut removed: Vec<(EdgeIndex, RemovedEmbedding)> = Vec::new();
    let mut i: usize = 0;
    assert forall|connection_type: Text, name: Text|
        #[trigger] removed_entries(connection_type, name, old(store)@, edges@, 0)
            == noted_removals(connection_type, name, removed@) by {
        assert(noted_removals(connection_type, name, removed@) =~= Seq::<UndoModel>::empty());
    }
    while i < edges.len()
        invariant
            i <= edges@.len(),
            store.well_formed(),
            store@ == all_removed(old(store)@, edges@, i as nat),
            forall|connection_type: Text, name: Text|
                #[trigger] removed_entries(
                    connection_type,
                    name,
                    old(store)@,
                    edges@,
                    i as nat,
                ) == noted_removals(connection_type, name, removed@),
        decreases edges@.len() - i,
    {
        let edge = edges[i];
        let ghost before = removed@;
        match store.remove(edge) {
            Some(prior) => {
                removed.push((edge, prior));
                assert forall|connection_type: Text, name: Text|
                    #[trigger] removed_entries(
                        connection_type,
                        name,
                        old(store)@,
                        edges@,
                        (i + 1) as nat,
                    ) == noted_removals(connection_type, name, removed@) by {
                    assert(removed_entries(connection_type, name, old(store)@, edges@, i as nat)
                        == noted_removals(connection_type, name, before));
                    assert(noted_removals(connection_type, name, removed@) =~= noted_removals(
                        connection_type,
                        name,
                        before,
                    ).push(
                        UndoModel::EdgeEmbeddingRemoved {
                            conn_type: connection_type,
                            name,
                            edge,
                            prior: prior@,
                        },
                    ));
                }
            },
            None => {
                assert forall|connection_type: Text, name: Text|
                    #[trigger] removed_entries(
                        connection_type,
                        name,
                        old(store)@,
                        edges@,
                        (i + 1) as nat,
                    ) == noted_removals(connection_type, name, removed@) by {
                    assert(removed_entries(connection_type, name, old(store)@, edges@, i as nat)
                        == noted_removals(connection_type, name, before));
                }
            },
        }
        i = i + 1;
    }
    removed
}

/// The undo entries of removed vectors.
pub open spec fn noted_removals(
    connection_type: Text,
    name: Text,
    removed: Seq<(EdgeIndex, RemovedEmbedding)>,
) -> Seq<UndoModel> {
    Seq::new(
        removed.len(),
        |i: int|
            UndoModel::EdgeEmbeddingRemoved {
                conn_type: connection_type,
                name,
                edge: removed[i].0,
                prior: removed[i].1@,
            },
    )
}

/// Adds the undo entries of removed vectors.
pub(crate) fn note_removals(
    graph: &mut DirGraph,
    connection_type: &str,
    name: &str,
    removed: Vec<(EdgeIndex, RemovedEmbedding)>,
)
    requires
        old(graph).undo is Some ==> old(graph).undo->0.well_formed(),
    ensures
        *final(graph) == (DirGraph { undo: final(graph).undo, ..*old(graph) }),
        final(graph).undo is Some <==> old(graph).undo is Some,
        final(graph).undo is Some ==> final(graph).undo->0.well_formed(),
        undo_of(*final(graph)) == undo_with(
            undo_of(*old(graph)),
            noted_removals(connection_type@, name@, removed@),
        ),
{
    let ghost noted = noted_removals(connection_type@, name@, removed@);
    let ghost all = removed@;
    let mut i: usize = 0;
    proof {
        if old(graph).undo is Some {
            assert(undo_of(*graph)->0 + noted.take(0) =~= undo_of(*graph)->0);
        }
    }
    while i < removed.len()
        invariant
            i <= removed@.len(),
            removed@ == all,
            noted == noted_removals(connection_type@, name@, all),
            *graph == (DirGraph { undo: graph.undo, ..*old(graph) }),
            graph.undo is Some <==> old(graph).undo is Some,
            graph.undo is Some ==> graph.undo->0.well_formed(),
            undo_of(*graph) == undo_with(undo_of(*old(graph)), noted.take(i as int)),
        decreases removed@.len() - i,
    {
        let ghost before = undo_of(*graph);
        let entry = UndoEntry::EdgeEmbeddingRemoved {
            conn_type: connection_type.to_owned(),
            name: name.to_owned(),
            edge: removed[i].0,
            prior: copy_removed(&removed[i].1),
        };
        assert(entry@ =~= noted[i as int]);
        graph.note_undo(entry);
        proof {
            assert(noted.take(i + 1) =~= noted.take(i as int).push(noted[i as int]));
            if old(graph).undo is Some {
                assert(undo_of(*graph)->0 =~= undo_of(*old(graph))->0 + noted.take(i + 1));
            }
        }
        i = i + 1;
    }
    assert(noted.take(i as int) =~= noted);
}

fn copy_removed(removed: &RemovedEmbedding) -> (copy: RemovedEmbedding)
    ensures
        copy@ == removed@,
{
    let vector = removed.vector.clone();
    assert(vector@ =~= removed.vector@);
    RemovedEmbedding { slot: removed.slot, vector, text_hash: removed.text_hash }
}

/// Removes the vectors of relationships from the store of a type and a text
/// property, and says how many there were. Every relationship is checked
/// before anything changes.
pub fn remove_edge_embeddings(
    graph: &mut DirGraph,
    connection_type: &str,
    text_property: &str,
    edges: &Vec<EdgeIndex>,
) -> (result: Result<usize, String>)
    requires
        old(graph).well_formed(),
    ensures
        final(graph).well_formed(),
        match result {
            Ok(count) => {
                let store = lookup(
                    old(graph).edge_embeddings@,
                    connection_type@,
                    store_name_of(text_property@),
                );
                &&& listed_fault(
                    old(graph).topology,
                    connection_type@,
                    edges@,
                    "the batch"@,
                    0,
                ) is None
                &&& count == match store {
                    Some(s) => held_edges(s, edges@, edges@.len()).len(),
                    None => 0,
                }
                &&& count == 0 ==> *final(graph) == *old(graph)
                &&& count > 0 ==> removal_done(
                    *old(graph),
                    *final(graph),
                    connection_type@,
                    text_property@,
                    edges@,
                )
            },
            Err(message) => {
                &&& *final(graph) == *old(graph)
                &&& listed_fault(
                    old(graph).topology,
                    connection_type@,
                    edges@,
                    "the batch"@,
                    0,
                ) == Some(message@)
            },
        },
{
    match validate_listed(graph, connection_type, edges, "the batch") {
        Ok(_) => {},
        Err(message) => {
            return Err(message);
        },
    }
    proof {
        faultless_list_is_sound(graph.topology, connection_type@, edges@, "the batch"@);
        place_is_first(
            graph.edge_embeddings@,
            connection_type@,
            store_name_of(text_property@),
        );
        store_names_read_back(text_property@);
    }
    let name = store_name(text_property);
    let place: usize = match graph.edge_embeddings.position(connection_type, name.as_str()) {
        Some(place) => place,
        None => {
            return Ok(0);
        },
    };
    let ghost store = graph.edge_embeddings@[place as int].store;
    assert(graph.edge_embeddings.entries@[place as int].store@ == store);
    assert(graph.edge_embeddings.entries@[place as int].store.well_formed());
    let mut changed: Vec<EdgeIndex> = Vec::new();
    let mut i: usize = 0;
    while i < edges.len()
        invariant
            i <= edges@.len(),
            *graph == *old(graph),
            place < graph.edge_embeddings.entries@.len(),
            graph.edge_embeddings.entries@[place as int].store@ == store,
            graph.edge_embeddings.entries@[place as int].store.well_formed(),
            changed@ == held_edges(store, edges@, i as nat),
        decreases edges@.len() - i,
    {
        if graph.edge_embeddings.entries[place].store.get(edges[i]).is_some() {
            changed.push(edges[i]);
        }
        i = i + 1;
    }
    if changed.len() == 0 {
        return Ok(0);
    }
    proof {
        held_are_listed(store, edges@, edges@.len());
        assert forall|k: int| 0 <= k < changed@.len() implies graph.topology.live(
            #[trigger] changed@[k],
        ) by {
            let j = choose|j: int| 0 <= j < edges@.len() && (#[trigger] edges@[j]) == changed@[k];
            assert(graph.topology.live_of_type(edges@[j], connection_type@));
        }
    }
    proof {
        no_repeats_to_merge(changed@, changed@.len());
        assert(changed@.take(changed@.len() as int) =~= changed@);
    }
    match capture_wal_edge_embedding_bases(graph, connection_type, text_property, &changed) {
        Ok(_) => {},
        Err(_) => {
            assert(false);
        },
    }
    let fresh = EdgeEmbeddingStore::new(0, None);
    let mut writer = graph.edge_embeddings.replace_at(place, fresh);
    let prior = writer.numeric.take_index_state();
    let removed = remove_all(&mut writer, edges);
    let ghost after = writer@;
    let _ = graph.edge_embeddings.replace_at(place, writer);
    proof {
        assert(graph.edge_embeddings@ =~= with_entry(
            old(graph).edge_embeddings@,
            connection_type@,
            name@,
            after,
        ));
        a_kept_store_is_found(old(graph).edge_embeddings@, connection_type@, name@, after);
        edge_names_stay(*old(graph), *graph, connection_type@, name@, writer);
    }
    graph.note_undo(
        UndoEntry::EdgeVectorIndexReplaced {
            conn_type: connection_type.to_owned(),
            name: name.clone(),
            prior,
        },
    );
    note_removals(graph, connection_type, name.as_str(), removed);
    proof {
        if old(graph).undo is Some {
            let entries = removed_entries(
                connection_type@,
                name@,
                unindexed(store),
                edges@,
                edges@.len(),
            );
            assert(undo_of(*graph)->0 =~= undo_of(*old(graph))->0 + (seq![
                UndoModel::EdgeVectorIndexReplaced {
                    conn_type: connection_type@,
                    name: name@,
                    prior: index_state_of(store),
                },
            ] + entries));
        }
    }
    note_wal_edge_embedding_changes(graph, connection_type, text_property, false, edges);
    graph.bump_version();
    Ok(changed.len())
}

} // verus!
