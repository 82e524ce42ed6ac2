//! Writes to relationship stores: each checks everything before it changes
//! anything, and then changes the store, the undo journal, the recording and
//! the version together.
use rustc_hash::FxHashSet;
use vstd::prelude::*;
use crate::catalog::{a_kept_store_is_found, lookup, place_is_first, with_entry};
use crate::coordinate::{
    fault_of, non_finite_message, same_vector, validate_finite_vector, vector_eq,
};
use crate::edge_log::{
    all_live, bases_before, capture_wal_edge_embedding_bases, changes_recorded,
    describe_relationship, no_repeats_to_merge, note_wal_edge_embedding_changes, relationship_text,
};
use crate::edge_store::{with_manual, EdgeEmbeddingStore};
use crate::fx::{fx_contains, fx_insert, fx_len, fx_set};
use crate::graph::{bumped, recorded, recorded_with, undo_of, undo_with, DirGraph};
use crate::metric::{metric_named, DistanceMetric};
use crate::names::{column_of, store_name, store_name_of, store_names_read_back};
use crate::order::{ascending, ascending_of_items, ascends, insert_number, is_order, number_order};
use crate::recording::{UndoEntry, UndoModel};
use crate::store::{
    empty_store, hash_of, place_of, removed_of, vector_of, RemovedModel, SlotCoverage, StoreModel,
};
use crate::text::{decimal, owned_option, push_number, str_option, text_eq, Text};
use crate::topology::Topology;
use crate::value::EdgeIndex;

verus! {

/// What a write to a relationship store did.
#[derive(Clone, Copy, Debug, PartialEq, Eq, Structural)]
pub struct EdgeEmbeddingWriteReport {
    /// Vectors held after the call.
    pub stored: usize,
    /// The store's vector dimension.
    pub dimension: usize,
    /// Entries the write touched: a new vector, a changed one, or a cell whose
    /// generated text hash it cleared.
    pub changed: usize,
    /// Whether the call created the store.
    pub store_created: bool,
}

/// Nothing written.
pub open spec fn nothing_written() -> EdgeEmbeddingWriteReport {
    EdgeEmbeddingWriteReport { stored: 0, dimension: 0, changed: 0, store_created: false }
}

impl Default for EdgeEmbeddingWriteReport {
    fn default() -> (report: EdgeEmbeddingWriteReport)
        ensures
            report == nothing_written(),
    {
        EdgeEmbeddingWriteReport { stored: 0, dimension: 0, changed: 0, store_created: false }
    }
}

/// A vector for a relationship.
pub type EdgeVector = (EdgeIndex, Vec<u32>);

/// What a list of vectors for relationships holds.
pub open spec fn entry_models(entries: Seq<EdgeVector>) -> Seq<(EdgeIndex, Seq<u32>)> {
    Seq::new(entries.len(), |i: int| (entries[i].0, entries[i].1@))
}

/// The slots of the first `count` relationships of a list.
pub open spec fn slots_of(entries: Seq<(EdgeIndex, Seq<u32>)>, count: int) -> Set<usize> {
    Set::new(
        |s: usize| exists|i: int| 0 <= i < count && (#[trigger] entries[i]).0.slot == s,
    )
}

/// What is said of a metric that has no such name.
pub open spec fn unknown_metric_text(name: Text) -> Text {
    "Unknown distance metric '"@ + name + "'. Use cosine, dot_product, euclidean, or poincare."@
}

/// What is wrong with a requested metric.
pub open spec fn metric_fault(metric: Option<Text>) -> Option<Text> {
    match metric {
        Some(name) => if metric_named(name) is None {
            Some(unknown_metric_text(name))
        } else {
            None
        },
        None => None,
    }
}

/// Refuses a metric that has no such name.
pub fn validate_metric(metric: Option<&str>) -> (result: Result<(), String>)
    ensures
        match result {
            Ok(_) => metric_fault(str_option(metric)) is None,
            Err(message) => metric_fault(str_option(metric)) == Some(message@),
        },
{
    match metric {
        Some(name) => {
            if DistanceMetric::from_name(name).is_none() {
                let mut message = "Unknown distance metric '".to_owned();
                message.append(name);
                message.append("'. Use cosine, dot_product, euclidean, or poincare.");
                return Err(message);
            }
        },
        None => {},
    }
    Ok(())
}

/// What is wrong with a relationship that is to be one of a type.
pub open spec fn edge_fault(topology: Topology, edge: EdgeIndex, connection_type: Text) -> Option<
    Text,
> {
    if !topology.live(edge) {
        Some("Relationship slot "@ + decimal(edge.slot as nat) + " is not live"@)
    } else if topology.type_of(edge) != connection_type {
        Some(
            "Relationship slot "@ + decimal(edge.slot as nat) + " has type '"@ + topology.type_of(
                edge,
            ) + "', not declared type '"@ + connection_type + "'"@,
        )
    } else {
        None
    }
}

/// Refuses a relationship that does not live or is not of the type.
pub fn validate_live_edge_type(graph: &DirGraph, edge: EdgeIndex, connection_type: &str) -> (result:
    Result<(), String>)
    ensures
        match result {
            Ok(_) => edge_fault(graph.topology, edge, connection_type@) is None,
            Err(message) => edge_fault(graph.topology, edge, connection_type@) == Some(message@),
        },
{
    match graph.topology.edge_weight(edge) {
        Some(data) => {
            if text_eq(data.connection_type.as_str(), connection_type) {
                Ok(())
            } else {
                let mut message = "Relationship slot ".to_owned();
                push_number(&mut message, edge.slot);
                message.append(" has type '");
                message.append(data.connection_type.as_str());
                message.append("', not declared type '");
                message.append(connection_type);
                message.append("'");
                Err(message)
            }
        },
        None => {
            let mut message = "Relationship slot ".to_owned();
            push_number(&mut message, edge.slot);
            message.append(" is not live");
            Err(message)
        },
    }
}

/// What is said of a relationship that a batch lists twice.
pub open spec fn repeated_text(edge: EdgeIndex, place: Text) -> Text {
    "Relationship slot "@ + decimal(edge.slot as nat) + " appears more than once in "@ + place
}

pub(crate) fn repeated_message(edge: EdgeIndex, place: &str) -> (message: String)
    ensures
        message@ == repeated_text(edge, place@),
{
    let mut message = "Relationship slot ".to_owned();
    push_number(&mut message, edge.slot);
    message.append(" appears more than once in ");
    message.append(place);
    message
}

/// How an entry is named: `rows[3]`.
pub open spec fn position_text(list: Text, position: int) -> Text {
    list + "["@ + decimal(position as nat) + "]"@
}

/// What is wrong with one entry of a batch, given the ones before it.
pub open spec fn entry_fault(
    topology: Topology,
    connection_type: Text,
    entries: Seq<(EdgeIndex, Seq<u32>)>,
    dimension: usize,
    list: Text,
    position: int,
) -> Option<Text> {
    let edge = entries[position].0;
    let vector = entries[position].1;
    if slots_of(entries, position).contains(edge.slot) {
        Some(repeated_text(edge, "the batch"@))
    } else if edge_fault(topology, edge, connection_type) is Some {
        edge_fault(topology, edge, connection_type)
    } else if vector.len() != dimension {
        Some(
            "Embedding for relationship "@ + relationship_text(topology, edge) + " ("@
                + position_text(list, position) + ") has dimension "@ + decimal(vector.len())
                + ", expected "@ + decimal(dimension as nat),
        )
    } else {
        match fault_of(vector) {
            Some(error) => Some(
                "Invalid embedding for relationship "@ + relationship_text(topology, edge) + " ("@
                    + position_text(list, position) + "): "@ + non_finite_message(error),
            ),
            None => None,
        }
    }
}

/// What is wrong with the first faulty entry from `position` on.
pub open spec fn entries_fault(
    topology: Topology,
    connection_type: Text,
    entries: Seq<(EdgeIndex, Seq<u32>)>,
    dimension: usize,
    list: Text,
    position: int,
) -> Option<Text>
    decreases entries.len() - position,
{
    if position < 0 || position >= entries.len() {
        None
    } else {
        match entry_fault(topology, connection_type, entries, dimension, list, position) {
            Some(fault) => Some(fault),
            None => entries_fault(
                topology,
                connection_type,
                entries,
                dimension,
                list,
                position + 1,
            ),
        }
    }
}

/// A batch of vectors that can be written: live relationships of the type,
/// each once, with finite vectors of the dimension.
pub open spec fn entries_sound(
    topology: Topology,
    connection_type: Text,
    entries: Seq<(EdgeIndex, Seq<u32>)>,
    dimension: usize,
) -> bool {
    &&& forall|i: int|
        0 <= i < entries.len() ==> topology.live_of_type((#[trigger] entries[i]).0, connection_type)
            && entries[i].1.len() == dimension && fault_of(entries[i].1) is None
    &&& forall|i: int, j: int|
        0 <= i < j < entries.len() ==> (#[trigger] entries[i]).0 != (#[trigger] entries[j]).0
}

/// A batch without a fault can be written.
pub proof fn faultless_entries_are_sound(
    topology: Topology,
    connection_type: Text,
    entries: Seq<(EdgeIndex, Seq<u32>)>,
    dimension: usize,
    list: Text,
)
    requires
        entries_fault(topology, connection_type, entries, dimension, list, 0) is None,
    ensures
        entries_sound(topology, connection_type, entries, dimension),
{
    assert forall|i: int| 0 <= i < entries.len() implies #[trigger] entry_fault(
        topology,
        connection_type,
        entries,
        dimension,
        list,
        i,
    ) is None by {
        no_fault_at(topology, connection_type, entries, dimension, list, 0, i);
    }
    assert forall|i: int| 0 <= i < entries.len() implies topology.live_of_type(
        (#[trigger] entries[i]).0,
        connection_type,
    ) && entries[i].1.len() == dimension && fault_of(entries[i].1) is None by {
        assert(entry_fault(topology, connection_type, entries, dimension, list, i) is None);
    }
    assert forall|i: int, j: int| 0 <= i < j < entries.len() implies (#[trigger] entries[i]).0 != (
    #[trigger] entries[j]).0 by {
        assert(entry_fault(topology, connection_type, entries, dimension, list, j) is None);
        assert(entries[i].0.slot != entries[j].0.slot);
    }
}

proof fn no_fault_at(
    topology: Topology,
    connection_type: Text,
    entries: Seq<(EdgeIndex, Seq<u32>)>,
    dimension: usize,
    list: Text,
    from: int,
    at: int,
)
    requires
        0 <= from <= at < entries.len(),
        entries_fault(topology, connection_type, entries, dimension, list, from) is None,
    ensures
        entry_fault(topology, connection_type, entries, dimension, list, at) is None,
    decreases at - from,
{
    if from < at {
        no_fault_at(topology, connection_type, entries, dimension, list, from + 1, at);
    }
}

fn push_entry(message: &mut String, graph: &DirGraph, edge: EdgeIndex, list: &str, position: usize)
    ensures
        final(message)@ == old(message)@ + relationship_text(graph.topology, edge) + " ("@
            + position_text(list@, position as int),
{
    message.append(describe_relationship(graph, edge).as_str());
    message.append(" (");
    let ghost before = message@;
    message.append(list);
    message.append("[");
    push_number(message, position);
    message.append("]");
    assert(message@ =~= before + position_text(list@, position as int));
}

/// Refuses a batch with an entry that does not live, is not of the type, is
/// listed twice, or has a vector of another dimension or a coordinate that is
/// not finite.
pub fn validate_manual_entries(
    graph: &DirGraph,
    connection_type: &str,
    entries: &Vec<EdgeVector>,
    dimension: usize,
    list: &str,
) -> (result: Result<(), String>)
    ensures
        match result {
            Ok(_) => entries_fault(
                graph.topology,
                connection_type@,
                entry_models(entries@),
                dimension,
                list@,
                0,
            ) is None,
            Err(message) => entries_fault(
                graph.topology,
                connection_type@,
                entry_models(entries@),
                dimension,
                list@,
                0,
            ) == Some(message@),
        },
{
    let ghost models = entry_models(entries@);
    let mut seen = fx_set();
    let mut position: usize = 0;
    assert(seen@ =~= slots_of(models, 0));
    while position < entries.len()
        invariant
            position <= entries@.len(),
            models == entry_models(entries@),
            seen@ == slots_of(models, position as int),
            entries_fault(graph.topology, connection_type@, models, dimension, list@, 0)
                == entries_fault(
                graph.topology,
                connection_type@,
                models,
                dimension,
                list@,
                position as int,
            ),
        decreases entries@.len() - position,
    {
        let edge = entries[position].0;
        let vector = &entries[position].1;
        assert(models[position as int] == (edge, vector@));
        if !fx_insert(&mut seen, edge.slot) {
            return Err(repeated_message(edge, "the batch"));
        }
        match validate_live_edge_type(graph, edge, connection_type) {
            Ok(_) => {},
            Err(message) => {
                return Err(message);
            },
        }
        if vector.len() != dimension {
            let mut message = "Embedding for relationship ".to_owned();
            push_entry(&mut message, graph, edge, list, position);
            message.append(") has dimension ");
            push_number(&mut message, vector.len());
            message.append(", expected ");
            push_number(&mut message, dimension);
            return Err(message);
        }
        match validate_finite_vector(vector.as_slice()) {
            Ok(_) => {},
            Err(error) => {
                let mut message = "Invalid embedding for relationship ".to_owned();
                push_entry(&mut message, graph, edge, list, position);
                message.append("): ");
                message.append(error.message().as_str());
                return Err(message);
            },
        }
        assert(slots_of(models, position + 1) =~= slots_of(models, position as int).insert(
            edge.slot,
        )) by {
            assert forall|s: usize|
                slots_of(models, position + 1).contains(s) <==> slots_of(
                    models,
                    position as int,
                ).insert(edge.slot).contains(s) by {
                if s == edge.slot {
                    assert(models[position as int].0.slot == s);
                }
            }
        }
        position = position + 1;
    }
    Ok(())
}

/// A manual write changes the cell: there is no equal vector, or the cell still
/// has the hash of a text.
pub open spec fn cell_changes(existing: Option<StoreModel>, edge: EdgeIndex, vector: Seq<u32>) -> bool {
    match existing {
        Some(store) => match vector_of(store, edge.slot) {
            Some(held) => !same_vector(held, vector) || hash_of(store, edge.slot) is Some,
            None => true,
        },
        None => true,
    }
}

/// The slots of the first `count` entries whose cells a manual write changes.
pub open spec fn changed_slots(
    existing: Option<StoreModel>,
    entries: Seq<(EdgeIndex, Seq<u32>)>,
    count: int,
) -> Set<usize> {
    Set::new(
        |s: usize|
            exists|i: int|
                0 <= i < count && (#[trigger] entries[i]).0.slot == s && cell_changes(
                    existing,
                    entries[i].0,
                    entries[i].1,
                ),
    )
}

/// The relationships of the first `count` entries that are in a set.
pub open spec fn edges_within(
    entries: Seq<(EdgeIndex, Seq<u32>)>,
    slots: Set<usize>,
    count: nat,
) -> Seq<EdgeIndex>
    decreases count,
{
    if count == 0 {
        Seq::empty()
    } else {
        let before = edges_within(entries, slots, (count - 1) as nat);
        if slots.contains(entries[count - 1].0.slot) {
            before.push(entries[count - 1].0)
        } else {
            before
        }
    }
}

/// The store after the first `count` entries that are in a set were written by
/// hand.
pub open spec fn manual_writes(
    store: StoreModel,
    entries: Seq<(EdgeIndex, Seq<u32>)>,
    slots: Set<usize>,
    count: nat,
) -> StoreModel
    decreases count,
{
    if count == 0 {
        store
    } else {
        let before = manual_writes(store, entries, slots, (count - 1) as nat);
        if slots.contains(entries[count - 1].0.slot) {
            with_manual(before, entries[count - 1].0, entries[count - 1].1)
        } else {
            before
        }
    }
}

/// The dimension a batch is held to: the store's, else the first vector's.
pub open spec fn upsert_dimension(
    existing: Option<StoreModel>,
    entries: Seq<(EdgeIndex, Seq<u32>)>,
) -> usize {
    match existing {
        Some(store) => store.dimension,
        None => entries[0].1.len() as usize,
    }
}

/// The batch declares the store's metric: the store has none, and it asks for
/// one.
pub open spec fn stamps_metric(existing: Option<StoreModel>, metric: Option<Text>) -> bool {
    existing is Some && existing->0.metric is None && metric is Some
}

/// What is wrong with a batch.
pub open spec fn upsert_fault(
    topology: Topology,
    connection_type: Text,
    existing: Option<StoreModel>,
    entries: Seq<(EdgeIndex, Seq<u32>)>,
    metric: Option<Text>,
    list: Text,
) -> Option<Text> {
    if metric_fault(metric) is Some {
        metric_fault(metric)
    } else if upsert_dimension(existing, entries) == 0 {
        Some("Embedding vectors must not be empty"@)
    } else if existing is Some && existing->0.metric is Some && metric is Some && metric->0
        != existing->0.metric->0 {
        Some(
            "Store metric is '"@ + existing->0.metric->0 + "', but this batch requested '"@
                + metric->0 + "'"@,
        )
    } else {
        entries_fault(
            topology,
            connection_type,
            entries,
            upsert_dimension(existing, entries),
            list,
            0,
        )
    }
}

/// The store after a batch: its changed cells are written by hand, and no model
/// made it. A new store takes the batch's metric; an old one only where it
/// declares none.
pub open spec fn upserted(
    existing: Option<StoreModel>,
    entries: Seq<(EdgeIndex, Seq<u32>)>,
    metric: Option<Text>,
) -> StoreModel {
    let base = match existing {
        Some(store) => store,
        None => empty_store(upsert_dimension(existing, entries), metric),
    };
    let written = manual_writes(
        base,
        entries,
        changed_slots(existing, entries, entries.len() as int),
        entries.len(),
    );
    StoreModel {
        model_id: None,
        metric: if stamps_metric(existing, metric) {
            metric
        } else {
            written.metric
        },
        ..written
    }
}

/// A cell as an undo entry keeps it.
pub open spec fn cell_kept(store: StoreModel, slot: usize) -> Option<(RemovedModel, SlotCoverage)> {
    match removed_of(store, slot) {
        Some(removed) => Some(
            (
                removed,
                SlotCoverage {
                    stale: store.freshness.changed.contains(place_of(store, slot) as usize),
                },
            ),
        ),
        None => None,
    }
}

/// The undo entries of cells, one for each slot.
pub open spec fn cell_entries(
    connection_type: Text,
    name: Text,
    store: StoreModel,
    slots: Seq<usize>,
) -> Seq<UndoModel> {
    Seq::new(
        slots.len(),
        |i: int|
            UndoModel::EdgeEmbeddingCellReplaced {
                conn_type: connection_type,
                name,
                edge: EdgeIndex { slot: slots[i] },
                prior: cell_kept(store, slots[i]),
            },
    )
}

/// The undo entry of a store's model, where it has one.
pub open spec fn model_entry(connection_type: Text, name: Text, store: StoreModel) -> Seq<UndoModel> {
    if store.model_id is Some {
        seq![
            UndoModel::EdgeEmbeddingModelIdReplaced {
                conn_type: connection_type,
                name,
                prior: store.model_id,
            },
        ]
    } else {
        Seq::empty()
    }
}

/// What a batch can be undone by: the whole store where it is created or its
/// metric is declared, else the model and each changed cell, by slot.
pub open spec fn upsert_undo(
    connection_type: Text,
    name: Text,
    existing: Option<StoreModel>,
    entries: Seq<(EdgeIndex, Seq<u32>)>,
    metric: Option<Text>,
) -> Seq<UndoModel> {
    if existing is None || stamps_metric(existing, metric) {
        seq![
            UndoModel::EdgeEmbeddingStoreReplaced {
                conn_type: connection_type,
                name,
                prior: existing,
            },
        ]
    } else {
        model_entry(connection_type, name, existing->0) + cell_entries(
            connection_type,
            name,
            existing->0,
            ascending(
                changed_slots(existing, entries, entries.len() as int),
                number_order(),
            ),
        )
    }
}

/// Only a relationship store, the undo journal, the recording and the version
/// differ.
pub open spec fn wrote_stores(before: DirGraph, after: DirGraph) -> bool {
    &&& after == (DirGraph {
        edge_embeddings: after.edge_embeddings,
        undo: after.undo,
        recording: after.recording,
        version: bumped(before.version),
        ..before
    })
    &&& after.undo is Some <==> before.undo is Some
    &&& after.recording is Some <==> before.recording is Some
}

/// What a batch does to the graph, and what is reported of it.
pub open spec fn upsert_done(
    before: DirGraph,
    after: DirGraph,
    connection_type: Text,
    text_property: Text,
    entries: Seq<(EdgeIndex, Seq<u32>)>,
    metric: Option<Text>,
    report: EdgeEmbeddingWriteReport,
) -> bool {
    let name = store_name_of(text_property);
    let existing = lookup(before.edge_embeddings@, connection_type, name);
    let changed = changed_slots(existing, entries, entries.len() as int);
    let dimension = upsert_dimension(existing, entries);
    if changed.is_empty() && !stamps_metric(existing, metric) {
        &&& after == before
        &&& report == (EdgeEmbeddingWriteReport {
            stored: match existing {
                Some(store) => store.nodes.len() as usize,
                None => 0,
            },
            dimension,
            changed: 0,
            store_created: false,
        })
    } else {
        let store = upserted(existing, entries, metric);
        &&& wrote_stores(before, after)
        &&& after.edge_embeddings@ == with_entry(
            before.edge_embeddings@,
            connection_type,
            name,
            store,
        )
        &&& undo_of(after) == undo_with(
            undo_of(before),
            upsert_undo(connection_type, name, existing, entries, metric),
        )
        &&& recorded(after) == changes_recorded(
            recorded_with(
                recorded(before),
                bases_before(
                    before.topology,
                    before.edge_embeddings@,
                    connection_type,
                    text_property,
                    edges_within(entries, changed, entries.len()),
                ),
            ),
            before.topology,
            connection_type,
            text_property,
            true,
            Seq::new(entries.len(), |i: int| entries[i].0),
        )
        &&& report == (EdgeEmbeddingWriteReport {
            stored: store.nodes.len() as usize,
            dimension,
            changed: changed.len() as usize,
            store_created: existing is None,
        })
    }
}

/// The relationships in a set are among the entries, and each is listed once.
proof fn edges_within_are_entries(
    topology: Topology,
    connection_type: Text,
    entries: Seq<(EdgeIndex, Seq<u32>)>,
    dimension: usize,
    slots: Set<usize>,
    count: nat,
)
    requires
        entries_sound(topology, connection_type, entries, dimension),
        count <= entries.len(),
    ensures
        forall|k: int|
            0 <= k < edges_within(entries, slots, count).len() ==> exists|i: int|
                0 <= i < count && (#[trigger] entries[i]).0 == (#[trigger] edges_within(
                    entries,
                    slots,
                    count,
                )[k]),
        all_live(topology, edges_within(entries, slots, count)),
        edges_within(entries, slots, count).no_duplicates(),
    decreases count,
{
    if count > 0 {
        let at = count - 1;
        let before = edges_within(entries, slots, at as nat);
        let after = edges_within(entries, slots, count);
        edges_within_are_entries(topology, connection_type, entries, dimension, slots, at as nat);
        assert forall|k: int| 0 <= k < after.len() implies exists|i: int|
            0 <= i < count && (#[trigger] entries[i]).0 == (#[trigger] after[k]) by {
            if k < before.len() {
                let i = choose|i: int| 0 <= i < at && (#[trigger] entries[i]).0 == before[k];
                assert(entries[i].0 == after[k]);
            } else {
                assert(entries[at].0 == after[k]);
            }
        }
        assert forall|k: int| 0 <= k < after.len() implies topology.live(#[trigger] after[k]) by {
            let i = choose|i: int| 0 <= i < count && (#[trigger] entries[i]).0 == after[k];
            assert(topology.live_of_type(entries[i].0, connection_type));
        }
        assert forall|a: int, b: int|
            0 <= a < after.len() && 0 <= b < after.len() && a != b implies after[a] != after[b] by {
            if a == before.len() {
                let i = choose|i: int| 0 <= i < at && (#[trigger] entries[i]).0 == before[b];
                assert(entries[i].0 != entries[at].0);
            } else if b == before.len() {
                let i = choose|i: int| 0 <= i < at && (#[trigger] entries[i]).0 == before[a];
                assert(entries[i].0 != entries[at].0);
            }
        }
    }
}

/// Manual writes keep the dimension.
proof fn manual_writes_keep(
    store: StoreModel,
    entries: Seq<(EdgeIndex, Seq<u32>)>,
    slots: Set<usize>,
    count: nat,
)
    ensures
        manual_writes(store, entries, slots, count).dimension == store.dimension,
        manual_writes(store, entries, slots, count).metric == store.metric,
        manual_writes(store, entries, slots, count).model_id == store.model_id,
    decreases count,
{
    if count > 0 {
        manual_writes_keep(store, entries, slots, (count - 1) as nat);
    }
}

/// Whether a manual write changes a cell.
fn changes_cell(existing: Option<&EdgeEmbeddingStore>, edge: EdgeIndex, vector: &Vec<u32>) -> (changes:
    bool)
    requires
        existing is Some ==> existing->0.well_formed(),
    ensures
        changes == cell_changes(
            match existing {
                Some(store) => Some(store@),
                None => None,
            },
            edge,
            vector@,
        ),
{
    match existing {
        Some(store) => match store.get(edge) {
            Some(held) => !vector_eq(held, vector.as_slice()) || store.text_hash(edge).is_some(),
            None => true,
        },
        None => true,
    }
}

/// What the store of an optional reference holds.
pub open spec fn store_option(store: Option<&EdgeEmbeddingStore>) -> Option<StoreModel> {
    match store {
        Some(s) => Some(s@),
        None => None,
    }
}

/// The slots of the entries whose cells a manual write changes.
fn collect_changed(existing: Option<&EdgeEmbeddingStore>, entries: &Vec<EdgeVector>) -> (changed:
    FxHashSet<usize>)
    requires
        existing is Some ==> existing->0.well_formed(),
    ensures
        changed@ == changed_slots(
            store_option(existing),
            entry_models(entries@),
            entries@.len() as int,
        ),
{
    let ghost models = entry_models(entries@);
    let ghost held = store_option(existing);
    let mut changed = fx_set();
    let mut i: usize = 0;
    assert(changed@ =~= changed_slots(held, models, 0));
    while i < entries.len()
        invariant
            i <= entries@.len(),
            existing is Some ==> existing->0.well_formed(),
            models == entry_models(entries@),
            held == store_option(existing),
            changed@ == changed_slots(held, models, i as int),
        decreases entries@.len() - i,
    {
        let edge = entries[i].0;
        let ghost before = changed_slots(held, models, i as int);
        let ghost after = changed_slots(held, models, i + 1);
        assert(models[i as int] == (edge, entries@[i as int].1@));
        if changes_cell(existing, edge, &entries[i].1) {
            fx_insert(&mut changed, edge.slot);
            assert(after =~= before.insert(edge.slot)) by {
                assert forall|s: usize|
                    after.contains(s) <==> before.insert(edge.slot).contains(s) by {
                    if s == edge.slot {
                        assert(models[i as int].0.slot == s);
                    }
                }
            }
        } else {
            assert(after =~= before);
        }
        i = i + 1;
    }
    changed
}

/// The relationships of the entries whose slots are in a set.
fn collect_edges(entries: &Vec<EdgeVector>, slots: &FxHashSet<usize>) -> (edges: Vec<EdgeIndex>)
    ensures
        edges@ == edges_within(entry_models(entries@), slots@, entries@.len()),
{
    let ghost models = entry_models(entries@);
    let mut edges: Vec<EdgeIndex> = Vec::new();
    let mut i: usize = 0;
    while i < entries.len()
        invariant
            i <= entries@.len(),
            models == entry_models(entries@),
            edges@ == edges_within(models, slots@, i as nat),
        decreases entries@.len() - i,
    {
        assert(models[i as int].0 == entries@[i as int].0);
        if fx_contains(slots, entries[i].0.slot) {
            edges.push(entries[i].0);
        }
        i = i + 1;
    }
    edges
}

/// The relationships of the entries.
fn all_edges(entries: &Vec<EdgeVector>) -> (edges: Vec<EdgeIndex>)
    ensures
        edges@ == Seq::new(
            entry_models(entries@).len(),
            |i: int| entry_models(entries@)[i].0,
        ),
{
    let mut edges: Vec<EdgeIndex> = Vec::new();
    let mut i: usize = 0;
    while i < entries.len()
        invariant
            i <= entries@.len(),
            edges@.len() == i,
            forall|k: int| 0 <= k < i ==> edges@[k] == (#[trigger] entries@[k]).0,
        decreases entries@.len() - i,
    {
        edges.push(entries[i].0);
        i = i + 1;
    }
    assert(edges@ =~= Seq::new(
        entry_models(entries@).len(),
        |k: int| entry_models(entries@)[k].0,
    ));
    edges
}

/// The slots of a set in ascending order, found among the entries.
fn sorted_slots(entries: &Vec<EdgeVector>, set: &FxHashSet<usize>) -> (slots: Vec<usize>)
    requires
        set@.subset_of(slots_of(entry_models(entries@), entries@.len() as int)),
    ensures
        slots@ == ascending(set@, number_order()),
        slots@.to_set() == set@,
{
    let ghost models = entry_models(entries@);
    let mut slots: Vec<usize> = Vec::new();
    let mut i: usize = 0;
    assert(slots@.to_set() =~= slots_of(models, 0).intersect(set@));
    while i < entries.len()
        invariant
            i <= entries@.len(),
            models == entry_models(entries@),
            ascends(slots@, number_order()),
            slots@.to_set() == slots_of(models, i as int).intersect(set@),
        decreases entries@.len() - i,
    {
        let slot: usize = entries[i].0.slot;
        let ghost before = slots_of(models, i as int).intersect(set@);
        let ghost after = slots_of(models, i + 1).intersect(set@);
        assert(models[i as int].0.slot == slot);
        if fx_contains(set, slot) {
            insert_number(&mut slots, slot);
            assert(after =~= before.insert(slot));
        } else {
            assert(after =~= before);
        }
        i = i + 1;
    }
    proof {
        assert(slots_of(models, i as int).intersect(set@) =~= set@);
        assert(is_order(number_order()));
        ascending_of_items(slots@, number_order());
    }
    slots
}

/// Adds the undo entries of a manual write: the store's absence where it is to
/// be created, else its model and each changed cell, by slot.
fn journal_manual_upsert(
    graph: &mut DirGraph,
    connection_type: &str,
    name: &str,
    entries: &Vec<EdgeVector>,
    changed: &FxHashSet<usize>,
)
    requires
        old(graph).well_formed(),
        column_of(name@) is Some,
        changed@.subset_of(slots_of(entry_models(entries@), entries@.len() as int)),
    ensures
        final(graph).well_formed(),
        *final(graph) == (DirGraph { undo: final(graph).undo, ..*old(graph) }),
        final(graph).undo is Some <==> old(graph).undo is Some,
        undo_of(*final(graph)) == undo_with(
            undo_of(*old(graph)),
            match lookup(old(graph).edge_embeddings@, connection_type@, name@) {
                Some(store) => model_entry(connection_type@, name@, store) + cell_entries(
                    connection_type@,
                    name@,
                    store,
                    ascending(changed@, number_order()),
                ),
                None => seq![
                    UndoModel::EdgeEmbeddingStoreReplaced {
                        conn_type: connection_type@,
                        name: name@,
                        prior: None,
                    },
                ],
            },
        ),
{
    if !graph.is_journalling() {
        return ;
    }
    let place: usize = match graph.edge_embeddings.position(connection_type, name) {
        Some(place) => place,
        None => {
            graph.note_undo(
                UndoEntry::EdgeEmbeddingStoreReplaced {
                    conn_type: connection_type.to_owned(),
                    name: name.to_owned(),
                    prior: None,
                },
            );
            return ;
        },
    };
    let ghost store = graph.edge_embeddings@[place as int].store;
    let ghost base = undo_of(*graph)->0;
    assert(graph.edge_embeddings.entries@[place as int].store@ == store);
    let model: Option<String> = graph.edge_embeddings.entries[place].store.numeric.model_id.clone();
    if model.is_some() {
        graph.note_undo(
            UndoEntry::EdgeEmbeddingModelIdReplaced {
                conn_type: connection_type.to_owned(),
                name: name.to_owned(),
                prior: model,
            },
        );
    }
    let ghost models = model_entry(connection_type@, name@, store);
    assert(undo_of(*graph)->0 =~= base + models);
    let slots = sorted_slots(entries, changed);
    let ghost cells = cell_entries(connection_type@, name@, store, slots@);
    let mut i: usize = 0;
    assert(base + models + cells.take(0) =~= base + models);
    while i < slots.len()
        invariant
            i <= slots@.len(),
            graph.well_formed(),
            *graph == (DirGraph { undo: graph.undo, ..*old(graph) }),
            graph.undo is Some,
            place < graph.edge_embeddings.entries@.len(),
            graph.edge_embeddings.entries@[place as int].store@ == store,
            cells == cell_entries(connection_type@, name@, store, slots@),
            undo_of(*graph) == Some(base + models + cells.take(i as int)),
        decreases slots@.len() - i,
    {
        let edge = EdgeIndex { slot: slots[i] };
        assert(graph.edge_embeddings.entries@[place as int].store.well_formed());
        let prior = graph.edge_embeddings.entries[place].store.manual_cell_prior(edge);
        let entry = UndoEntry::EdgeEmbeddingCellReplaced {
            conn_type: connection_type.to_owned(),
            name: name.to_owned(),
            edge,
            prior,
        };
        assert(entry@ == cells[i as int]);
        graph.note_undo(entry);
        assert(cells.take(i + 1) =~= cells.take(i as int).push(cells[i as int]));
        assert(undo_of(*graph)->0 =~= base + models + cells.take(i + 1));
        i = i + 1;
    }
    assert(cells.take(i as int) =~= cells);
    assert(undo_of(*graph)->0 =~= base + (models + cells));
}

/// Writes the entries whose slots are in a set by hand.
fn write_manually(store: &mut EdgeEmbeddingStore, entries: &Vec<EdgeVector>, slots: &FxHashSet<usize>)
    requires
        old(store).well_formed(),
        forall|i: int|
            0 <= i < entries@.len() ==> (#[trigger] entries@[i]).1@.len() == old(store)@.dimension,
    ensures
        final(store).well_formed(),
        final(store)@ == manual_writes(
            old(store)@,
            entry_models(entries@),
            slots@,
            entries@.len(),
        ),
{
    let ghost models = entry_models(entries@);
    let mut i: usize = 0;
    while i < entries.len()
        invariant
            i <= entries@.len(),
            models == entry_models(entries@),
            forall|k: int|
                0 <= k < entries@.len() ==> (#[trigger] entries@[k]).1@.len() == old(
                    store,
                )@.dimension,
            store.well_formed(),
            store@ == manual_writes(old(store)@, models, slots@, i as nat),
        decreases entries@.len() - i,
    {
        proof {
            manual_writes_keep(old(store)@, models, slots@, i as nat);
        }
        assert(models[i as int] == (entries@[i as int].0, entries@[i as int].1@));
        if fx_contains(slots, entries[i].0.slot) {
            store.set_manual(entries[i].0, entries[i].1.as_slice());
        }
        i = i + 1;
    }
}

/// Writes vectors into the store of a type and a text property, creating it if
/// there is none. Everything is checked first: a refused batch changes nothing.
pub fn upsert_edge_embeddings_listed(
    graph: &mut DirGraph,
    connection_type: &str,
    text_property: &str,
    entries: &Vec<EdgeVector>,
    metric: Option<&str>,
    list: &str,
) -> (result: Result<EdgeEmbeddingWriteReport, String>)
    requires
        old(graph).well_formed(),
    ensures
        final(graph).well_formed(),
        match result {
            Ok(report) => if entries@.len() == 0 {
                *final(graph) == *old(graph) && report == nothing_written()
            } else {
                &&& upsert_fault(
                    old(graph).topology,
                    connection_type@,
                    lookup(
                        old(graph).edge_embeddings@,
                        connection_type@,
                        store_name_of(text_property@),
                    ),
                    entry_models(entries@),
                    str_option(metric),
                    list@,
                ) is None
                &&& upsert_done(
                    *old(graph),
                    *final(graph),
                    connection_type@,
                    text_property@,
                    entry_models(entries@),
                    str_option(metric),
                    report,
                )
            },
            Err(message) => {
                &&& entries@.len() > 0
                &&& *final(graph) == *old(graph)
                &&& upsert_fault(
                    old(graph).topology,
                    connection_type@,
                    lookup(
                        old(graph).edge_embeddings@,
                        connection_type@,
                        store_name_of(text_property@),
                    ),
                    entry_models(entries@),
                    str_option(metric),
                    list@,
                ) == Some(message@)
            },
        },
{
    if entries.len() == 0 {
        return Ok(EdgeEmbeddingWriteReport::default());
    }
    match validate_metric(metric) {
        Ok(_) => {},
        Err(message) => {
            return Err(message);
        },
    }
    let name = store_name(text_property);
    let place = graph.edge_embeddings.position(connection_type, name.as_str());
    let ghost models = entry_models(entries@);
    let ghost existing = lookup(graph.edge_embeddings@, connection_type@, name@);
    proof {
        place_is_first(graph.edge_embeddings@, connection_type@, name@);
        store_names_read_back(text_property@);
    }
    let store: Option<&EdgeEmbeddingStore> = match place {
        Some(p) => Some(&graph.edge_embeddings.entries[p].store),
        None => None,
    };
    assert(store_option(store) == existing);
    let dimension: usize = match store {
        Some(s) => s.dimension(),
        None => entries[0].1.len(),
    };
    assert(models[0].1 == entries@[0].1@);
    assert(dimension == upsert_dimension(existing, models));
    if dimension == 0 {
        return Err("Embedding vectors must not be empty".to_owned());
    }
    let declared: Option<&str> = match store {
        Some(s) => s.metric(),
        None => None,
    };
    match (declared, metric) {
        (Some(stored), Some(requested)) => {
            if !text_eq(requested, stored) {
                let mut message = "Store metric is '".to_owned();
                message.append(stored);
                message.append("', but this batch requested '");
                message.append(requested);
                message.append("'");
                return Err(message);
            }
        },
        _ => {},
    }
    match validate_manual_entries(graph, connection_type, entries, dimension, list) {
        Ok(_) => {},
        Err(message) => {
            return Err(message);
        },
    }
    proof {
        faultless_entries_are_sound(
            graph.topology,
            connection_type@,
            models,
            dimension,
            list@,
        );
    }
    let changed = collect_changed(store, entries);
    let stamps = match store {
        Some(s) => s.metric().is_none() && metric.is_some(),
        None => false,
    };
    let count: usize = fx_len(&changed);
    let held: usize = match store {
        Some(s) => s.len(),
        None => 0,
    };
    proof {
        assert(changed@.finite()) by {
            finite_slots(models, entries@.len() as int);
            assert(changed@.subset_of(slots_of(models, entries@.len() as int)));
        }
        if count == 0 {
            changed@.lemma_len0_is_empty();
        }
    }
    if count == 0 && !stamps {
        return Ok(
            EdgeEmbeddingWriteReport { stored: held, dimension, changed: 0, store_created: false },
        );
    }
    let edges = collect_edges(entries, &changed);
    proof {
        edges_within_are_entries(
            graph.topology,
            connection_type@,
            models,
            dimension,
            changed@,
            models.len(),
        );
    }
    proof {
        no_repeats_to_merge(edges@, edges@.len());
        assert(edges@.take(edges@.len() as int) =~= edges@);
    }
    match capture_wal_edge_embedding_bases(graph, connection_type, text_property, &edges) {
        Ok(_) => {},
        Err(message) => {
            assert(false);
            return Err(message);
        },
    }
    let ghost captured = *graph;
    if stamps {
        let prior = match place {
            Some(p) => {
                assert(graph.edge_embeddings.entries@[p as int].store.well_formed());
                Some(graph.edge_embeddings.entries[p].store.duplicate())
            },
            None => None,
        };
        graph.note_undo(
            UndoEntry::EdgeEmbeddingStoreReplaced {
                conn_type: connection_type.to_owned(),
                name: name.clone(),
                prior,
            },
        );
    } else {
        journal_manual_upsert(graph, connection_type, name.as_str(), entries, &changed);
    }
    let ghost journaled = *graph;
    let fresh = EdgeEmbeddingStore::new(dimension, metric);
    let mut writer = match place {
        Some(p) => {
            assert(graph.edge_embeddings.entries@[p as int].store.well_formed());
            graph.edge_embeddings.replace_at(p, fresh)
        },
        None => fresh,
    };
    assert forall|i: int| 0 <= i < entries@.len() implies (#[trigger] entries@[i]).1@.len()
        == writer@.dimension by {
        assert(models[i].1.len() == dimension);
    }
    let ghost base = writer@;
    write_manually(&mut writer, entries, &changed);
    proof {
        manual_writes_keep(base, models, changed@, models.len());
    }
    writer.numeric.model_id = None;
    if stamps {
        writer.numeric.metric = owned_option(metric);
    }
    assert(writer@ =~= upserted(existing, models, str_option(metric)));
    let stored: usize = writer.len();
    match place {
        Some(p) => {
            let _ = graph.edge_embeddings.replace_at(p, writer);
            assert(graph.edge_embeddings@ =~= with_entry(
                old(graph).edge_embeddings@,
                connection_type@,
                name@,
                writer@,
            ));
        },
        None => {
            let _ = graph.edge_embeddings.insert(connection_type, name.as_str(), writer);
        },
    }
    proof {
        a_kept_store_is_found(
            old(graph).edge_embeddings@,
            connection_type@,
            name@,
            writer@,
        );
        assert(graph.edge_embeddings@ == with_entry(
            old(graph).edge_embeddings@,
            connection_type@,
            name@,
            writer@,
        ));
        edge_names_stay(
            *old(graph),
            *graph,
            connection_type@,
            name@,
            writer,
        );
    }
    let touched = all_edges(entries);
    note_wal_edge_embedding_changes(graph, connection_type, text_property, true, &touched);
    graph.bump_version();
    Ok(
        EdgeEmbeddingWriteReport {
            stored,
            dimension,
            changed: count,
            store_created: place.is_none(),
        },
    )
}

/// [`upsert_edge_embeddings_listed`] of a list that is called `entries`.
pub fn upsert_edge_embeddings(
    graph: &mut DirGraph,
    connection_type: &str,
    text_property: &str,
    entries: &Vec<EdgeVector>,
    metric: Option<&str>,
) -> (result: Result<EdgeEmbeddingWriteReport, String>)
    requires
        old(graph).well_formed(),
    ensures
        final(graph).well_formed(),
        match result {
            Ok(report) => if entries@.len() == 0 {
                *final(graph) == *old(graph) && report == nothing_written()
            } else {
                &&& upsert_fault(
                    old(graph).topology,
                    connection_type@,
                    lookup(
                        old(graph).edge_embeddings@,
                        connection_type@,
                        store_name_of(text_property@),
                    ),
                    entry_models(entries@),
                    str_option(metric),
                    "entries"@,
                ) is None
                &&& upsert_done(
                    *old(graph),
                    *final(graph),
                    connection_type@,
                    text_property@,
                    entry_models(entries@),
                    str_option(metric),
                    report,
                )
            },
            Err(message) => {
                &&& entries@.len() > 0
                &&& *final(graph) == *old(graph)
                &&& upsert_fault(
                    old(graph).topology,
                    connection_type@,
                    lookup(
                        old(graph).edge_embeddings@,
                        connection_type@,
                        store_name_of(text_property@),
                    ),
                    entry_models(entries@),
                    str_option(metric),
                    "entries"@,
                ) == Some(message@)
            },
        },
{
    upsert_edge_embeddings_listed(
        graph,
        connection_type,
        text_property,
        entries,
        metric,
        "entries",
    )
}

/// Slots of a list are finitely many.
proof fn finite_slots(entries: Seq<(EdgeIndex, Seq<u32>)>, count: int)
    requires
        0 <= count <= entries.len(),
    ensures
        slots_of(entries, count).finite(),
    decreases count,
{
    if count == 0 {
        assert(slots_of(entries, 0) =~= Set::<usize>::empty());
    } else {
        finite_slots(entries, count - 1);
        assert(slots_of(entries, count) =~= slots_of(entries, count - 1).insert(
            entries[count - 1].0.slot,
        )) by {
            assert forall|s: usize|
                slots_of(entries, count).contains(s) <==> slots_of(entries, count - 1).insert(
                    entries[count - 1].0.slot,
                ).contains(s) by {
                if s == entries[count - 1].0.slot {
                    assert(entries[count - 1].0.slot == s);
                }
            }
        }
    }
}

/// Keeping one well-formed store under a store name keeps all of them so.
pub(crate) proof fn edge_names_stay(
    before: DirGraph,
    after: DirGraph,
    connection_type: Text,
    name: Text,
    store: EdgeEmbeddingStore,
)
    requires
        before.edge_stores_well_formed(),
        store.well_formed(),
        column_of(name) is Some,
        after.edge_embeddings@ == with_entry(
            before.edge_embeddings@,
            connection_type,
            name,
            store@,
        ),
        forall|i: int|
            0 <= i < after.edge_embeddings.entries@.len() ==> ((
            #[trigger] after.edge_embeddings.entries@[i]).store == store || exists|j: int|
                0 <= j < before.edge_embeddings.entries@.len() && (
                #[trigger] before.edge_embeddings.entries@[j]).store
                    == after.edge_embeddings.entries@[i].store),
    ensures
        after.edge_stores_well_formed(),
{
    place_is_first(before.edge_embeddings@, connection_type, name);
    let place = crate::catalog::entry_place(before.edge_embeddings@, connection_type, name);
    assert forall|i: int| 0 <= i < after.edge_embeddings.entries@.len() implies (
    #[trigger] after.edge_embeddings.entries@[i]).store.well_formed() && column_of(
        after.edge_embeddings.entries@[i].name@,
    ) is Some by {
        let entry = after.edge_embeddings.entries@[i];
        if entry.store != store {
            let j = choose|j: int|
                0 <= j < before.edge_embeddings.entries@.len() && (
                #[trigger] before.edge_embeddings.entries@[j]).store == entry.store;
            assert(before.edge_embeddings.entries@[j].store.well_formed());
        }
        let model = after.edge_embeddings@[i];
        assert(model.name == entry.name@);
        if i == place {
            assert(model.name == name);
        } else if i < before.edge_embeddings@.len() {
            assert(model == before.edge_embeddings@[i]);
            assert(before.edge_embeddings@[i].name == before.edge_embeddings.entries@[i].name@);
            assert(column_of(before.edge_embeddings.entries@[i].name@) is Some);
        } else {
            assert(after.edge_embeddings@.len() == after.edge_embeddings.entries@.len());
        }
    }
}

} // verus!
