//! Statements that can be undone: what is put back, and in what order.
use vstd::prelude::*;
use crate::catalog::{
    a_dropped_store_is_gone, a_kept_store_is_found, keys_distinct, kept, lookup, place_is_first,
    with_entry, with_optional_entry, EntryModel,
};
use crate::edge_store::EdgeEmbeddingStore;
use crate::edge_writes::edge_names_stay;
use crate::freshness::{touched, uncovered, IndexFreshness};
use crate::graph::{recorded, undo_of, DirGraph};
use crate::names::column_of;
use crate::recording::{RecordingModel, UndoEntry, UndoJournal, UndoModel};
use crate::store::{
    cell_restored, popped, restored, with_index_state, SlotCoverage, StoreModel,
};
use crate::text::{text_eq, Text};
use crate::text_index::{TextIndexStore, TextStoreModel};
use crate::topology::{EdgeData, EdgeRecord, NodeData};
use crate::value::EdgeIndex;

verus! {

/// What undoing can put back: the relationship stores, the text indexes, and
/// the relationships.
#[verifier::ext_equal]
pub struct StateModel {
    pub stores: Seq<EntryModel<StoreModel>>,
    pub texts: Seq<EntryModel<TextStoreModel>>,
    pub edges: Seq<Option<EdgeRecord>>,
    pub vacant: Seq<usize>,
}

/// What undoing can put back of a graph.
pub open spec fn state_of(graph: DirGraph) -> StateModel {
    StateModel {
        stores: graph.edge_embeddings@,
        texts: graph.edge_text_indexes@,
        edges: graph.topology.edges@,
        vacant: graph.topology.vacant@,
    }
}

/// The relationship stores with one undo entry put back.
pub open spec fn stores_undone(stores: Seq<EntryModel<StoreModel>>, entry: UndoModel) -> Seq<
    EntryModel<StoreModel>,
> {
    match entry {
        UndoModel::EdgeVectorIndexReplaced { conn_type, name, prior } => match lookup(
            stores,
            conn_type,
            name,
        ) {
            Some(store) => with_entry(stores, conn_type, name, with_index_state(store, prior)),
            None => stores,
        },
        UndoModel::EdgeEmbeddingRemoved { conn_type, name, edge, prior } => match lookup(
            stores,
            conn_type,
            name,
        ) {
            Some(store) => with_entry(stores, conn_type, name, restored(store, edge.slot, prior)),
            None => stores,
        },
        UndoModel::EdgeEmbeddingStoreReplaced { conn_type, name, prior } => with_optional_entry(
            stores,
            conn_type,
            name,
            prior,
        ),
        UndoModel::EdgeEmbeddingModelIdReplaced { conn_type, name, prior } => match lookup(
            stores,
            conn_type,
            name,
        ) {
            Some(store) => with_entry(
                stores,
                conn_type,
                name,
                StoreModel { model_id: prior, ..store },
            ),
            None => stores,
        },
        UndoModel::EdgeEmbeddingCellReplaced { conn_type, name, edge, prior } => match lookup(
            stores,
            conn_type,
            name,
        ) {
            Some(store) => with_entry(stores, conn_type, name, cell_undone(store, edge, prior)),
            None => stores,
        },
        _ => stores,
    }
}

/// A store with a cell as it was: put back, or gone where there was none.
pub open spec fn cell_undone(
    store: StoreModel,
    edge: EdgeIndex,
    prior: Option<(crate::store::RemovedModel, SlotCoverage)>,
) -> StoreModel {
    match prior {
        Some((cell, coverage)) => cell_restored(store, edge.slot, cell, coverage),
        None => popped(store, edge.slot),
    }
}

/// A text index that covers no more than there are slots.
pub open spec fn fitted(store: TextStoreModel, bound: nat) -> TextStoreModel {
    if store.freshness.covered <= bound {
        store
    } else {
        TextStoreModel { freshness: uncovered(store.freshness.limit), ..store }
    }
}

/// The text indexes of a type with a slot to be read again.
pub open spec fn texts_touched(
    texts: Seq<EntryModel<TextStoreModel>>,
    connection_type: Text,
    slot: usize,
) -> Seq<EntryModel<TextStoreModel>> {
    Seq::new(
        texts.len(),
        |i: int|
            if texts[i].owner_type == connection_type {
                EntryModel {
                    store: TextStoreModel {
                        freshness: touched(texts[i].store.freshness, slot),
                        ..texts[i].store
                    },
                    ..texts[i]
                }
            } else {
                texts[i]
            },
    )
}

/// The state with one undo entry put back.
pub open spec fn undo_step(
    state: StateModel,
    nodes: Seq<Option<NodeData>>,
    entry: UndoModel,
) -> StateModel {
    let stores = stores_undone(state.stores, entry);
    match entry {
        UndoModel::EdgeRemoved { edge, record } => {
            if state.vacant.len() > 0 && state.vacant.last() == edge.slot && node_at(
                nodes,
                record.source.slot,
            ) && node_at(nodes, record.target.slot) {
                StateModel {
                    edges: state.edges.update(edge.slot as int, Some(record)),
                    vacant: state.vacant.drop_last(),
                    ..state
                }
            } else {
                state
            }
        },
        UndoModel::EdgePropertiesReplaced { edge, prior } => {
            if edge.slot < state.edges.len() && state.edges[edge.slot as int] is Some {
                let record = state.edges[edge.slot as int]->0;
                StateModel {
                    edges: state.edges.update(
                        edge.slot as int,
                        Some(
                            EdgeRecord {
                                data: EdgeData { properties: prior, ..record.data },
                                ..record
                            },
                        ),
                    ),
                    texts: texts_touched(
                        state.texts,
                        record.data.connection_type@,
                        edge.slot,
                    ),
                    ..state
                }
            } else {
                state
            }
        },
        UndoModel::EdgeTextIndexReplaced { conn_type, name, prior } => StateModel {
            texts: with_optional_entry(
                state.texts,
                conn_type,
                name,
                match prior {
                    Some(store) => Some(fitted(store, state.edges.len())),
                    None => None,
                },
            ),
            ..state
        },
        UndoModel::EdgeTextDocPruned { conn_type, name, edge } => match lookup(
            state.texts,
            conn_type,
            name,
        ) {
            Some(store) => StateModel {
                texts: with_entry(
                    state.texts,
                    conn_type,
                    name,
                    TextStoreModel { freshness: touched(store.freshness, edge.slot), ..store },
                ),
                ..state
            },
            None => state,
        },
        _ => StateModel { stores, ..state },
    }
}

/// A node lives in a slot.
pub open spec fn node_at(nodes: Seq<Option<NodeData>>, slot: usize) -> bool {
    slot < nodes.len() && nodes[slot as int] is Some
}

/// The state with every undo entry put back, the last one first.
pub open spec fn undone(
    state: StateModel,
    nodes: Seq<Option<NodeData>>,
    entries: Seq<UndoModel>,
) -> StateModel
    decreases entries.len(),
{
    if entries.len() == 0 {
        state
    } else {
        undone(undo_step(state, nodes, entries.last()), nodes, entries.drop_last())
    }
}

/// The stores with every undo entry put back, the last one first.
pub open spec fn stores_after_undo(
    stores: Seq<EntryModel<StoreModel>>,
    entries: Seq<UndoModel>,
) -> Seq<EntryModel<StoreModel>>
    decreases entries.len(),
{
    if entries.len() == 0 {
        stores
    } else {
        stores_after_undo(stores_undone(stores, entries.last()), entries.drop_last())
    }
}

/// Undoing puts each part of the state back by itself: what becomes of the
/// stores does not depend on the rest.
pub proof fn undoing_the_stores(
    state: StateModel,
    nodes: Seq<Option<NodeData>>,
    entries: Seq<UndoModel>,
)
    ensures
        undone(state, nodes, entries).stores == stores_after_undo(state.stores, entries),
    decreases entries.len(),
{
    if entries.len() > 0 {
        undoing_the_stores(
            undo_step(state, nodes, entries.last()),
            nodes,
            entries.drop_last(),
        );
    }
}

/// Undoing two lists of entries in turn is undoing the later one and then the
/// earlier one.
pub proof fn undoing_in_turn(
    stores: Seq<EntryModel<StoreModel>>,
    earlier: Seq<UndoModel>,
    later: Seq<UndoModel>,
)
    ensures
        stores_after_undo(stores, earlier + later) == stores_after_undo(
            stores_after_undo(stores, later),
            earlier,
        ),
    decreases later.len(),
{
    if later.len() == 0 {
        assert(earlier + later =~= earlier);
    } else {
        assert((earlier + later).last() == later.last());
        assert((earlier + later).drop_last() =~= earlier + later.drop_last());
        undoing_in_turn(stores_undone(stores, later.last()), earlier, later.drop_last());
    }
}

/// A statement that is running: what to go back to.
#[derive(Debug)]
pub struct StatementCheckpoint {
    /// The version.
    pub version: u64,
    /// How many changes were recorded.
    pub recorded: usize,
}

impl StatementCheckpoint {
    /// Starts a statement.
    pub fn open(graph: &mut DirGraph) -> (checkpoint: StatementCheckpoint)
        requires
            old(graph).well_formed(),
        ensures
            final(graph).well_formed(),
            *final(graph) == (DirGraph { undo: final(graph).undo, ..*old(graph) }),
            undo_of(*final(graph)) == Some(Seq::<UndoModel>::empty()),
            checkpoint.version == old(graph).version,
            checkpoint.recorded == match recorded(*old(graph)) {
                Some(r) => r.ops.len(),
                None => 0,
            },
    {
        let journal = UndoJournal { entries: Vec::new() };
        assert(journal@ =~= Seq::<UndoModel>::empty());
        graph.undo = Some(journal);
        StatementCheckpoint {
            version: graph.version,
            recorded: match &graph.recording {
                Some(recording) => recording.ops.len(),
                None => 0,
            },
        }
    }

    /// Ends a statement and keeps what it did.
    pub fn commit(self, graph: &mut DirGraph)
        requires
            old(graph).well_formed(),
        ensures
            final(graph).well_formed(),
            *final(graph) == (DirGraph { undo: None, ..*old(graph) }),
    {
        graph.undo = None;
    }
}

/// Changes one relationship store in place.
pub(crate) proof fn one_store_changed(before: DirGraph, after: DirGraph, place: int, store: EdgeEmbeddingStore)
    requires
        before.well_formed(),
        after == (DirGraph { edge_embeddings: after.edge_embeddings, ..before }),
        0 <= place < before.edge_embeddings.entries@.len(),
        store.well_formed(),
        after.edge_embeddings.entries@ =~= before.edge_embeddings.entries@.update(
            place,
            crate::catalog::Entry { store, ..before.edge_embeddings.entries@[place] },
        ),
    ensures
        after.well_formed(),
        after.edge_embeddings@ == with_entry(
            before.edge_embeddings@,
            before.edge_embeddings@[place].owner_type,
            before.edge_embeddings@[place].name,
            store@,
        ),
{
    let key = before.edge_embeddings@[place];
    crate::catalog::place_of_entry(before.edge_embeddings@, place);
    assert(after.edge_embeddings@ =~= with_entry(
        before.edge_embeddings@,
        key.owner_type,
        key.name,
        store@,
    ));
    a_kept_store_is_found(before.edge_embeddings@, key.owner_type, key.name, store@);
    assert forall|k: int| 0 <= k < after.edge_embeddings.entries@.len() implies (
    #[trigger] after.edge_embeddings.entries@[k]).store.well_formed() && column_of(
        after.edge_embeddings.entries@[k].name@,
    ) is Some by {
        assert(before.edge_embeddings.entries@[k].store.well_formed());
    }
}

/// Puts one undo entry back.
fn undo_one(graph: &mut DirGraph, entry: UndoEntry)
    requires
        old(graph).well_formed(),
        old(graph).undo is None,
        entry.well_formed(),
    ensures
        final(graph).well_formed(),
        *final(graph) == (DirGraph {
            topology: final(graph).topology,
            edge_embeddings: final(graph).edge_embeddings,
            edge_text_indexes: final(graph).edge_text_indexes,
            ..*old(graph)
        }),
        final(graph).topology.nodes == old(graph).topology.nodes,
        state_of(*final(graph)) == undo_step(
            state_of(*old(graph)),
            old(graph).topology.nodes@,
            entry@,
        ),
{
    match entry {
        UndoEntry::EdgeRemoved { edge, record } => {
            undo_removed_edge(graph, edge, record);
        },
        UndoEntry::EdgePropertiesReplaced { edge, prior } => {
            undo_properties(graph, edge, prior);
        },
        UndoEntry::EdgeVectorIndexReplaced { conn_type, name, prior } => {
            match graph.edge_embeddings.position(conn_type.as_str(), name.as_str()) {
                Some(place) => {
                    proof {
                        place_is_first(graph.edge_embeddings@, conn_type@, name@);
                    }
                    assert(graph.edge_embeddings.entries@[place as int].store.well_formed());
                    let fresh = EdgeEmbeddingStore::new(0, None);
                    let mut store = graph.edge_embeddings.replace_at(place, fresh);
                    store.restore_index_state(&prior);
                    let _ = graph.edge_embeddings.replace_at(place, store);
                    proof {
                        one_store_changed(*old(graph), *graph, place as int, store);
                    }
                },
                None => {},
            }
        },
        UndoEntry::EdgeEmbeddingRemoved { conn_type, name, edge, prior } => {
            match graph.edge_embeddings.position(conn_type.as_str(), name.as_str()) {
                Some(place) => {
                    proof {
                        place_is_first(graph.edge_embeddings@, conn_type@, name@);
                    }
                    assert(graph.edge_embeddings.entries@[place as int].store.well_formed());
                    let fresh = EdgeEmbeddingStore::new(0, None);
                    let mut store = graph.edge_embeddings.replace_at(place, fresh);
                    store.restore(edge, &prior);
                    let _ = graph.edge_embeddings.replace_at(place, store);
                    proof {
                        one_store_changed(*old(graph), *graph, place as int, store);
                    }
                },
                None => {},
            }
        },
        UndoEntry::EdgeEmbeddingStoreReplaced { conn_type, name, prior } => {
            undo_store(graph, conn_type, name, prior);
        },
        UndoEntry::EdgeEmbeddingModelIdReplaced { conn_type, name, prior } => {
            match graph.edge_embeddings.position(conn_type.as_str(), name.as_str()) {
                Some(place) => {
                    proof {
                        place_is_first(graph.edge_embeddings@, conn_type@, name@);
                    }
                    assert(graph.edge_embeddings.entries@[place as int].store.well_formed());
                    let fresh = EdgeEmbeddingStore::new(0, None);
                    let mut store = graph.edge_embeddings.replace_at(place, fresh);
                    store.set_model_id(prior);
                    let _ = graph.edge_embeddings.replace_at(place, store);
                    proof {
                        one_store_changed(*old(graph), *graph, place as int, store);
                    }
                },
                None => {},
            }
        },
        UndoEntry::EdgeEmbeddingCellReplaced { conn_type, name, edge, prior } => {
            match graph.edge_embeddings.position(conn_type.as_str(), name.as_str()) {
                Some(place) => {
                    proof {
                        place_is_first(graph.edge_embeddings@, conn_type@, name@);
                    }
                    assert(graph.edge_embeddings.entries@[place as int].store.well_formed());
                    let fresh = EdgeEmbeddingStore::new(0, None);
                    let mut store = graph.edge_embeddings.replace_at(place, fresh);
                    match &prior {
                        Some((cell, coverage)) => store.restore_cell(edge, cell, *coverage),
                        None => store.pop_appended_cell(edge),
                    }
                    let _ = graph.edge_embeddings.replace_at(place, store);
                    proof {
                        one_store_changed(*old(graph), *graph, place as int, store);
                    }
                },
                None => {},
            }
        },
        UndoEntry::EdgeTextIndexReplaced { conn_type, name, prior } => {
            undo_text_index(graph, conn_type, name, prior);
        },
        UndoEntry::EdgeTextDocPruned { conn_type, name, edge } => {
            undo_document(graph, conn_type, name, edge);
        },
    }
}

fn undo_removed_edge(graph: &mut DirGraph, edge: EdgeIndex, record: EdgeRecord)
    requires
        old(graph).well_formed(),
        old(graph).undo is None,
    ensures
        final(graph).well_formed(),
        *final(graph) == (DirGraph { topology: final(graph).topology, ..*old(graph) }),
        final(graph).topology.nodes == old(graph).topology.nodes,
        state_of(*final(graph)) == undo_step(
            state_of(*old(graph)),
            old(graph).topology.nodes@,
            UndoModel::EdgeRemoved { edge, record },
        ),
{
    let count: usize = graph.topology.vacant.len();
    let ends = graph.topology.node_view(record.source).is_some() && graph.topology.node_view(
        record.target,
    ).is_some();
    if count > 0 && graph.topology.vacant[count - 1] == edge.slot && ends {
        graph.topology.restore_edge(edge, record);
    }
    assert(state_of(*graph) =~= undo_step(
        state_of(*old(graph)),
        old(graph).topology.nodes@,
        UndoModel::EdgeRemoved { edge, record },
    ));
}

fn undo_store(
    graph: &mut DirGraph,
    conn_type: String,
    name: String,
    prior: Option<EdgeEmbeddingStore>,
)
    requires
        old(graph).well_formed(),
        old(graph).undo is None,
        column_of(name@) is Some,
        prior is Some ==> prior->0.well_formed(),
    ensures
        final(graph).well_formed(),
        *final(graph) == (DirGraph {
            edge_embeddings: final(graph).edge_embeddings,
            ..*old(graph)
        }),
        final(graph).edge_embeddings@ == with_optional_entry(
            old(graph).edge_embeddings@,
            conn_type@,
            name@,
            match prior {
                Some(store) => Some(store@),
                None => None,
            },
        ),
{
    match prior {
        Some(store) => {
            let _ = graph.edge_embeddings.insert(conn_type.as_str(), name.as_str(), store);
            proof {
                a_kept_store_is_found(old(graph).edge_embeddings@, conn_type@, name@, store@);
                edge_names_stay(*old(graph), *graph, conn_type@, name@, store);
            }
        },
        None => {
            let _ = graph.edge_embeddings.remove(conn_type.as_str(), name.as_str());
            proof {
                a_dropped_store_is_gone(old(graph).edge_embeddings@, conn_type@, name@);
                place_is_first(old(graph).edge_embeddings@, conn_type@, name@);
                let place = crate::catalog::entry_place(
                    old(graph).edge_embeddings@,
                    conn_type@,
                    name@,
                );
                assert forall|i: int| 0 <= i < graph.edge_embeddings.entries@.len() implies (
                #[trigger] graph.edge_embeddings.entries@[i]).store.well_formed() && column_of(
                    graph.edge_embeddings.entries@[i].name@,
                ) is Some by {
                    let j = choose|j: int|
                        0 <= j < old(graph).edge_embeddings.entries@.len() && (
                        #[trigger] old(graph).edge_embeddings.entries@[j]).store
                            == graph.edge_embeddings.entries@[i].store;
                    assert(old(graph).edge_embeddings.entries@[j].store.well_formed());
                    let k = if i < place { i } else { i + 1 };
                    assert(graph.edge_embeddings@.len() == graph.edge_embeddings.entries@.len());
                    if kept(old(graph).edge_embeddings@, conn_type@, name@) {
                        assert(graph.edge_embeddings@[i] == old(graph).edge_embeddings@[k]);
                        assert(old(graph).edge_embeddings@[k].name == old(
                            graph,
                        ).edge_embeddings.entries@[k].name@);
                        assert(column_of(old(graph).edge_embeddings.entries@[k].name@) is Some);
                    } else {
                        assert(graph.edge_embeddings@[i] == old(graph).edge_embeddings@[i]);
                        assert(old(graph).edge_embeddings@[i].name == old(
                            graph,
                        ).edge_embeddings.entries@[i].name@);
                        assert(column_of(old(graph).edge_embeddings.entries@[i].name@) is Some);
                    }
                    assert(graph.edge_embeddings@[i].name
                        == graph.edge_embeddings.entries@[i].name@);
                }
            }
        },
    }
}

/// The text indexes stay well formed when one is kept.
proof fn text_indexes_stay(
    before: DirGraph,
    after: DirGraph,
    store: Option<TextIndexStore>,
)
    requires
        before.well_formed(),
        after == (DirGraph { edge_text_indexes: after.edge_text_indexes, ..before }),
        keys_distinct(after.edge_text_indexes@),
        store is Some ==> store->0.well_formed() && store->0.freshness.covered
            <= before.topology.edges@.len(),
        forall|i: int|
            0 <= i < after.edge_text_indexes.entries@.len() ==> (store is Some && (
            #[trigger] after.edge_text_indexes.entries@[i]).store == store->0) || exists|j: int|
                0 <= j < before.edge_text_indexes.entries@.len() && (
                #[trigger] before.edge_text_indexes.entries@[j]).store
                    == after.edge_text_indexes.entries@[i].store,
    ensures
        after.well_formed(),
{
    assert forall|i: int| 0 <= i < after.edge_text_indexes.entries@.len() implies (
    #[trigger] after.edge_text_indexes.entries@[i]).store.well_formed()
        && after.edge_text_indexes.entries@[i].store.freshness.covered
        <= after.topology.edges@.len() by {
        let kept = after.edge_text_indexes.entries@[i].store;
        if !(store is Some && kept == store->0) {
            let j = choose|j: int|
                0 <= j < before.edge_text_indexes.entries@.len() && (
                #[trigger] before.edge_text_indexes.entries@[j]).store == kept;
            assert(before.edge_text_indexes.entries@[j].store.well_formed());
        }
    }
}

fn undo_text_index(
    graph: &mut DirGraph,
    conn_type: String,
    name: String,
    prior: Option<TextIndexStore>,
)
    requires
        old(graph).well_formed(),
        old(graph).undo is None,
        prior is Some ==> prior->0.well_formed(),
    ensures
        final(graph).well_formed(),
        *final(graph) == (DirGraph {
            edge_text_indexes: final(graph).edge_text_indexes,
            ..*old(graph)
        }),
        final(graph).edge_text_indexes@ == with_optional_entry(
            old(graph).edge_text_indexes@,
            conn_type@,
            name@,
            match prior {
                Some(store) => Some(fitted(store@, old(graph).topology.edges@.len())),
                None => None,
            },
        ),
{
    match prior {
        Some(mut store) => {
            let ghost given = store@;
            if store.freshness.covered > graph.topology.edges.len() {
                store.freshness = IndexFreshness::covering(0, store.freshness.limit);
            }
            assert(store@ =~= fitted(given, old(graph).topology.edges@.len()));
            let _ = graph.edge_text_indexes.insert(conn_type.as_str(), name.as_str(), store);
            proof {
                a_kept_store_is_found(old(graph).edge_text_indexes@, conn_type@, name@, store@);
                text_indexes_stay(*old(graph), *graph, Some(store));
            }
        },
        None => {
            let _ = graph.edge_text_indexes.remove(conn_type.as_str(), name.as_str());
            proof {
                a_dropped_store_is_gone(old(graph).edge_text_indexes@, conn_type@, name@);
                text_indexes_stay(*old(graph), *graph, None);
            }
        },
    }
}

/// A text index marked in place.
pub(crate) proof fn one_text_index_changed(
    before: DirGraph,
    after: DirGraph,
    place: int,
    store: TextIndexStore,
)
    requires
        before.well_formed(),
        after == (DirGraph { edge_text_indexes: after.edge_text_indexes, ..before }),
        0 <= place < before.edge_text_indexes.entries@.len(),
        store.well_formed(),
        store.freshness.covered <= before.topology.edges@.len(),
        after.edge_text_indexes.entries@ == before.edge_text_indexes.entries@.update(
            place,
            crate::catalog::Entry { store, ..before.edge_text_indexes.entries@[place] },
        ),
    ensures
        after.well_formed(),
        after.edge_text_indexes@ == before.edge_text_indexes@.update(
            place,
            EntryModel { store: store@, ..before.edge_text_indexes@[place] },
        ),
        after.edge_text_indexes@ == with_entry(
            before.edge_text_indexes@,
            before.edge_text_indexes@[place].owner_type,
            before.edge_text_indexes@[place].name,
            store@,
        ),
{
    let key = before.edge_text_indexes@[place];
    crate::catalog::place_of_entry(before.edge_text_indexes@, place);
    assert(after.edge_text_indexes@ =~= before.edge_text_indexes@.update(
        place,
        EntryModel { store: store@, ..before.edge_text_indexes@[place] },
    ));
    a_kept_store_is_found(before.edge_text_indexes@, key.owner_type, key.name, store@);
    assert forall|k: int| 0 <= k < after.edge_text_indexes.entries@.len() implies (
    #[trigger] after.edge_text_indexes.entries@[k]).store.well_formed()
        && after.edge_text_indexes.entries@[k].store.freshness.covered
        <= after.topology.edges@.len() by {
        assert(before.edge_text_indexes.entries@[k].store.well_formed());
    }
}

/// Marks a slot of one text index to be read again.
pub(crate) fn mark_document(graph: &mut DirGraph, place: usize, slot: usize)
    requires
        old(graph).well_formed(),
        place < old(graph).edge_text_indexes.entries@.len(),
    ensures
        final(graph).well_formed(),
        *final(graph) == (DirGraph {
            edge_text_indexes: final(graph).edge_text_indexes,
            ..*old(graph)
        }),
        final(graph).edge_text_indexes.entries@.len() == old(
            graph,
        ).edge_text_indexes.entries@.len(),
        final(graph).edge_text_indexes@ == old(graph).edge_text_indexes@.update(
            place as int,
            EntryModel {
                store: TextStoreModel {
                    freshness: touched(
                        old(graph).edge_text_indexes@[place as int].store.freshness,
                        slot,
                    ),
                    ..old(graph).edge_text_indexes@[place as int].store
                },
                ..old(graph).edge_text_indexes@[place as int]
            },
        ),
        final(graph).edge_text_indexes@ == with_entry(
            old(graph).edge_text_indexes@,
            old(graph).edge_text_indexes@[place as int].owner_type,
            old(graph).edge_text_indexes@[place as int].name,
            TextStoreModel {
                freshness: touched(
                    old(graph).edge_text_indexes@[place as int].store.freshness,
                    slot,
                ),
                ..old(graph).edge_text_indexes@[place as int].store
            },
        ),
{
    assert(old(graph).edge_text_indexes.entries@[place as int].store.well_formed());
    graph.edge_text_indexes.at_mut(place).freshness.note_changed(slot);
    proof {
        let store = graph.edge_text_indexes.entries@[place as int].store;
        assert(graph.edge_text_indexes.entries@ =~= old(graph).edge_text_indexes.entries@.update(
            place as int,
            crate::catalog::Entry { store, ..old(graph).edge_text_indexes.entries@[place as int] },
        ));
        one_text_index_changed(*old(graph), *graph, place as int, store);
    }
}

fn undo_document(graph: &mut DirGraph, conn_type: String, name: String, edge: EdgeIndex)
    requires
        old(graph).well_formed(),
        old(graph).undo is None,
    ensures
        final(graph).well_formed(),
        *final(graph) == (DirGraph {
            edge_text_indexes: final(graph).edge_text_indexes,
            ..*old(graph)
        }),
        state_of(*final(graph)) == undo_step(
            state_of(*old(graph)),
            old(graph).topology.nodes@,
            UndoModel::EdgeTextDocPruned { conn_type: conn_type@, name: name@, edge },
        ),
{
    match graph.edge_text_indexes.position(conn_type.as_str(), name.as_str()) {
        Some(place) => {
            proof {
                place_is_first(graph.edge_text_indexes@, conn_type@, name@);
            }
            mark_document(graph, place, edge.slot);
        },
        None => {},
    }
}

/// Marks a slot of every text index of a type to be read again.
pub(crate) fn mark_documents_of_type(graph: &mut DirGraph, connection_type: &str, slot: usize)
    requires
        old(graph).well_formed(),
    ensures
        final(graph).well_formed(),
        *final(graph) == (DirGraph {
            edge_text_indexes: final(graph).edge_text_indexes,
            ..*old(graph)
        }),
        final(graph).edge_text_indexes@ == texts_touched(
            old(graph).edge_text_indexes@,
            connection_type@,
            slot,
        ),
{
    let ghost texts = graph.edge_text_indexes@;
    let count: usize = graph.edge_text_indexes.entries.len();
    let mut i: usize = 0;
    while i < count
        invariant
            i <= count,
            count == graph.edge_text_indexes.entries@.len(),
            texts.len() == count,
            graph.well_formed(),
            *graph == (DirGraph { edge_text_indexes: graph.edge_text_indexes, ..*old(graph) }),
            forall|k: int|
                0 <= k < count ==> (#[trigger] graph.edge_text_indexes@[k]) == if k < i {
                    texts_touched(texts, connection_type@, slot)[k]
                } else {
                    texts[k]
                },
        decreases count - i,
    {
        assert(graph.edge_text_indexes@[i as int] == texts[i as int]);
        if text_eq(graph.edge_text_indexes.entries[i].owner_type.as_str(), connection_type) {
            mark_document(graph, i, slot);
        }
        i = i + 1;
    }
    assert(graph.edge_text_indexes@ =~= texts_touched(texts, connection_type@, slot));
}

fn undo_properties(
    graph: &mut DirGraph,
    edge: EdgeIndex,
    prior: Vec<crate::topology::Property>,
)
    requires
        old(graph).well_formed(),
        old(graph).undo is None,
    ensures
        final(graph).well_formed(),
        *final(graph) == (DirGraph {
            topology: final(graph).topology,
            edge_text_indexes: final(graph).edge_text_indexes,
            ..*old(graph)
        }),
        final(graph).topology.nodes == old(graph).topology.nodes,
        state_of(*final(graph)) == undo_step(
            state_of(*old(graph)),
            old(graph).topology.nodes@,
            UndoModel::EdgePropertiesReplaced { edge, prior },
        ),
{
    let connection_type = match graph.topology.edge_weight(edge) {
        Some(data) => data.connection_type.clone(),
        None => {
            return ;
        },
    };
    let _ = graph.topology.replace_properties(edge, prior);
    mark_documents_of_type(graph, connection_type.as_str(), edge.slot);
    assert(state_of(*graph) =~= undo_step(
        state_of(*old(graph)),
        old(graph).topology.nodes@,
        UndoModel::EdgePropertiesReplaced { edge, prior },
    ));
}

impl StatementCheckpoint {
    /// Ends a statement and puts everything it did to the stores, the text
    /// indexes and the relationships back, the last change first. What it
    /// recorded is forgotten, and the version is what it was.
    pub fn rollback(self, graph: &mut DirGraph)
        requires
            old(graph).well_formed(),
            old(graph).undo is Some,
        ensures
            final(graph).well_formed(),
            *final(graph) == (DirGraph {
                topology: final(graph).topology,
                edge_embeddings: final(graph).edge_embeddings,
                edge_text_indexes: final(graph).edge_text_indexes,
                undo: None,
                recording: final(graph).recording,
                version: self.version,
                ..*old(graph)
            }),
            final(graph).topology.nodes == old(graph).topology.nodes,
            state_of(*final(graph)) == undone(
                state_of(*old(graph)),
                old(graph).topology.nodes@,
                undo_of(*old(graph))->0,
            ),
            recorded(*final(graph)) == match recorded(*old(graph)) {
                Some(r) => Some(
                    RecordingModel {
                        base_capture: final(graph).edge_embeddings@.len() > 0,
                        ops: if self.recorded < r.ops.len() {
                            r.ops.take(self.recorded as int)
                        } else {
                            r.ops
                        },
                    },
                ),
                None => None,
            },
    {
        let mut journal = match graph.undo.take() {
            Some(journal) => journal,
            None => {
                assert(false);
                return ;
            },
        };
        let ghost nodes = graph.topology.nodes@;
        let ghost all = journal@;
        let ghost start = state_of(*graph);
        let mut remaining: usize = journal.entries.len();
        while remaining > 0
            invariant
                remaining == journal.entries@.len(),
                journal.well_formed(),
                graph.well_formed(),
                *graph == (DirGraph {
                    topology: graph.topology,
                    edge_embeddings: graph.edge_embeddings,
                    edge_text_indexes: graph.edge_text_indexes,
                    undo: None,
                    ..*old(graph)
                }),
                graph.topology.nodes == old(graph).topology.nodes,
                nodes == old(graph).topology.nodes@,
                undone(start, nodes, all) == undone(state_of(*graph), nodes, journal@),
            decreases remaining,
        {
            let ghost before = journal@;
            let ghost entries = journal.entries@;
            match journal.entries.pop() {
                Some(entry) => {
                    assert(entries[entries.len() - 1].well_formed());
                    assert(before.last() == entry@);
                    assert(journal@ =~= before.drop_last());
                    assert forall|i: int| 0 <= i < journal.entries@.len() implies (
                    #[trigger] journal.entries@[i]).well_formed() by {
                        assert(entries[i].well_formed());
                    }
                    undo_one(graph, entry);
                },
                None => {
                    assert(false);
                },
            }
            remaining = remaining - 1;
        }
        let captures = !graph.edge_embeddings.is_empty();
        match &mut graph.recording {
            Some(recording) => {
                recording.base_capture = captures;
                if self.recorded < recording.ops.len() {
                    recording.ops.truncate(self.recorded);
                }
            },
            None => {},
        }
        proof {
            if old(graph).recording is Some {
                let before = old(graph).recording->0@.ops;
                let after = graph.recording->0@.ops;
                if self.recorded < before.len() {
                    assert(after =~= before.take(self.recorded as int));
                } else {
                    assert(after =~= before);
                }
            }
        }
        graph.version = self.version;
    }
}

} // verus!
