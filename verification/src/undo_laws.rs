//! What undoing gives back: after a statement is rolled back, the relationship
//! stores are as it found them.
use vstd::prelude::*;
use crate::catalog::{
    a_dropped_store_is_gone, a_kept_store_is_found, dropping_a_fresh_entry, keys_distinct, kept,
    lookup, place_is_first, place_of_entry, with_entry, with_optional_entry, EntryModel,
};
use crate::edge_delete::{
    index_entries, prune_undo, stores_without, vector_entries,
};
use crate::edge_replace::{
    a_removed_vector_is_gone, all_removed, drop_done, removal_done, removed_entries, replace_done,
};
use crate::edge_store::with_manual;
use crate::edge_vector_index::{
    build_done, build_fault, build_undo, index_drop_done, indexed_store, OptionsModel,
};
use crate::edge_writes::{
    cell_entries, cell_kept, changed_slots, entries_sound, manual_writes, model_entry,
    stamps_metric, upsert_done, upsert_undo, upserted, EdgeEmbeddingWriteReport,
};
use crate::freshness::uncovered;
use crate::graph::{undo_of, undo_with, DirGraph};
use crate::names::store_name_of;
use crate::order::{ascending, ascending_of_items, ascends, number_order};
use crate::recording::UndoModel;
use crate::statement::{
    cell_undone, state_of, stores_after_undo, stores_undone, undoing_in_turn, undoing_the_stores,
    undone,
};
use crate::store::{
    coherent, hash_of, holds, index_state_of, place_of, restored, restoring_undoes_removing,
    unindexed, with_index_state, with_vector, without_vector, StoreModel,
};
use crate::text::Text;
use crate::value::EdgeIndex;

verus! {

/// The relationship stores that the running statement found: those that rolling
/// it back leaves.
pub open spec fn stores_found(graph: DirGraph) -> Seq<EntryModel<StoreModel>> {
    undone(state_of(graph), graph.topology.nodes@, undo_of(graph)->0).stores
}

/// The same stores, in whatever order they are kept.
pub open spec fn same_stores(
    stores: Seq<EntryModel<StoreModel>>,
    others: Seq<EntryModel<StoreModel>>,
) -> bool {
    forall|t: Text, n: Text| #[trigger] lookup(stores, t, n) == lookup(others, t, n)
}

/// A write whose own undo entries give the stores back leaves what the statement
/// found as it was.
pub(crate) proof fn undone_alone(before: DirGraph, after: DirGraph, later: Seq<UndoModel>)
    requires
        undo_of(before) is Some,
        undo_of(after) == undo_with(undo_of(before), later),
        stores_after_undo(after.edge_embeddings@, later) == before.edge_embeddings@,
    ensures
        stores_found(after) == stores_found(before),
{
    let earlier = undo_of(before)->0;
    undoing_the_stores(state_of(after), after.topology.nodes@, earlier + later);
    undoing_the_stores(state_of(before), before.topology.nodes@, earlier);
    undoing_in_turn(after.edge_embeddings@, earlier, later);
}

/// Undoing one entry finds the same stores, in whatever order they were kept.
proof fn undoing_one_respects_lookups(
    stores: Seq<EntryModel<StoreModel>>,
    others: Seq<EntryModel<StoreModel>>,
    entry: UndoModel,
)
    requires
        keys_distinct(stores),
        keys_distinct(others),
        same_stores(stores, others),
    ensures
        keys_distinct(stores_undone(stores, entry)),
        keys_distinct(stores_undone(others, entry)),
        same_stores(stores_undone(stores, entry), stores_undone(others, entry)),
{
    let change = match entry {
        UndoModel::EdgeVectorIndexReplaced { conn_type, name, prior } => match lookup(
            stores,
            conn_type,
            name,
        ) {
            Some(store) => Some((conn_type, name, Some(with_index_state(store, prior)))),
            None => None,
        },
        UndoModel::EdgeEmbeddingRemoved { conn_type, name, edge, prior } => match lookup(
            stores,
            conn_type,
            name,
        ) {
            Some(store) => Some((conn_type, name, Some(restored(store, edge.slot, prior)))),
            None => None,
        },
        UndoModel::EdgeEmbeddingStoreReplaced { conn_type, name, prior } => Some(
            (conn_type, name, prior),
        ),
        UndoModel::EdgeEmbeddingModelIdReplaced { conn_type, name, prior } => match lookup(
            stores,
            conn_type,
            name,
        ) {
            Some(store) => Some((conn_type, name, Some(StoreModel { model_id: prior, ..store }))),
            None => None,
        },
        UndoModel::EdgeEmbeddingCellReplaced { conn_type, name, edge, prior } => match lookup(
            stores,
            conn_type,
            name,
        ) {
            Some(store) => Some((conn_type, name, Some(cell_undone(store, edge, prior)))),
            None => None,
        },
        _ => None,
    };
    if let Some((owner, name, store)) = change {
        assert(lookup(stores, owner, name) == lookup(others, owner, name));
        assert(stores_undone(stores, entry) == with_optional_entry(stores, owner, name, store));
        assert(stores_undone(others, entry) == with_optional_entry(others, owner, name, store));
        match store {
            Some(kept_now) => {
                a_kept_store_is_found(stores, owner, name, kept_now);
                a_kept_store_is_found(others, owner, name, kept_now);
            },
            None => {
                a_dropped_store_is_gone(stores, owner, name);
                a_dropped_store_is_gone(others, owner, name);
            },
        }
        assert forall|t: Text, n: Text| #[trigger]
            lookup(stores_undone(stores, entry), t, n) == lookup(
                stores_undone(others, entry),
                t,
                n,
            ) by {
            if !(t == owner && n == name) {
                assert(lookup(stores, t, n) == lookup(others, t, n));
            }
        }
    }
}

/// Undoing finds the same stores, in whatever order they were kept.
pub proof fn undoing_respects_lookups(
    stores: Seq<EntryModel<StoreModel>>,
    others: Seq<EntryModel<StoreModel>>,
    entries: Seq<UndoModel>,
)
    requires
        keys_distinct(stores),
        keys_distinct(others),
        same_stores(stores, others),
    ensures
        same_stores(stores_after_undo(stores, entries), stores_after_undo(others, entries)),
    decreases entries.len(),
{
    if entries.len() > 0 {
        undoing_one_respects_lookups(stores, others, entries.last());
        undoing_respects_lookups(
            stores_undone(stores, entries.last()),
            stores_undone(others, entries.last()),
            entries.drop_last(),
        );
    }
}

/// Keeping a store twice is keeping the second one.
pub(crate) proof fn kept_twice<V>(entries: Seq<EntryModel<V>>, t: Text, n: Text, first: V, second: V)
    ensures
        with_entry(with_entry(entries, t, n, first), t, n, second) == with_entry(
            entries,
            t,
            n,
            second,
        ),
        lookup(with_entry(entries, t, n, first), t, n) == Some(first),
{
    let once = with_entry(entries, t, n, first);
    a_kept_store_is_found(entries, t, n, first);
    place_is_first(entries, t, n);
    place_is_first(once, t, n);
    let place = crate::catalog::entry_place(entries, t, n);
    let again = crate::catalog::entry_place(once, t, n);
    if kept(entries, t, n) {
        if again < place {
            assert(once[again] == entries[again]);
        }
        assert(once[place].owner_type == t && once[place].name == n);
        assert(again == place);
    } else {
        if again < entries.len() {
            assert(once[again] == entries[again]);
        }
        assert(again == entries.len());
    }
    assert(with_entry(once, t, n, second) =~= with_entry(entries, t, n, second));
}

/// Keeping the store that is kept changes nothing.
pub(crate) proof fn kept_again<V>(entries: Seq<EntryModel<V>>, t: Text, n: Text)
    requires
        kept(entries, t, n),
    ensures
        with_entry(entries, t, n, lookup(entries, t, n)->0) == entries,
{
    place_is_first(entries, t, n);
    assert(with_entry(entries, t, n, lookup(entries, t, n)->0) =~= entries);
}

/// A store that is without an index stays so while vectors go.
proof fn removals_stay_unindexed(store: StoreModel, edges: Seq<EdgeIndex>, count: nat)
    requires
        coherent(store),
        unindexed(store) == store,
        count <= edges.len(),
    ensures
        coherent(all_removed(store, edges, count)),
        unindexed(all_removed(store, edges, count)) == all_removed(store, edges, count),
    decreases count,
{
    if count > 0 {
        removals_stay_unindexed(store, edges, (count - 1) as nat);
        a_removed_vector_is_gone(
            all_removed(store, edges, (count - 1) as nat),
            edges[count - 1].slot,
        );
    }
}

proof fn removals_undone(
    stores: Seq<EntryModel<StoreModel>>,
    t: Text,
    n: Text,
    store: StoreModel,
    edges: Seq<EdgeIndex>,
    count: nat,
)
    requires
        coherent(store),
        unindexed(store) == store,
        count <= edges.len(),
    ensures
        stores_after_undo(
            with_entry(stores, t, n, all_removed(store, edges, count)),
            removed_entries(t, n, store, edges, count),
        ) == with_entry(stores, t, n, store),
    decreases count,
{
    if count > 0 {
        let before = all_removed(store, edges, (count - 1) as nat);
        let slot = edges[count - 1].slot;
        removals_stay_unindexed(store, edges, (count - 1) as nat);
        removals_undone(stores, t, n, store, edges, (count - 1) as nat);
        let entries = removed_entries(t, n, store, edges, count);
        if holds(before, slot) {
            restoring_undoes_removing(before, slot);
            kept_twice(stores, t, n, without_vector(before, slot), before);
            assert(entries.drop_last() =~= removed_entries(
                t,
                n,
                store,
                edges,
                (count - 1) as nat,
            ));
        }
    }
}

/// Undoing the removal of vectors gives the stores back, in the same order and
/// with the same index.
pub proof fn a_removal_can_be_undone(
    before: DirGraph,
    after: DirGraph,
    connection_type: Text,
    text_property: Text,
    edges: Seq<EdgeIndex>,
)
    requires
        before.well_formed(),
        undo_of(before) is Some,
        kept(before.edge_embeddings@, connection_type, store_name_of(text_property)),
        removal_done(before, after, connection_type, text_property, edges),
    ensures
        stores_found(after) == stores_found(before),
{
    let name = store_name_of(text_property);
    let stores = before.edge_embeddings@;
    let store = lookup(stores, connection_type, name)->0;
    kept_store_is_coherent(before, connection_type, name);
    let bare = unindexed(store);
    let index = UndoModel::EdgeVectorIndexReplaced {
        conn_type: connection_type,
        name,
        prior: index_state_of(store),
    };
    let removed = removed_entries(connection_type, name, bare, edges, edges.len());
    let journal = seq![index] + removed;
    undoing_in_turn(after.edge_embeddings@, seq![index], removed);
    removals_undone(stores, connection_type, name, bare, edges, edges.len());
    let restored = with_entry(stores, connection_type, name, bare);
    assert(stores_after_undo(after.edge_embeddings@, removed) == restored);
    assert(seq![index].last() == index);
    assert(seq![index].drop_last() =~= Seq::<UndoModel>::empty());
    assert(stores_after_undo(restored, seq![index]) == stores_after_undo(
        stores_undone(restored, index),
        Seq::<UndoModel>::empty(),
    ));
    kept_twice(stores, connection_type, name, bare, store);
    assert(with_index_state(bare, index_state_of(store)) =~= store);
    kept_again(stores, connection_type, name);
    undone_alone(before, after, journal);
}

/// A kept store of a well-formed graph is coherent.
pub proof fn kept_store_is_coherent(graph: DirGraph, connection_type: Text, name: Text)
    requires
        graph.well_formed(),
        kept(graph.edge_embeddings@, connection_type, name),
    ensures
        coherent(lookup(graph.edge_embeddings@, connection_type, name)->0),
{
    place_is_first(graph.edge_embeddings@, connection_type, name);
    let place = crate::catalog::entry_place(graph.edge_embeddings@, connection_type, name);
    graph.edge_embeddings.entries@[place].store.numeric.is_coherent();
}

/// Undoing the replacement of a store gives the stores back.
pub proof fn a_replacement_can_be_undone(
    before: DirGraph,
    after: DirGraph,
    connection_type: Text,
    text_property: Text,
    store: StoreModel,
    affected: Seq<EdgeIndex>,
)
    requires
        undo_of(before) is Some,
        replace_done(before, after, connection_type, text_property, store, affected),
    ensures
        stores_found(after) == stores_found(before),
{
    let name = store_name_of(text_property);
    let stores = before.edge_embeddings@;
    let entry = UndoModel::EdgeEmbeddingStoreReplaced {
        conn_type: connection_type,
        name,
        prior: lookup(stores, connection_type, name),
    };
    assert(seq![entry].drop_last() =~= Seq::<UndoModel>::empty());
    assert(stores_after_undo(after.edge_embeddings@, seq![entry]) == stores_after_undo(
        stores_undone(after.edge_embeddings@, entry),
        Seq::<UndoModel>::empty(),
    ));
    if kept(stores, connection_type, name) {
        kept_twice(stores, connection_type, name, store, lookup(stores, connection_type, name)->0);
        kept_again(stores, connection_type, name);
    } else {
        dropping_a_fresh_entry(stores, connection_type, name, store);
    }
    undone_alone(before, after, seq![entry]);
}

/// Undoing the drop of a store has every store found as before.
pub proof fn a_drop_can_be_undone(
    before: DirGraph,
    after: DirGraph,
    connection_type: Text,
    text_property: Text,
)
    requires
        before.well_formed(),
        undo_of(before) is Some,
        kept(before.edge_embeddings@, connection_type, store_name_of(text_property)),
        drop_done(before, after, connection_type, text_property),
    ensures
        same_stores(stores_found(after), stores_found(before)),
{
    let name = store_name_of(text_property);
    let stores = before.edge_embeddings@;
    let prior = lookup(stores, connection_type, name);
    let entry = UndoModel::EdgeEmbeddingStoreReplaced { conn_type: connection_type, name, prior };
    assert(seq![entry].drop_last() =~= Seq::<UndoModel>::empty());
    assert(stores_after_undo(after.edge_embeddings@, seq![entry]) == stores_after_undo(
        stores_undone(after.edge_embeddings@, entry),
        Seq::<UndoModel>::empty(),
    ));
    a_dropped_store_is_gone(stores, connection_type, name);
    let back = with_entry(after.edge_embeddings@, connection_type, name, prior->0);
    a_kept_store_is_found(after.edge_embeddings@, connection_type, name, prior->0);
    assert forall|t: Text, n: Text| #[trigger] lookup(back, t, n) == lookup(stores, t, n) by {
        if !(t == connection_type && n == name) {
            assert(lookup(after.edge_embeddings@, t, n) == lookup(stores, t, n));
        }
    }
    let earlier = undo_of(before)->0;
    undoing_the_stores(state_of(after), after.topology.nodes@, earlier + seq![entry]);
    undoing_the_stores(state_of(before), before.topology.nodes@, earlier);
    undoing_in_turn(after.edge_embeddings@, earlier, seq![entry]);
    undoing_respects_lookups(back, stores, earlier);
}

/// A store without its index, where it loses a vector.
spec fn index_lost(store: StoreModel, edge: EdgeIndex) -> StoreModel {
    if holds(store, edge.slot) {
        unindexed(store)
    } else {
        store
    }
}

/// The stores with the vectors back in all but the first `count`.
spec fn vectors_back(entries: Seq<EntryModel<StoreModel>>, edge: EdgeIndex, count: int) -> Seq<
    EntryModel<StoreModel>,
> {
    Seq::new(
        entries.len(),
        |k: int|
            EntryModel {
                store: if k < count {
                    without_vector(entries[k].store, edge.slot)
                } else {
                    index_lost(entries[k].store, edge)
                },
                ..entries[k]
            },
    )
}

/// The stores with the indexes back in all but the first `count`.
spec fn indexes_back(entries: Seq<EntryModel<StoreModel>>, edge: EdgeIndex, count: int) -> Seq<
    EntryModel<StoreModel>,
> {
    Seq::new(
        entries.len(),
        |k: int|
            EntryModel {
                store: if k < count {
                    index_lost(entries[k].store, edge)
                } else {
                    entries[k].store
                },
                ..entries[k]
            },
    )
}

spec fn all_coherent(entries: Seq<EntryModel<StoreModel>>) -> bool {
    forall|i: int| 0 <= i < entries.len() ==> coherent((#[trigger] entries[i]).store)
}

/// Entries that differ only in their stores have the same distinct keys.
proof fn same_keys(
    entries: Seq<EntryModel<StoreModel>>,
    others: Seq<EntryModel<StoreModel>>,
    at: int,
)
    requires
        keys_distinct(entries),
        others.len() == entries.len(),
        0 <= at < entries.len(),
        forall|i: int|
            0 <= i < entries.len() ==> (#[trigger] others[i]).owner_type == entries[i].owner_type
                && others[i].name == entries[i].name,
    ensures
        keys_distinct(others),
        crate::catalog::entry_place(others, entries[at].owner_type, entries[at].name) == at,
{
    assert forall|i: int, j: int| 0 <= i < j < others.len() implies !((
    #[trigger] others[i]).owner_type == (#[trigger] others[j]).owner_type && others[i].name
        == others[j].name) by {
        assert(!(entries[i].owner_type == entries[j].owner_type && entries[i].name
            == entries[j].name));
    }
    place_of_entry(others, at);
}

proof fn vectors_undone(entries: Seq<EntryModel<StoreModel>>, edge: EdgeIndex, count: nat)
    requires
        keys_distinct(entries),
        all_coherent(entries),
        count <= entries.len(),
    ensures
        stores_after_undo(
            vectors_back(entries, edge, count as int),
            vector_entries(entries, edge, count),
        ) == vectors_back(entries, edge, 0),
    decreases count,
{
    if count > 0 {
        let at = count - 1;
        let now = vectors_back(entries, edge, count as int);
        let next = vectors_back(entries, edge, at);
        let store = entries[at].store;
        let list = vector_entries(entries, edge, count);
        vectors_undone(entries, edge, at as nat);
        if holds(store, edge.slot) {
            same_keys(entries, now, at);
            restoring_undoes_removing(store, edge.slot);
            assert(list.drop_last() =~= vector_entries(entries, edge, at as nat));
            assert(stores_undone(now, list.last()) =~= next);
        } else {
            assert(now =~= next);
        }
    }
}

proof fn indexes_undone(entries: Seq<EntryModel<StoreModel>>, edge: EdgeIndex, count: nat)
    requires
        keys_distinct(entries),
        all_coherent(entries),
        count <= entries.len(),
    ensures
        stores_after_undo(
            indexes_back(entries, edge, count as int),
            index_entries(entries, edge, count),
        ) == entries,
    decreases count,
{
    if count == 0 {
        assert(indexes_back(entries, edge, 0) =~= entries);
    } else {
        let at = count - 1;
        let now = indexes_back(entries, edge, count as int);
        let next = indexes_back(entries, edge, at);
        let store = entries[at].store;
        let list = index_entries(entries, edge, count);
        indexes_undone(entries, edge, at as nat);
        if holds(store, edge.slot) && store.index is Some {
            same_keys(entries, now, at);
            assert(list.drop_last() =~= index_entries(entries, edge, at as nat));
            assert(with_index_state(unindexed(store), index_state_of(store)) =~= store);
            assert(stores_undone(now, list.last()) =~= next);
        } else {
            assert(index_lost(store, edge) =~= store);
            assert(now =~= next);
        }
    }
}

/// Undoing the prune of a relationship's vectors gives every store back, in the
/// same order and with the same index.
pub proof fn a_prune_can_be_undone(entries: Seq<EntryModel<StoreModel>>, edge: EdgeIndex)
    requires
        keys_distinct(entries),
        forall|i: int| 0 <= i < entries.len() ==> coherent((#[trigger] entries[i]).store),
    ensures
        stores_after_undo(stores_without(entries, edge), prune_undo(entries, edge)) == entries,
{
    let count = entries.len();
    undoing_in_turn(
        stores_without(entries, edge),
        index_entries(entries, edge, count),
        vector_entries(entries, edge, count),
    );
    assert(stores_without(entries, edge) =~= vectors_back(entries, edge, count as int));
    vectors_undone(entries, edge, count);
    assert(vectors_back(entries, edge, 0) =~= indexes_back(entries, edge, count as int));
    indexes_undone(entries, edge, count);
}

/// `after` is `before` but for the cells of the owners in `slots`: those that
/// `before` holds may have changed, and the others stand after its own.
spec fn differs_within(before: StoreModel, after: StoreModel, slots: Set<usize>) -> bool {
    &&& coherent(after)
    &&& after.dimension == before.dimension
    &&& after.metric == before.metric
    &&& after.index == before.index
    &&& after.freshness.covered == before.freshness.covered
    &&& after.freshness.limit == before.freshness.limit
    &&& before.nodes.len() <= after.nodes.len()
    &&& forall|k: int|
        0 <= k < before.nodes.len() ==> #[trigger] after.nodes[k] == before.nodes[k]
    &&& forall|k: int|
        before.nodes.len() <= k < after.nodes.len() ==> slots.contains(#[trigger] after.nodes[k])
    &&& forall|k: int|
        0 <= k < before.nodes.len() && !slots.contains(#[trigger] before.nodes[k])
            ==> after.rows[k] == before.rows[k] && (after.freshness.changed.contains(k as usize)
            <==> before.freshness.changed.contains(k as usize))
    &&& forall|n: usize|
        !slots.contains(n) ==> #[trigger] hash_of(after, n) == hash_of(before, n)
}

/// Writing a vector of the dimension keeps a store coherent.
pub proof fn writing_keeps_coherent(store: StoreModel, node: usize, vector: Seq<u32>)
    requires
        coherent(store),
        vector.len() == store.dimension,
        holds(store, node) || store.nodes.len() < usize::MAX,
    ensures
        coherent(with_vector(store, node, vector)),
{
    let after = with_vector(store, node, vector);
    if holds(store, node) {
        assert(store.nodes[place_of(store, node)] == node);
    } else {
        assert forall|i: int, j: int|
            0 <= i < after.nodes.len() && 0 <= j < after.nodes.len() && i != j implies after.nodes[i]
            != after.nodes[j] by {
            if i == store.nodes.len() {
                assert(store.nodes[j] != node);
            } else if j == store.nodes.len() {
                assert(store.nodes[i] != node);
            }
        }
        assert forall|n: usize| #[trigger] after.hashes.contains_key(n) implies after.nodes.contains(
            n,
        ) by {
            assert(store.nodes.contains(n));
            assert(after.nodes[store.nodes.index_of(n)] == n);
        }
    }
}

proof fn manual_write_differs(
    before: StoreModel,
    after: StoreModel,
    slots: Set<usize>,
    edge: EdgeIndex,
    vector: Seq<u32>,
)
    requires
        coherent(before),
        differs_within(before, after, slots),
        vector.len() == before.dimension,
        holds(after, edge.slot) || after.nodes.len() < usize::MAX,
    ensures
        differs_within(before, with_manual(after, edge, vector), slots.insert(edge.slot)),
{
    let written = with_vector(after, edge.slot, vector);
    let next = with_manual(after, edge, vector);
    writing_keeps_coherent(after, edge.slot, vector);
    assert(next.nodes == written.nodes);
    assert(next.rows == written.rows);
    assert forall|n: usize| #[trigger] next.hashes.contains_key(n) implies next.nodes.contains(
        n,
    ) by {
        assert(written.hashes.contains_key(n));
    }
    if holds(after, edge.slot) {
        let place = place_of(after, edge.slot);
        assert(after.nodes[place] == edge.slot);
        assert forall|k: int|
            0 <= k < before.nodes.len() && !slots.insert(edge.slot).contains(
                #[trigger] before.nodes[k],
            ) implies next.rows[k] == before.rows[k] && (next.freshness.changed.contains(k as usize)
            <==> before.freshness.changed.contains(k as usize)) by {
            assert(after.nodes[k] == before.nodes[k]);
            assert(k != place);
        }
    }
    assert forall|n: usize| !slots.insert(edge.slot).contains(n) implies #[trigger] hash_of(next, n)
        == hash_of(before, n) by {
        assert(hash_of(after, n) == hash_of(before, n));
    }
}

proof fn manual_writes_differ(
    before: StoreModel,
    entries: Seq<(EdgeIndex, Seq<u32>)>,
    slots: Set<usize>,
    count: nat,
)
    requires
        coherent(before),
        count <= entries.len(),
        forall|i: int|
            0 <= i < entries.len() ==> (#[trigger] entries[i]).1.len() == before.dimension,
        before.nodes.len() + count <= usize::MAX,
    ensures
        differs_within(before, manual_writes(before, entries, slots, count), slots),
        manual_writes(before, entries, slots, count).nodes.len() <= before.nodes.len() + count,
        manual_writes(before, entries, slots, count).model_id == before.model_id,
    decreases count,
{
    if count > 0 {
        let so_far = manual_writes(before, entries, slots, (count - 1) as nat);
        manual_writes_differ(before, entries, slots, (count - 1) as nat);
        if slots.contains(entries[count - 1].0.slot) {
            manual_write_differs(
                before,
                so_far,
                slots,
                entries[count - 1].0,
                entries[count - 1].1,
            );
            assert(slots.insert(entries[count - 1].0.slot) =~= slots);
        }
    }
}

proof fn cell_undo_differs(
    before: StoreModel,
    after: StoreModel,
    slots: Set<usize>,
    slot: usize,
)
    requires
        coherent(before),
        differs_within(before, after, slots),
        slots.contains(slot),
    ensures
        differs_within(
            before,
            cell_undone(after, EdgeIndex { slot }, cell_kept(before, slot)),
            slots.remove(slot),
        ),
        cell_undone(after, EdgeIndex { slot }, cell_kept(before, slot)).model_id
            == after.model_id,
{
    let edge = EdgeIndex { slot };
    let next = cell_undone(after, edge, cell_kept(before, slot));
    let rest = slots.remove(slot);
    if holds(before, slot) {
        let place = place_of(before, slot);
        assert(before.nodes[place] == slot);
        assert(after.nodes[place] == slot);
        assert(after.nodes.contains(slot));
        assert(place_of(after, slot) == place) by {
            assert(after.nodes[place_of(after, slot)] == slot);
        }
        assert(before.rows[place].len() == before.dimension);
        assert(next.nodes == after.nodes);
        assert(next.rows == after.rows.update(place, before.rows[place]));
        assert forall|n: usize| #[trigger] next.hashes.contains_key(n) implies next.nodes.contains(
            n,
        ) by {
            if n != slot {
                assert(after.hashes.contains_key(n));
            }
        }
        assert forall|i: int| 0 <= i < next.rows.len() implies (#[trigger] next.rows[i]).len()
            == next.dimension by {}
        assert(next.freshness.changed.finite());
        assert forall|s: usize| #[trigger] next.freshness.changed.contains(s) implies s
            < next.freshness.covered by {
            if s != place {
                assert(after.freshness.changed.contains(s));
            }
        }
        if next.index is None {
            assert(after.freshness == uncovered(after.freshness.limit));
            assert(!before.freshness.changed.contains(place as usize));
            assert(next.freshness.changed =~= Set::<usize>::empty());
        }
        assert(coherent(next));
        assert forall|k: int|
            0 <= k < before.nodes.len() && !rest.contains(#[trigger] before.nodes[k]) implies next.rows[k]
            == before.rows[k] && (next.freshness.changed.contains(k as usize)
            <==> before.freshness.changed.contains(k as usize)) by {
            if k != place {
                assert(before.nodes[k] != slot);
                assert(!slots.contains(before.nodes[k]));
            }
        }
        assert forall|k: int| before.nodes.len() <= k < next.nodes.len() implies rest.contains(
            #[trigger] next.nodes[k],
        ) by {
            assert(after.nodes[k] != after.nodes[place]);
        }
        assert forall|n: usize| !rest.contains(n) implies #[trigger] hash_of(
            next,
            n,
        ) == hash_of(before, n) by {
            if n != slot {
                assert(hash_of(after, n) == hash_of(before, n));
            }
        }
    } else if holds(after, slot) {
        let place = place_of(after, slot);
        let last = after.nodes.len() - 1;
        assert(after.nodes[place] == slot);
        assert(place >= before.nodes.len()) by {
            if place < before.nodes.len() {
                assert(before.nodes[place] == slot);
            }
        }
        assert(next == (StoreModel {
            nodes: crate::store::tail_swapped(after.nodes, place),
            rows: crate::store::tail_swapped(after.rows, place),
            hashes: after.hashes.remove(slot),
            ..after
        }));
        let from = |k: int| if k == place { last } else { k };
        assert forall|k: int| 0 <= k < last implies #[trigger] next.nodes[k] == after.nodes[from(k)]
            && next.rows[k] == after.rows[from(k)] by {}
        assert(next.nodes.no_duplicates()) by {
            assert forall|i: int, j: int|
                0 <= i < next.nodes.len() && 0 <= j < next.nodes.len() && i != j implies next.nodes[i]
                != next.nodes[j] by {
                assert(next.nodes[i] == after.nodes[from(i)]);
                assert(next.nodes[j] == after.nodes[from(j)]);
            }
        }
        assert forall|n: usize| #[trigger] next.hashes.contains_key(n) implies next.nodes.contains(
            n,
        ) by {
            assert(after.hashes.contains_key(n));
            let j = after.nodes.index_of(n);
            assert(after.nodes[j] == n);
            let k = if j == last { place } else { j };
            assert(next.nodes[k] == after.nodes[from(k)]);
        }
        assert forall|i: int| 0 <= i < next.rows.len() implies (#[trigger] next.rows[i]).len()
            == next.dimension by {
            assert(next.nodes[i] == after.nodes[from(i)]);
        }
        assert(coherent(next));
        assert forall|k: int| 0 <= k < before.nodes.len() implies #[trigger] next.nodes[k]
            == before.nodes[k] by {
            assert(next.nodes[k] == after.nodes[from(k)]);
        }
        assert forall|k: int| before.nodes.len() <= k < next.nodes.len() implies rest.contains(
            #[trigger] next.nodes[k],
        ) by {
            assert(next.nodes[k] == after.nodes[from(k)]);
            assert(after.nodes[from(k)] != after.nodes[place]);
        }
        assert forall|k: int|
            0 <= k < before.nodes.len() && !rest.contains(#[trigger] before.nodes[k]) implies next.rows[k]
            == before.rows[k] && (next.freshness.changed.contains(k as usize)
            <==> before.freshness.changed.contains(k as usize)) by {
            assert(before.nodes[k] != slot);
            assert(!slots.contains(before.nodes[k]));
            assert(next.nodes[k] == after.nodes[from(k)]);
        }
        assert forall|n: usize| !rest.contains(n) implies #[trigger] hash_of(
            next,
            n,
        ) == hash_of(before, n) by {
            if n == slot {
                assert(!before.hashes.contains_key(n));
            } else {
                assert(!slots.contains(n));
                assert(hash_of(after, n) == hash_of(before, n));
            }
        }
    } else {
        assert(next == after);
        assert forall|k: int| before.nodes.len() <= k < next.nodes.len() implies rest.contains(
            #[trigger] next.nodes[k],
        ) by {
            assert(after.nodes.contains(after.nodes[k]));
        }
        assert forall|k: int|
            0 <= k < before.nodes.len() && !rest.contains(#[trigger] before.nodes[k]) implies next.rows[k]
            == before.rows[k] && (next.freshness.changed.contains(k as usize)
            <==> before.freshness.changed.contains(k as usize)) by {
            assert(before.nodes.contains(before.nodes[k]));
        }
        assert forall|n: usize| !rest.contains(n) implies #[trigger] hash_of(
            next,
            n,
        ) == hash_of(before, n) by {
            if n == slot {
                assert(!before.hashes.contains_key(n));
                assert(!after.hashes.contains_key(n));
            } else {
                assert(!slots.contains(n));
            }
        }
    }
}

/// A store that differs within no cell is the same store, but for its model.
proof fn no_difference(before: StoreModel, after: StoreModel)
    requires
        coherent(before),
        differs_within(before, after, Set::empty()),
    ensures
        after == (StoreModel { model_id: after.model_id, ..before }),
{
    assert(after.nodes.len() == before.nodes.len()) by {
        if after.nodes.len() > before.nodes.len() {
            assert(Set::<usize>::empty().contains(after.nodes[before.nodes.len() as int]));
        }
    }
    assert(after.nodes =~= before.nodes);
    assert forall|k: int| 0 <= k < before.nodes.len() implies after.rows[k] == before.rows[k] by {
        assert(!Set::<usize>::empty().contains(before.nodes[k]));
    }
    assert(after.rows =~= before.rows);
    assert forall|n: usize| #[trigger] after.hashes.contains_key(n) <==> before.hashes.contains_key(
        n,
    ) by {
        assert(hash_of(after, n) == hash_of(before, n));
    }
    assert forall|n: usize| #[trigger] after.hashes.contains_key(n) implies after.hashes[n]
        == before.hashes[n] by {
        assert(hash_of(after, n) == hash_of(before, n));
    }
    assert(after.hashes =~= before.hashes);
    assert forall|s: usize|
        after.freshness.changed.contains(s) <==> before.freshness.changed.contains(s) by {
        if s < before.nodes.len() {
            assert(!Set::<usize>::empty().contains(before.nodes[s as int]));
        }
    }
    assert(after.freshness.changed =~= before.freshness.changed);
    assert(after =~= StoreModel { model_id: after.model_id, ..before });
}

proof fn cells_undone(
    stores: Seq<EntryModel<StoreModel>>,
    t: Text,
    n: Text,
    before: StoreModel,
    after: StoreModel,
    slots: Seq<usize>,
)
    requires
        coherent(before),
        slots.no_duplicates(),
        differs_within(before, after, slots.to_set()),
    ensures
        stores_after_undo(
            with_entry(stores, t, n, after),
            cell_entries(t, n, before, slots),
        ) == with_entry(stores, t, n, StoreModel { model_id: after.model_id, ..before }),
    decreases slots.len(),
{
    let entries = cell_entries(t, n, before, slots);
    if slots.len() == 0 {
        assert(slots.to_set() =~= Set::<usize>::empty());
        no_difference(before, after);
    } else {
        let slot = slots.last();
        let rest = slots.drop_last();
        let edge = EdgeIndex { slot };
        let next = cell_undone(after, edge, cell_kept(before, slot));
        assert(slots.to_set().contains(slot));
        cell_undo_differs(before, after, slots.to_set(), slot);
        assert(slots.to_set().remove(slot) =~= rest.to_set()) by {
            assert forall|x: usize|
                slots.to_set().remove(slot).contains(x) <==> rest.to_set().contains(x) by {
                if slots.contains(x) && x != slot {
                    let k = slots.index_of(x);
                    assert(slots[k] == x);
                    assert(rest[k] == x);
                }
                if rest.contains(x) {
                    let k = rest.index_of(x);
                    assert(rest[k] == x);
                    assert(slots[k] == x);
                    assert(slots[k] != slots[slots.len() - 1]);
                }
            }
        }
        kept_twice(stores, t, n, after, next);
        assert(entries.drop_last() =~= cell_entries(t, n, before, rest));
        assert(entries.last() == UndoModel::EdgeEmbeddingCellReplaced {
            conn_type: t,
            name: n,
            edge,
            prior: cell_kept(before, slot),
        });
        cells_undone(stores, t, n, before, next, rest);
    }
}

/// The changed slots of a batch are in its list.
proof fn changed_are_ascending(
    existing: Option<StoreModel>,
    entries: Seq<(EdgeIndex, Seq<u32>)>,
    count: int,
) -> (slots: Seq<usize>)
    requires
        0 <= count <= entries.len(),
    ensures
        ascends(slots, number_order()),
        slots.to_set() == changed_slots(existing, entries, count),
        slots.no_duplicates(),
        ascending(changed_slots(existing, entries, count), number_order()) == slots,
    decreases count,
{
    let set = changed_slots(existing, entries, count);
    if count == 0 {
        let slots = Seq::<usize>::empty();
        assert(slots.to_set() =~= set);
        ascending_of_items(slots, number_order());
        slots
    } else {
        let before = changed_are_ascending(existing, entries, count - 1);
        let old_set = changed_slots(existing, entries, count - 1);
        let item = entries[count - 1];
        let slot = item.0.slot;
        if crate::edge_writes::cell_changes(existing, item.0, item.1) && !before.contains(slot) {
            let at = first_not_below(before, slot, 0);
            crate::order::ascends_with(before, at, slot, number_order());
            let slots = before.insert(at, slot);
            assert(set =~= old_set.insert(slot)) by {
                assert forall|s: usize| set.contains(s) <==> old_set.insert(slot).contains(s) by {
                    if s == slot {
                        assert(entries[count - 1].0.slot == s);
                    }
                }
            }
            ascending_of_items(slots, number_order());
            slots
        } else {
            assert(set =~= old_set) by {
                assert forall|s: usize| set.contains(s) <==> old_set.contains(s) by {
                    if set.contains(s) && s == slot && !old_set.contains(s) {
                        let i = choose|i: int|
                            0 <= i < count && (#[trigger] entries[i]).0.slot == s
                                && crate::edge_writes::cell_changes(
                                existing,
                                entries[i].0,
                                entries[i].1,
                            );
                        assert(i == count - 1);
                        assert(before.contains(slot));
                        assert(before.to_set().contains(slot));
                    }
                }
            }
            before
        }
    }
}

proof fn first_not_below(items: Seq<usize>, item: usize, from: int) -> (at: int)
    requires
        ascends(items, number_order()),
        !items.contains(item),
        0 <= from <= items.len(),
        forall|k: int| 0 <= k < from ==> (#[trigger] items[k]) < item,
    ensures
        0 <= at <= items.len(),
        forall|k: int| 0 <= k < at ==> (#[trigger] items[k]) < item,
        at < items.len() ==> item < items[at],
    decreases items.len() - from,
{
    if from == items.len() {
        from
    } else if items[from] < item {
        first_not_below(items, item, from + 1)
    } else {
        assert(items[from] != item) by {
            assert(items.contains(items[from]));
        }
        from
    }
}

/// Undoing a batch of manual writes gives the stores back: the vectors in the
/// same order, the text hashes, the model, the metric and what the index
/// covers; and a store that the batch created is gone.
pub proof fn an_upsert_can_be_undone(
    before: DirGraph,
    after: DirGraph,
    connection_type: Text,
    text_property: Text,
    entries: Seq<(EdgeIndex, Seq<u32>)>,
    metric: Option<Text>,
    report: EdgeEmbeddingWriteReport,
)
    requires
        before.well_formed(),
        undo_of(before) is Some,
        entries.len() > 0,
        entries_sound(
            before.topology,
            connection_type,
            entries,
            crate::edge_writes::upsert_dimension(
                lookup(before.edge_embeddings@, connection_type, store_name_of(text_property)),
                entries,
            ),
        ),
        upsert_done(before, after, connection_type, text_property, entries, metric, report),
        match lookup(before.edge_embeddings@, connection_type, store_name_of(text_property)) {
            Some(store) => store.nodes.len() + entries.len() <= usize::MAX,
            None => true,
        },
    ensures
        stores_found(after) == stores_found(before),
{
    let name = store_name_of(text_property);
    let stores = before.edge_embeddings@;
    let existing = lookup(stores, connection_type, name);
    let count = entries.len() as int;
    let changed = changed_slots(existing, entries, count);
    if changed.is_empty() && !stamps_metric(existing, metric) {
        assert(after == before);
    } else {
        let store = upserted(existing, entries, metric);
        let journal = upsert_undo(connection_type, name, existing, entries, metric);
        if existing is None || stamps_metric(existing, metric) {
            let entry = journal[0];
            assert(journal.drop_last() =~= Seq::<UndoModel>::empty());
            assert(stores_after_undo(after.edge_embeddings@, journal) == stores_after_undo(
                stores_undone(after.edge_embeddings@, entry),
                Seq::<UndoModel>::empty(),
            ));
            if existing is None {
                dropping_a_fresh_entry(stores, connection_type, name, store);
            } else {
                kept_twice(stores, connection_type, name, store, existing->0);
                kept_again(stores, connection_type, name);
            }
        } else {
            let base = existing->0;
            kept_store_is_coherent(before, connection_type, name);
            let written = manual_writes(base, entries, changed, entries.len());
            assert forall|i: int| 0 <= i < entries.len() implies (#[trigger] entries[i]).1.len()
                == base.dimension by {}
            manual_writes_differ(base, entries, changed, entries.len());
            assert(store == StoreModel { model_id: None, ..written });
            assert(differs_within(base, store, changed)) by {
                assert(coherent(store));
                assert forall|n: usize| !changed.contains(n) implies #[trigger] hash_of(store, n)
                    == hash_of(base, n) by {
                    assert(hash_of(written, n) == hash_of(base, n));
                }
            }
            let slots = changed_are_ascending(existing, entries, count);
            let cells = cell_entries(connection_type, name, base, slots);
            let model = model_entry(connection_type, name, base);
            undoing_in_turn(after.edge_embeddings@, model, cells);
            cells_undone(stores, connection_type, name, base, store, slots);
            let bare = StoreModel { model_id: None, ..base };
            let restored = with_entry(stores, connection_type, name, bare);
            assert(stores_after_undo(after.edge_embeddings@, cells) == restored);
            kept_again(stores, connection_type, name);
            kept_twice(stores, connection_type, name, bare, base);
            if base.model_id is Some {
                assert(model.drop_last() =~= Seq::<UndoModel>::empty());
                assert(stores_after_undo(restored, model) == stores_after_undo(
                    stores_undone(restored, model.last()),
                    Seq::<UndoModel>::empty(),
                ));
                assert(StoreModel { model_id: base.model_id, ..bare } == base);
            } else {
                assert(bare == base);
            }
        }
        undone_alone(before, after, journal);
    }
}

/// Undoing the build of an index gives the stores back, the metric included.
pub proof fn a_build_can_be_undone(
    before: DirGraph,
    after: DirGraph,
    connection_type: Text,
    text_property: Text,
    options: OptionsModel,
)
    requires
        before.well_formed(),
        undo_of(before) is Some,
        build_fault(
            lookup(before.edge_embeddings@, connection_type, store_name_of(text_property)),
            connection_type,
            text_property,
            options,
        ) is None,
        build_done(before, after, connection_type, text_property, options),
    ensures
        stores_found(after) == stores_found(before),
{
    let name = store_name_of(text_property);
    let stores = before.edge_embeddings@;
    let store = lookup(stores, connection_type, name)->0;
    let built = indexed_store(store, options);
    let journal = build_undo(connection_type, name, store, options);
    let entry = journal.last();
    let rest = journal.drop_last();
    kept_store_is_coherent(before, connection_type, name);
    let back = with_index_state(built, index_state_of(store));
    kept_twice(stores, connection_type, name, built, back);
    assert(stores_undone(after.edge_embeddings@, entry) == with_entry(
        stores,
        connection_type,
        name,
        back,
    ));
    kept_again(stores, connection_type, name);
    assert(stores_after_undo(after.edge_embeddings@, journal) == stores_after_undo(
        stores_undone(after.edge_embeddings@, entry),
        rest,
    ));
    if options.metric is Some && store.metric != options.metric {
        kept_twice(stores, connection_type, name, back, store);
        assert(rest.last() == UndoModel::EdgeEmbeddingStoreReplaced {
            conn_type: connection_type,
            name,
            prior: Some(store),
        });
        assert(rest.drop_last() =~= Seq::<UndoModel>::empty());
        let middle = with_entry(stores, connection_type, name, back);
        assert(stores_after_undo(middle, rest) == stores_after_undo(
            stores_undone(middle, rest.last()),
            rest.drop_last(),
        ));
    } else {
        assert(rest =~= Seq::<UndoModel>::empty());
        assert(back == store);
    }
    undone_alone(before, after, journal);
}

/// Undoing the drop of an index gives the index back.
pub proof fn an_index_drop_can_be_undone(
    before: DirGraph,
    after: DirGraph,
    connection_type: Text,
    text_property: Text,
)
    requires
        before.well_formed(),
        undo_of(before) is Some,
        kept(before.edge_embeddings@, connection_type, store_name_of(text_property)),
        index_drop_done(before, after, connection_type, text_property),
    ensures
        stores_found(after) == stores_found(before),
{
    let name = store_name_of(text_property);
    let stores = before.edge_embeddings@;
    let store = lookup(stores, connection_type, name)->0;
    let journal = seq![
        UndoModel::EdgeVectorIndexReplaced {
            conn_type: connection_type,
            name,
            prior: index_state_of(store),
        },
    ];
    kept_store_is_coherent(before, connection_type, name);
    assert(journal.drop_last() =~= Seq::<UndoModel>::empty());
    kept_twice(stores, connection_type, name, unindexed(store), store);
    kept_again(stores, connection_type, name);
    assert(with_index_state(unindexed(store), index_state_of(store)) == store);
    assert(stores_after_undo(after.edge_embeddings@, journal) == stores_after_undo(
        stores_undone(after.edge_embeddings@, journal.last()),
        journal.drop_last(),
    ));
    undone_alone(before, after, journal);
}

} // verus!
