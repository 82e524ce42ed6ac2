//! What holds of text indexes across writes: an index that is brought up to date
//! is the index that would be built.

use crate::catalog::{
    a_dropped_store_is_gone, a_kept_store_is_found, dropping_a_fresh_entry, entry_place,
    keys_distinct, kept, lookup, place_is_first, place_of_entry, with_entry, without_entry,
    EntryModel,
};
use crate::edge_delete::{
    delete_undo, document_entries, index_entries, indexes_without, prune_undo, stores_without,
    vector_entries,
};
use crate::edge_text_indexes::{
    delta_slots, folded, text_built, text_index_replaced, text_refreshed, texts_written,
};
use crate::freshness::{outstanding, touched};
use crate::graph::{undo_of, DirGraph};
use crate::relationship_writes::with_relationship;
use crate::recording::UndoModel;
use crate::statement::{
    fitted, state_of, texts_touched, undo_step, undoing_the_stores, undone, StateModel,
};
use crate::store::{coherent, StoreModel};
use crate::undo_laws::{a_prune_can_be_undone, kept_again, kept_twice};
use crate::text::Text;
use crate::text_documents::{all_documents, slot_document};
use crate::text_index::TextStoreModel;
use crate::topology::{property_in, EdgeData, EdgeRecord, NodeData, Property};
use crate::value::EdgeIndex;
use vstd::prelude::*;

verus! {

/// Whether an index has the document of a slot as it is.
pub open spec fn has_document(
    store: TextStoreModel,
    edges: Seq<Option<EdgeRecord>>,
    rel_type: Text,
    slot: usize,
) -> bool {
    match slot_document(edges, slot as int, rel_type, store.field) {
        Some(text) => store.docs.contains_key(slot) && store.docs[slot] == text,
        None => !store.docs.contains_key(slot),
    }
}

/// An index has every document as it is, but for the slots that it is to read
/// again.
pub open spec fn honest(
    store: TextStoreModel,
    edges: Seq<Option<EdgeRecord>>,
    rel_type: Text,
) -> bool {
    &&& store.freshness.covered <= edges.len()
    &&& store.freshness.changed.finite()
    &&& forall|s: usize|
        !delta_slots(store.freshness, edges.len()).contains(s) ==> #[trigger] has_document(
            store,
            edges,
            rel_type,
            s,
        )
}

/// Every index is honest, and reads the property it is named after.
pub open spec fn all_honest(
    texts: Seq<EntryModel<TextStoreModel>>,
    edges: Seq<Option<EdgeRecord>>,
) -> bool {
    forall|i: int|
        0 <= i < texts.len() ==> honest((#[trigger] texts[i]).store, edges, texts[i].owner_type)
            && texts[i].store.field == texts[i].name
}

/// An index that is brought up to date has exactly the documents that a new
/// index would have, and nothing is left to read.
pub proof fn a_refreshed_index_is_a_rebuilt_one(
    store: TextStoreModel,
    edges: Seq<Option<EdgeRecord>>,
    rel_type: Text,
)
    requires
        edges.len() <= usize::MAX,
        honest(store, edges, rel_type),
    ensures
        text_refreshed(store, edges, rel_type).docs == all_documents(
            edges,
            rel_type,
            store.field,
        ),
        outstanding(text_refreshed(store, edges, rel_type).freshness, edges.len()) == 0,
        honest(text_refreshed(store, edges, rel_type), edges, rel_type),
{
    let after = text_refreshed(store, edges, rel_type);
    let delta = delta_slots(store.freshness, edges.len());
    let all = all_documents(edges, rel_type, store.field);
    if outstanding(store.freshness, edges.len()) == 0 {
        assert(store.freshness.changed =~= Set::empty());
        assert(delta =~= Set::empty());
        assert forall|s: usize| all.contains_key(s) <==> store.docs.contains_key(s) by {
            assert(has_document(store, edges, rel_type, s));
        }
        assert forall|s: usize| all.contains_key(s) implies all[s] == store.docs[s] by {
            assert(has_document(store, edges, rel_type, s));
        }
        assert(store.docs =~= all);
    } else {
        let some = folded(store.docs, edges, rel_type, store.field, delta);
        assert forall|s: usize| all.contains_key(s) <==> some.contains_key(s) by {
            if !delta.contains(s) {
                assert(has_document(store, edges, rel_type, s));
            }
        }
        assert forall|s: usize| all.contains_key(s) implies all[s] == some[s] by {
            if !delta.contains(s) {
                assert(has_document(store, edges, rel_type, s));
            }
        }
        assert(some =~= all);
    }
    assert forall|s: usize| !delta_slots(after.freshness, edges.len()).contains(s) implies
        #[trigger] has_document(after, edges, rel_type, s) by {
        assert(all.contains_key(s) <==> slot_document(edges, s as int, rel_type, store.field)
            is Some);
    }
}

/// A new index is honest.
pub proof fn a_built_index_is_honest(
    graph: DirGraph,
    rel_type: Text,
    property: Text,
    limit: Option<usize>,
)
    requires
        graph.topology.edges@.len() <= usize::MAX,
    ensures
        honest(
            text_built(graph, rel_type, property, limit),
            graph.topology.edges@,
            rel_type,
        ),
{
    let store = text_built(graph, rel_type, property, limit);
    let edges = graph.topology.edges@;
    assert forall|s: usize| !delta_slots(store.freshness, edges.len()).contains(s) implies
        #[trigger] has_document(store, edges, rel_type, s) by {
        assert(store.docs.contains_key(s) <==> slot_document(edges, s as int, rel_type, property)
            is Some);
    }
}

/// Making a relationship leaves every index honest: an index of its type reads
/// the slot again.
pub proof fn making_a_relationship_keeps_indexes_honest(
    texts: Seq<EntryModel<TextStoreModel>>,
    edges: Seq<Option<EdgeRecord>>,
    vacant: Seq<usize>,
    record: EdgeRecord,
)
    requires
        edges.len() < usize::MAX,
        all_honest(texts, edges),
        vacant.len() > 0 ==> vacant.last() < edges.len() && edges[vacant.last() as int] is None,
    ensures
        all_honest(
            texts_touched(
                texts,
                record.data.connection_type@,
                if vacant.len() > 0 {
                    vacant.last()
                } else {
                    edges.len() as usize
                },
            ),
            with_relationship(edges, vacant, record),
        ),
{
    let slot = if vacant.len() > 0 {
        vacant.last()
    } else {
        edges.len() as usize
    };
    let made = with_relationship(edges, vacant, record);
    let after = texts_touched(texts, record.data.connection_type@, slot);
    assert forall|i: int| 0 <= i < after.len() implies honest(
        (#[trigger] after[i]).store,
        made,
        after[i].owner_type,
    ) && after[i].store.field == after[i].name by {
        let before = texts[i];
        assert(honest(before.store, edges, before.owner_type));
        assert forall|s: usize|
            !delta_slots(after[i].store.freshness, made.len()).contains(s) implies
            #[trigger] has_document(after[i].store, made, after[i].owner_type, s) by {
            assert(has_document(before.store, edges, before.owner_type, s)) by {
                assert(!delta_slots(before.store.freshness, edges.len()).contains(s));
            }
            if s == slot {
                assert(slot_document(edges, s as int, before.owner_type, before.store.field)
                    is None);
                if before.owner_type == record.data.connection_type@ {
                    assert(delta_slots(after[i].store.freshness, made.len()).contains(s));
                }
            } else {
                assert(slot_document(made, s as int, before.owner_type, before.store.field)
                    == slot_document(edges, s as int, before.owner_type, before.store.field));
            }
        }
    }
}

/// Deleting a relationship leaves every index honest: its documents go with it,
/// and nothing is to be read again for it.
pub proof fn deleting_a_relationship_keeps_indexes_honest(
    texts: Seq<EntryModel<TextStoreModel>>,
    edges: Seq<Option<EdgeRecord>>,
    edge: EdgeIndex,
)
    requires
        edge.slot < edges.len(),
        all_honest(texts, edges),
    ensures
        all_honest(indexes_without(texts, edge), edges.update(edge.slot as int, None)),
        forall|i: int|
            0 <= i < texts.len() ==> outstanding(
                (#[trigger] indexes_without(texts, edge)[i]).store.freshness,
                edges.len(),
            ) == outstanding(texts[i].store.freshness, edges.len()),
{
    let after = indexes_without(texts, edge);
    let left = edges.update(edge.slot as int, None);
    assert forall|i: int| 0 <= i < after.len() implies honest(
        (#[trigger] after[i]).store,
        left,
        after[i].owner_type,
    ) && after[i].store.field == after[i].name by {
        let before = texts[i];
        assert(honest(before.store, edges, before.owner_type));
        assert forall|s: usize|
            !delta_slots(after[i].store.freshness, left.len()).contains(s) implies
            #[trigger] has_document(after[i].store, left, after[i].owner_type, s) by {
            assert(has_document(before.store, edges, before.owner_type, s)) by {
                assert(!delta_slots(before.store.freshness, edges.len()).contains(s));
            }
            if s != edge.slot {
                assert(slot_document(left, s as int, before.owner_type, before.store.field)
                    == slot_document(edges, s as int, before.owner_type, before.store.field));
            }
        }
    }
}

/// The relationship in a slot with other properties.
pub open spec fn with_properties(
    edges: Seq<Option<EdgeRecord>>,
    edge: EdgeIndex,
    properties: Vec<Property>,
) -> Seq<Option<EdgeRecord>> {
    let record = edges[edge.slot as int]->0;
    edges.update(
        edge.slot as int,
        Some(EdgeRecord { data: EdgeData { properties, ..record.data }, ..record }),
    )
}

/// Writing a property of a relationship leaves every index honest: an index of
/// the property reads the slot again, and an index of another property is as
/// current as it was.
pub proof fn writing_a_property_keeps_indexes_honest(
    texts: Seq<EntryModel<TextStoreModel>>,
    edges: Seq<Option<EdgeRecord>>,
    edge: EdgeIndex,
    properties: Vec<Property>,
    field: Option<Text>,
)
    requires
        edge.slot < edges.len(),
        edges[edge.slot as int] is Some,
        all_honest(texts, edges),
        field is Some ==> forall|name: Text|
            name != field->0 ==> #[trigger] property_in(properties@, name) == property_in(
                edges[edge.slot as int]->0.data.properties@,
                name,
            ),
    ensures
        all_honest(
            texts_written(
                texts,
                edges[edge.slot as int]->0.data.connection_type@,
                field,
                edge.slot,
            ),
            with_properties(edges, edge, properties),
        ),
{
    let record = edges[edge.slot as int]->0;
    let rel_type = record.data.connection_type@;
    let after = texts_written(texts, rel_type, field, edge.slot);
    let written = with_properties(edges, edge, properties);
    assert forall|i: int| 0 <= i < after.len() implies honest(
        (#[trigger] after[i]).store,
        written,
        after[i].owner_type,
    ) && after[i].store.field == after[i].name by {
        let before = texts[i];
        assert(honest(before.store, edges, before.owner_type));
        assert forall|s: usize|
            !delta_slots(after[i].store.freshness, written.len()).contains(s) implies
            #[trigger] has_document(after[i].store, written, after[i].owner_type, s) by {
            assert(has_document(before.store, edges, before.owner_type, s)) by {
                assert(!delta_slots(before.store.freshness, edges.len()).contains(s));
            }
            if s == edge.slot {
                if before.owner_type == rel_type && (field is None || before.name == field->0) {
                    assert(delta_slots(after[i].store.freshness, written.len()).contains(s));
                } else if before.owner_type == rel_type {
                    assert(property_in(properties@, before.name) == property_in(
                        record.data.properties@,
                        before.name,
                    ));
                }
            } else {
                assert(slot_document(written, s as int, before.owner_type, before.store.field)
                    == slot_document(edges, s as int, before.owner_type, before.store.field));
            }
        }
    }
}

proof fn undone_in_turn(
    state: StateModel,
    nodes: Seq<Option<NodeData>>,
    earlier: Seq<UndoModel>,
    later: Seq<UndoModel>,
)
    ensures
        undone(state, nodes, earlier + later) == undone(
            undone(state, nodes, later),
            nodes,
            earlier,
        ),
    decreases later.len(),
{
    if later.len() == 0 {
        assert(earlier + later =~= earlier);
    } else {
        assert((earlier + later).last() == later.last());
        assert((earlier + later).drop_last() =~= earlier + later.drop_last());
        undone_in_turn(undo_step(state, nodes, later.last()), nodes, earlier, later.drop_last());
    }
}

/// An entry that puts back vectors alone.
spec fn of_vectors(entry: UndoModel) -> bool {
    entry is EdgeVectorIndexReplaced || entry is EdgeEmbeddingRemoved
}

proof fn vectors_alone(
    state: StateModel,
    nodes: Seq<Option<NodeData>>,
    entries: Seq<UndoModel>,
)
    requires
        forall|i: int| 0 <= i < entries.len() ==> of_vectors(#[trigger] entries[i]),
    ensures
        undone(state, nodes, entries).texts == state.texts,
        undone(state, nodes, entries).edges == state.edges,
        undone(state, nodes, entries).vacant == state.vacant,
    decreases entries.len(),
{
    if entries.len() > 0 {
        assert(of_vectors(entries[entries.len() - 1]));
        vectors_alone(undo_step(state, nodes, entries.last()), nodes, entries.drop_last());
    }
}

proof fn pruned_vectors_alone(entries: Seq<EntryModel<StoreModel>>, edge: EdgeIndex, count: nat)
    requires
        count <= entries.len(),
    ensures
        forall|i: int|
            0 <= i < index_entries(entries, edge, count).len() ==> of_vectors(
                #[trigger] index_entries(entries, edge, count)[i],
            ),
        forall|i: int|
            0 <= i < vector_entries(entries, edge, count).len() ==> of_vectors(
                #[trigger] vector_entries(entries, edge, count)[i],
            ),
    decreases count,
{
    if count > 0 {
        pruned_vectors_alone(entries, edge, (count - 1) as nat);
        let indexes = index_entries(entries, edge, (count - 1) as nat);
        let vectors = vector_entries(entries, edge, (count - 1) as nat);
        let all_indexes = index_entries(entries, edge, count);
        let all_vectors = vector_entries(entries, edge, count);
        assert forall|i: int| 0 <= i < all_indexes.len() implies of_vectors(
            #[trigger] all_indexes[i],
        ) by {
            if i < indexes.len() {
                assert(all_indexes[i] == indexes[i]);
            }
        }
        assert forall|i: int| 0 <= i < all_vectors.len() implies of_vectors(
            #[trigger] all_vectors[i],
        ) by {
            if i < vectors.len() {
                assert(all_vectors[i] == vectors[i]);
            }
        }
    }
}

/// The indexes with the slot of each document that was pruned, among the first
/// `count`, to be read again.
pub open spec fn pruned_touched(
    entries: Seq<EntryModel<TextStoreModel>>,
    texts: Seq<EntryModel<TextStoreModel>>,
    edge: EdgeIndex,
    count: int,
) -> Seq<EntryModel<TextStoreModel>> {
    Seq::new(
        texts.len(),
        |i: int|
            if i < count && entries[i].store.docs.contains_key(edge.slot) {
                EntryModel {
                    store: TextStoreModel {
                        freshness: touched(texts[i].store.freshness, edge.slot),
                        ..texts[i].store
                    },
                    ..texts[i]
                }
            } else {
                texts[i]
            },
    )
}

proof fn documents_undone(
    entries: Seq<EntryModel<TextStoreModel>>,
    state: StateModel,
    nodes: Seq<Option<NodeData>>,
    edge: EdgeIndex,
    count: nat,
)
    requires
        keys_distinct(entries),
        count <= entries.len(),
        state.texts.len() == entries.len(),
        forall|i: int|
            0 <= i < entries.len() ==> (#[trigger] state.texts[i]).owner_type
                == entries[i].owner_type && state.texts[i].name == entries[i].name,
    ensures
        undone(state, nodes, document_entries(entries, edge, count)) == (StateModel {
            texts: pruned_touched(entries, state.texts, edge, count as int),
            ..state
        }),
    decreases count,
{
    if count == 0 {
        assert(pruned_touched(entries, state.texts, edge, 0) =~= state.texts);
    } else {
        let at = count - 1;
        let list = document_entries(entries, edge, count);
        if entries[at].store.docs.contains_key(edge.slot) {
            assert(list.drop_last() =~= document_entries(entries, edge, at as nat));
            assert(list.last() == UndoModel::EdgeTextDocPruned {
                conn_type: entries[at].owner_type,
                name: entries[at].name,
                edge,
            });
            assert forall|i: int, j: int| 0 <= i < j < state.texts.len() implies !((
            #[trigger] state.texts[i]).owner_type == (#[trigger] state.texts[j]).owner_type
                && state.texts[i].name == state.texts[j].name) by {
                assert(!(entries[i].owner_type == entries[j].owner_type && entries[i].name
                    == entries[j].name));
            }
            place_of_entry(state.texts, at);
            assert(state.texts[at].owner_type == entries[at].owner_type);
            let next = undo_step(state, nodes, list.last());
            let marked = EntryModel {
                store: TextStoreModel {
                    freshness: touched(state.texts[at].store.freshness, edge.slot),
                    ..state.texts[at].store
                },
                ..state.texts[at]
            };
            assert(next.texts =~= state.texts.update(at, marked));
            documents_undone(entries, next, nodes, edge, at as nat);
            assert(pruned_touched(entries, next.texts, edge, at) =~= pruned_touched(
                entries,
                state.texts,
                edge,
                count as int,
            ));
            assert(next.edges == state.edges && next.vacant == state.vacant && next.stores
                == state.stores);
        } else {
            documents_undone(entries, state, nodes, edge, at as nat);
            assert(pruned_touched(entries, state.texts, edge, at) =~= pruned_touched(
                entries,
                state.texts,
                edge,
                count as int,
            ));
        }
    }
}

/// The state with a relationship deleted.
pub open spec fn state_without(graph: DirGraph, edge: EdgeIndex) -> StateModel {
    StateModel {
        stores: stores_without(graph.edge_embeddings@, edge),
        texts: indexes_without(graph.edge_text_indexes@, edge),
        edges: graph.topology.edges@.update(edge.slot as int, None),
        vacant: graph.topology.vacant@.push(edge.slot),
    }
}

/// A delete that is rolled back leaves nothing behind: the relationship and
/// every vector and vector index is back as it was, and every text index is
/// honest, so that its next refresh has the document again.
pub proof fn a_delete_can_be_undone(graph: DirGraph, edge: EdgeIndex)
    requires
        graph.well_formed(),
        graph.topology.live(edge),
        all_honest(graph.edge_text_indexes@, graph.topology.edges@),
    ensures
        ({
            let back = undone(
                state_without(graph, edge),
                graph.topology.nodes@,
                delete_undo(graph, edge),
            );
            &&& back.edges == graph.topology.edges@
            &&& back.vacant == graph.topology.vacant@
            &&& back.stores == graph.edge_embeddings@
            &&& all_honest(back.texts, back.edges)
        }),
{
    let edges = graph.topology.edges@;
    let nodes = graph.topology.nodes@;
    let stores = graph.edge_embeddings@;
    let texts = graph.edge_text_indexes@;
    let state = state_without(graph, edge);
    let record = graph.topology.record(edge);
    let vectors = prune_undo(stores, edge);
    let documents = document_entries(texts, edge, texts.len());
    let removal = seq![UndoModel::EdgeRemoved { edge, record }];
    undone_in_turn(state, nodes, vectors + documents, removal);
    assert(edges[edge.slot as int] is Some);
    assert(removal.drop_last() =~= Seq::<UndoModel>::empty());
    assert(removal.last() == UndoModel::EdgeRemoved { edge, record });
    let first = undo_step(state, nodes, removal.last());
    assert(undone(first, nodes, removal.drop_last()) == first);
    assert(undone(state, nodes, removal) == first);
    assert(first.edges =~= edges);
    assert(first.vacant =~= graph.topology.vacant@);
    undone_in_turn(first, nodes, vectors, documents);
    documents_undone(texts, first, nodes, edge, texts.len());
    let second = undone(first, nodes, documents);
    pruned_vectors_alone(stores, edge, stores.len());
    assert forall|i: int| 0 <= i < vectors.len() implies of_vectors(#[trigger] vectors[i]) by {
        let indexes = index_entries(stores, edge, stores.len());
        if i < indexes.len() {
            assert(vectors[i] == indexes[i]);
        } else {
            assert(vectors[i] == vector_entries(stores, edge, stores.len())[i - indexes.len()]);
        }
    }
    vectors_alone(second, nodes, vectors);
    undoing_the_stores(second, nodes, vectors);
    assert forall|i: int| 0 <= i < stores.len() implies coherent((#[trigger] stores[i]).store) by {
        assert(graph.edge_embeddings.entries@[i].store.well_formed());
        graph.edge_embeddings.entries@[i].store.numeric.is_coherent();
    }
    a_prune_can_be_undone(stores, edge);
    let back = undone(second, nodes, vectors);
    assert forall|i: int| 0 <= i < back.texts.len() implies honest(
        (#[trigger] back.texts[i]).store,
        edges,
        back.texts[i].owner_type,
    ) && back.texts[i].store.field == back.texts[i].name by {
        let before = texts[i];
        assert(honest(before.store, edges, before.owner_type));
        let now = back.texts[i];
        assert forall|s: usize| !delta_slots(now.store.freshness, edges.len()).contains(s) implies
            #[trigger] has_document(now.store, edges, now.owner_type, s) by {
            assert(has_document(before.store, edges, before.owner_type, s)) by {
                assert(!delta_slots(before.store.freshness, edges.len()).contains(s));
            }
        }
    }
}

/// A text index of a well-formed graph is put back as it is.
proof fn a_kept_index_fits(graph: DirGraph, rel_type: Text, property: Text)
    requires
        graph.well_formed(),
        kept(graph.edge_text_indexes@, rel_type, property),
    ensures
        ({
            let store = lookup(graph.edge_text_indexes@, rel_type, property)->0;
            fitted(store, graph.topology.edges@.len()) == store
        }),
{
    place_is_first(graph.edge_text_indexes@, rel_type, property);
    let place = entry_place(graph.edge_text_indexes@, rel_type, property);
    let entry = graph.edge_text_indexes.entries@[place];
    assert(graph.edge_text_indexes@[place].store == entry.store@);
}

/// Undoing the build of a text index gives everything back: the index that was
/// there before, or none.
pub proof fn a_text_build_can_be_undone(
    before: DirGraph,
    after: DirGraph,
    rel_type: Text,
    property: Text,
    store: TextStoreModel,
)
    requires
        before.well_formed(),
        undo_of(before) is Some,
        text_index_replaced(before, after, rel_type, property),
        after.edge_text_indexes@ == with_entry(
            before.edge_text_indexes@,
            rel_type,
            property,
            store,
        ),
    ensures
        undone(state_of(after), after.topology.nodes@, undo_of(after)->0) == undone(
            state_of(before),
            before.topology.nodes@,
            undo_of(before)->0,
        ),
{
    let nodes = before.topology.nodes@;
    let texts = before.edge_text_indexes@;
    let earlier = undo_of(before)->0;
    let prior = lookup(texts, rel_type, property);
    let entry = UndoModel::EdgeTextIndexReplaced { conn_type: rel_type, name: property, prior };
    undone_in_turn(state_of(after), nodes, earlier, seq![entry]);
    let back = undo_step(state_of(after), nodes, entry);
    assert(seq![entry].drop_last() =~= Seq::<UndoModel>::empty());
    assert(undone(state_of(after), nodes, seq![entry]) == undone(
        back,
        nodes,
        seq![entry].drop_last(),
    ));
    if kept(texts, rel_type, property) {
        a_kept_index_fits(before, rel_type, property);
        kept_twice(texts, rel_type, property, store, prior->0);
        kept_again(texts, rel_type, property);
    } else {
        dropping_a_fresh_entry(texts, rel_type, property, store);
    }
    assert(back == state_of(before));
}

/// Undoing the drop of a text index has every text index found as before.
pub proof fn a_text_drop_can_be_undone(
    before: DirGraph,
    after: DirGraph,
    rel_type: Text,
    property: Text,
)
    requires
        before.well_formed(),
        undo_of(before) == Some(Seq::<UndoModel>::empty()),
        kept(before.edge_text_indexes@, rel_type, property),
        text_index_replaced(before, after, rel_type, property),
        after.edge_text_indexes@ == without_entry(before.edge_text_indexes@, rel_type, property),
    ensures
        ({
            let back = undone(state_of(after), after.topology.nodes@, undo_of(after)->0);
            &&& back.stores == before.edge_embeddings@
            &&& back.edges == before.topology.edges@
            &&& forall|t: Text, n: Text|
                #[trigger] lookup(back.texts, t, n) == lookup(before.edge_text_indexes@, t, n)
        }),
{
    let nodes = before.topology.nodes@;
    let texts = before.edge_text_indexes@;
    let prior = lookup(texts, rel_type, property);
    let entry = UndoModel::EdgeTextIndexReplaced { conn_type: rel_type, name: property, prior };
    assert(undo_of(after)->0 =~= seq![entry]);
    assert(seq![entry].drop_last() =~= Seq::<UndoModel>::empty());
    let back = undo_step(state_of(after), nodes, entry);
    assert(undone(state_of(after), nodes, seq![entry]) == undone(
        back,
        nodes,
        seq![entry].drop_last(),
    ));
    a_kept_index_fits(before, rel_type, property);
    a_dropped_store_is_gone(texts, rel_type, property);
    a_kept_store_is_found(after.edge_text_indexes@, rel_type, property, prior->0);
    assert forall|t: Text, n: Text| #[trigger] lookup(back.texts, t, n) == lookup(texts, t, n) by {
        if !(t == rel_type && n == property) {
            assert(lookup(after.edge_text_indexes@, t, n) == lookup(texts, t, n));
        }
    }
}

} // verus!
