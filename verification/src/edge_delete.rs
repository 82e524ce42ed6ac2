//! Deleting relationships with what their slots own, and moving what slots own
//! when relationships are compacted.
use vstd::prelude::*;
use crate::catalog::EntryModel;
use crate::edge_store::{remapped, EdgeEmbeddingStore, EdgeRemap};
use crate::graph::{undo_of, undo_with, DirGraph};
use crate::names::column_of;
use crate::recording::{UndoEntry, UndoModel};
use crate::store::{
    holds, index_state_of, removed_of, without_vector, RemovedEmbedding, StoreModel,
    VectorIndexState,
};
use crate::text::Text;
use crate::text_index::TextStoreModel;
use crate::topology::{EdgeData, Property};
use crate::value::EdgeIndex;

verus! {

/// Every store without a relationship's vector.
pub open spec fn stores_without(
    entries: Seq<EntryModel<StoreModel>>,
    edge: EdgeIndex,
) -> Seq<EntryModel<StoreModel>> {
    Seq::new(
        entries.len(),
        |i: int| EntryModel { store: without_vector(entries[i].store, edge.slot), ..entries[i] },
    )
}

/// The undo entries of the indexes that go with a relationship's vectors, for
/// the first `count` stores.
pub open spec fn index_entries(
    entries: Seq<EntryModel<StoreModel>>,
    edge: EdgeIndex,
    count: nat,
) -> Seq<UndoModel>
    decreases count,
{
    if count == 0 {
        Seq::empty()
    } else {
        let before = index_entries(entries, edge, (count - 1) as nat);
        let entry = entries[count - 1];
        if holds(entry.store, edge.slot) && entry.store.index is Some {
            before.push(
                UndoModel::EdgeVectorIndexReplaced {
                    conn_type: entry.owner_type,
                    name: entry.name,
                    prior: index_state_of(entry.store),
                },
            )
        } else {
            before
        }
    }
}

/// The undo entries of a relationship's vectors, for the first `count` stores.
pub open spec fn vector_entries(
    entries: Seq<EntryModel<StoreModel>>,
    edge: EdgeIndex,
    count: nat,
) -> Seq<UndoModel>
    decreases count,
{
    if count == 0 {
        Seq::empty()
    } else {
        let before = vector_entries(entries, edge, (count - 1) as nat);
        let entry = entries[count - 1];
        match removed_of(entry.store, edge.slot) {
            Some(removed) => before.push(
                UndoModel::EdgeEmbeddingRemoved {
                    conn_type: entry.owner_type,
                    name: entry.name,
                    edge,
                    prior: removed,
                },
            ),
            None => before,
        }
    }
}

/// What pruning a relationship's vectors can be undone by: the indexes first,
/// so that undoing in reverse puts them back last.
pub open spec fn prune_undo(entries: Seq<EntryModel<StoreModel>>, edge: EdgeIndex) -> Seq<UndoModel> {
    index_entries(entries, edge, entries.len()) + vector_entries(entries, edge, entries.len())
}

/// One store's part of a prune: the index it lost and the vector it lost.
struct Pruned {
    index: Option<VectorIndexState>,
    vector: Option<RemovedEmbedding>,
}

fn prune_store(store: &mut EdgeEmbeddingStore, edge: EdgeIndex) -> (pruned: Pruned)
    requires
        old(store).well_formed(),
    ensures
        final(store).well_formed(),
        final(store)@ == without_vector(old(store)@, edge.slot),
        match pruned.vector {
            Some(removed) => removed_of(old(store)@, edge.slot) == Some(removed@),
            None => removed_of(old(store)@, edge.slot) is None,
        },
        match pruned.index {
            Some(state) => {
                &&& holds(old(store)@, edge.slot) && old(store)@.index is Some
                &&& state.well_formed()
                &&& state@ == index_state_of(old(store)@)
            },
            None => !(holds(old(store)@, edge.slot) && old(store)@.index is Some),
        },
{
    if !store.numeric.contains(edge.slot) {
        return Pruned { index: None, vector: None };
    }
    let index = if store.numeric.has_index() {
        Some(store.numeric.take_index_state())
    } else {
        None
    };
    let ghost taken = store@;
    let vector = store.remove(edge);
    assert(store@ =~= without_vector(old(store)@, edge.slot));
    Pruned { index, vector }
}

/// Adds an undo entry for what one store lost.
fn note_pruned_index(graph: &mut DirGraph, place: usize, state: VectorIndexState)
    requires
        old(graph).well_formed(),
        place < old(graph).edge_embeddings.entries@.len(),
        state.well_formed(),
    ensures
        final(graph).well_formed(),
        *final(graph) == (DirGraph { undo: final(graph).undo, ..*old(graph) }),
        final(graph).undo is Some <==> old(graph).undo is Some,
        undo_of(*final(graph)) == undo_with(
            undo_of(*old(graph)),
            seq![
                UndoModel::EdgeVectorIndexReplaced {
                    conn_type: old(graph).edge_embeddings@[place as int].owner_type,
                    name: old(graph).edge_embeddings@[place as int].name,
                    prior: state@,
                },
            ],
        ),
{
    let entry = UndoEntry::EdgeVectorIndexReplaced {
        conn_type: graph.edge_embeddings.entries[place].owner_type.clone(),
        name: graph.edge_embeddings.entries[place].name.clone(),
        prior: state,
    };
    graph.note_undo(entry);
}

/// Takes a relationship's vectors out of every store. Where a statement is
/// running, the vectors and the indexes that go with them can be undone.
pub fn prune_edge_embeddings(graph: &mut DirGraph, edge: EdgeIndex)
    requires
        old(graph).well_formed(),
    ensures
        final(graph).well_formed(),
        *final(graph) == (DirGraph {
            edge_embeddings: final(graph).edge_embeddings,
            undo: final(graph).undo,
            ..*old(graph)
        }),
        final(graph).undo is Some <==> old(graph).undo is Some,
        final(graph).edge_embeddings@ == stores_without(old(graph).edge_embeddings@, edge),
        undo_of(*final(graph)) == undo_with(
            undo_of(*old(graph)),
            prune_undo(old(graph).edge_embeddings@, edge),
        ),
{
    let ghost entries = graph.edge_embeddings@;
    let count: usize = graph.edge_embeddings.entries.len();
    let mut vectors: Vec<Option<RemovedEmbedding>> = Vec::new();
    let mut i: usize = 0;
    proof {
        if graph.undo is Some {
            assert(undo_of(*graph)->0 + index_entries(entries, edge, 0) =~= undo_of(*graph)->0);
        }
    }
    while i < count
        invariant
            i <= count,
            count == graph.edge_embeddings.entries@.len(),
            entries == old(graph).edge_embeddings@,
            entries.len() == count,
            graph.well_formed(),
            *graph == (DirGraph {
                edge_embeddings: graph.edge_embeddings,
                undo: graph.undo,
                ..*old(graph)
            }),
            graph.undo is Some <==> old(graph).undo is Some,
            forall|k: int|
                0 <= k < count ==> (#[trigger] graph.edge_embeddings@[k]) == (EntryModel {
                    store: if k < i {
                        without_vector(entries[k].store, edge.slot)
                    } else {
                        entries[k].store
                    },
                    ..entries[k]
                }),
            vectors@.len() == i,
            forall|k: int|
                0 <= k < i ==> match #[trigger] vectors@[k] {
                    Some(removed) => removed_of(entries[k].store, edge.slot) == Some(removed@),
                    None => removed_of(entries[k].store, edge.slot) is None,
                },
            undo_of(*graph) == undo_with(
                undo_of(*old(graph)),
                index_entries(entries, edge, i as nat),
            ),
        decreases count - i,
    {
        let ghost before = *graph;
        assert(graph.edge_embeddings@[i as int].store == entries[i as int].store);
        assert(graph.edge_embeddings.entries@[i as int].store@ == entries[i as int].store);
        let fresh = EdgeEmbeddingStore::new(0, None);
        let mut store = graph.edge_embeddings.replace_at(i, fresh);
        let pruned = prune_store(&mut store, edge);
        let _ = graph.edge_embeddings.replace_at(i, store);
        proof {
            assert(graph.well_formed()) by {
                assert forall|k: int| 0 <= k < graph.edge_embeddings.entries@.len() implies (
                #[trigger] graph.edge_embeddings.entries@[k]).store.well_formed() && column_of(
                    graph.edge_embeddings.entries@[k].name@,
                ) is Some by {
                    assert(before.edge_embeddings.entries@[k].store.well_formed());
                }
                assert forall|a: int, b: int|
                    0 <= a < b < graph.edge_embeddings@.len() implies !((
                #[trigger] graph.edge_embeddings@[a]).owner_type == (
                #[trigger] graph.edge_embeddings@[b]).owner_type
                    && graph.edge_embeddings@[a].name == graph.edge_embeddings@[b].name) by {
                    assert(!(before.edge_embeddings@[a].owner_type
                        == before.edge_embeddings@[b].owner_type
                        && before.edge_embeddings@[a].name == before.edge_embeddings@[b].name));
                }
            }
        }
        let journalling = graph.is_journalling();
        match pruned.index {
            Some(state) => {
                if journalling {
                    note_pruned_index(graph, i, state);
                    assert(undo_of(*graph)->0 =~= undo_of(*old(graph))->0 + index_entries(
                        entries,
                        edge,
                        (i + 1) as nat,
                    ));
                }
            },
            None => {},
        }
        vectors.push(pruned.vector);
        i = i + 1;
    }
    assert(graph.edge_embeddings@ =~= stores_without(entries, edge));
    let ghost indexes = index_entries(entries, edge, count as nat);
    if !graph.is_journalling() {
        return ;
    }
    let ghost base = undo_of(*graph)->0;
    let mut j: usize = 0;
    assert(base + vector_entries(entries, edge, 0) =~= base);
    while j < count
        invariant
            j <= count,
            count == graph.edge_embeddings.entries@.len(),
            entries.len() == count,
            vectors@.len() == count,
            forall|k: int|
                j <= k < count ==> match #[trigger] vectors@[k] {
                    Some(removed) => removed_of(entries[k].store, edge.slot) == Some(removed@),
                    None => removed_of(entries[k].store, edge.slot) is None,
                },
            graph.well_formed(),
            *graph == (DirGraph {
                edge_embeddings: graph.edge_embeddings,
                undo: graph.undo,
                ..*old(graph)
            }),
            graph.undo is Some,
            graph.edge_embeddings@ == stores_without(entries, edge),
            undo_of(*graph) == Some(base + vector_entries(entries, edge, j as nat)),
        decreases count - j,
    {
        assert(graph.edge_embeddings@[j as int].owner_type == entries[j as int].owner_type);
        assert(graph.edge_embeddings@[j as int].name == entries[j as int].name);
        let mut taken: Option<RemovedEmbedding> = None;
        vectors.set_and_swap(j, &mut taken);
        match taken {
            Some(prior) => {
                let entry = UndoEntry::EdgeEmbeddingRemoved {
                    conn_type: graph.edge_embeddings.entries[j].owner_type.clone(),
                    name: graph.edge_embeddings.entries[j].name.clone(),
                    edge,
                    prior,
                };
                graph.note_undo(entry);
                assert(undo_of(*graph)->0 =~= base + vector_entries(entries, edge, (j + 1) as nat));
            },
            None => {},
        }
        j = j + 1;
    }
    assert(undo_of(*graph)->0 =~= undo_of(*old(graph))->0 + prune_undo(entries, edge));
}

/// Every text index without a relationship's document.
pub open spec fn indexes_without(
    entries: Seq<EntryModel<TextStoreModel>>,
    edge: EdgeIndex,
) -> Seq<EntryModel<TextStoreModel>> {
    Seq::new(
        entries.len(),
        |i: int|
            EntryModel {
                store: TextStoreModel {
                    docs: entries[i].store.docs.remove(edge.slot),
                    ..entries[i].store
                },
                ..entries[i]
            },
    )
}

/// The undo entries of a relationship's documents, for the first `count` text
/// indexes.
pub open spec fn document_entries(
    entries: Seq<EntryModel<TextStoreModel>>,
    edge: EdgeIndex,
    count: nat,
) -> Seq<UndoModel>
    decreases count,
{
    if count == 0 {
        Seq::empty()
    } else {
        let before = document_entries(entries, edge, (count - 1) as nat);
        let entry = entries[count - 1];
        if entry.store.docs.contains_key(edge.slot) {
            before.push(
                UndoModel::EdgeTextDocPruned {
                    conn_type: entry.owner_type,
                    name: entry.name,
                    edge,
                },
            )
        } else {
            before
        }
    }
}

/// Drops a relationship's documents from every text index. Where a statement
/// is running, undoing it has the documents read again.
pub fn prune_edge_text_docs(graph: &mut DirGraph, edge: EdgeIndex)
    requires
        old(graph).well_formed(),
    ensures
        final(graph).well_formed(),
        *final(graph) == (DirGraph {
            edge_text_indexes: final(graph).edge_text_indexes,
            undo: final(graph).undo,
            ..*old(graph)
        }),
        final(graph).undo is Some <==> old(graph).undo is Some,
        final(graph).edge_text_indexes@ == indexes_without(old(graph).edge_text_indexes@, edge),
        undo_of(*final(graph)) == undo_with(
            undo_of(*old(graph)),
            document_entries(
                old(graph).edge_text_indexes@,
                edge,
                old(graph).edge_text_indexes@.len(),
            ),
        ),
{
    let ghost entries = graph.edge_text_indexes@;
    let count: usize = graph.edge_text_indexes.entries.len();
    let mut i: usize = 0;
    proof {
        if graph.undo is Some {
            assert(undo_of(*graph)->0 + document_entries(entries, edge, 0) =~= undo_of(*graph)->0);
        }
    }
    while i < count
        invariant
            i <= count,
            count == graph.edge_text_indexes.entries@.len(),
            entries == old(graph).edge_text_indexes@,
            entries.len() == count,
            graph.well_formed(),
            *graph == (DirGraph {
                edge_text_indexes: graph.edge_text_indexes,
                undo: graph.undo,
                ..*old(graph)
            }),
            graph.undo is Some <==> old(graph).undo is Some,
            forall|k: int|
                0 <= k < count ==> (#[trigger] graph.edge_text_indexes@[k]) == (EntryModel {
                    store: if k < i {
                        TextStoreModel {
                            docs: entries[k].store.docs.remove(edge.slot),
                            ..entries[k].store
                        }
                    } else {
                        entries[k].store
                    },
                    ..entries[k]
                }),
            undo_of(*graph) == undo_with(
                undo_of(*old(graph)),
                document_entries(entries, edge, i as nat),
            ),
        decreases count - i,
    {
        let ghost before = *graph;
        assert(graph.edge_text_indexes@[i as int].store == entries[i as int].store);
        let had = graph.edge_text_indexes.at_mut(i).index.remove_doc(edge.slot);
        proof {
            let after = *graph;
            assert(after.edge_text_indexes.entries@[i as int].store@ =~= TextStoreModel {
                docs: entries[i as int].store.docs.remove(edge.slot),
                ..entries[i as int].store
            });
            assert forall|k: int| 0 <= k < count && k != i implies (
            #[trigger] after.edge_text_indexes@[k]) == before.edge_text_indexes@[k] by {
                assert(after.edge_text_indexes.entries@[k]
                    == before.edge_text_indexes.entries@[k]);
            }
            assert forall|k: int| 0 <= k < count implies (
            #[trigger] after.edge_text_indexes.entries@[k]).store.well_formed()
                && after.edge_text_indexes.entries@[k].store.freshness.covered
                <= after.topology.edges@.len() by {
                assert(before.edge_text_indexes.entries@[k].store.well_formed());
            }
            assert forall|a: int, b: int| 0 <= a < b < after.edge_text_indexes@.len() implies !((
            #[trigger] after.edge_text_indexes@[a]).owner_type == (
            #[trigger] after.edge_text_indexes@[b]).owner_type && after.edge_text_indexes@[a].name
                == after.edge_text_indexes@[b].name) by {
                assert(!(before.edge_text_indexes@[a].owner_type
                    == before.edge_text_indexes@[b].owner_type
                    && before.edge_text_indexes@[a].name == before.edge_text_indexes@[b].name));
            }
        }
        if had {
            let entry = UndoEntry::EdgeTextDocPruned {
                conn_type: graph.edge_text_indexes.entries[i].owner_type.clone(),
                name: graph.edge_text_indexes.entries[i].name.clone(),
                edge,
            };
            graph.note_undo(entry);
            proof {
                if old(graph).undo is Some {
                    assert(undo_of(*graph)->0 =~= undo_of(*old(graph))->0 + document_entries(
                        entries,
                        edge,
                        (i + 1) as nat,
                    ));
                }
            }
        }
        i = i + 1;
    }
    assert(graph.edge_text_indexes@ =~= indexes_without(entries, edge));
}

/// What properties hold.
pub open spec fn property_models(properties: Seq<Property>) -> Seq<
    (Text, crate::value::ValueModel),
> {
    Seq::new(properties.len(), |i: int| (properties[i].name@, properties[i].value@))
}

/// A copy of properties.
pub fn copy_properties(properties: &Vec<Property>) -> (copy: Vec<Property>)
    ensures
        property_models(copy@) == property_models(properties@),
{
    let mut copy: Vec<Property> = Vec::new();
    let mut i: usize = 0;
    while i < properties.len()
        invariant
            i <= properties@.len(),
            copy@.len() == i,
            forall|k: int|
                0 <= k < i ==> (#[trigger] copy@[k]).name@ == properties@[k].name@
                    && copy@[k].value@ == properties@[k].value@,
        decreases properties@.len() - i,
    {
        copy.push(
            Property { name: properties[i].name.clone(), value: properties[i].value.copy() },
        );
        i = i + 1;
    }
    assert(property_models(copy@) =~= property_models(properties@));
    copy
}

/// What deleting a relationship can be undone by: its vectors, its documents,
/// and then the relationship, so that undoing in reverse puts it back first.
pub open spec fn delete_undo(graph: DirGraph, edge: EdgeIndex) -> Seq<UndoModel> {
    prune_undo(graph.edge_embeddings@, edge) + document_entries(
        graph.edge_text_indexes@,
        edge,
        graph.edge_text_indexes@.len(),
    ) + seq![UndoModel::EdgeRemoved { edge, record: graph.topology.record(edge) }]
}

/// Deletes a relationship, with the vectors and documents its slot owns. Gives
/// back what it held, or `None` where none lived there.
pub fn remove_edge_with_embeddings(graph: &mut DirGraph, edge: EdgeIndex) -> (removed: Option<
    EdgeData,
>)
    requires
        old(graph).well_formed(),
    ensures
        final(graph).well_formed(),
        match removed {
            Some(data) => {
                &&& old(graph).topology.live(edge)
                &&& data.connection_type@ == old(graph).topology.type_of(edge)
                &&& property_models(data.properties@) == property_models(
                    old(graph).topology.record(edge).data.properties@,
                )
                &&& *final(graph) == (DirGraph {
                    topology: final(graph).topology,
                    edge_embeddings: final(graph).edge_embeddings,
                    edge_text_indexes: final(graph).edge_text_indexes,
                    undo: final(graph).undo,
                    ..*old(graph)
                })
                &&& final(graph).topology.nodes == old(graph).topology.nodes
                &&& final(graph).topology.edges@ == old(graph).topology.edges@.update(
                    edge.slot as int,
                    None,
                )
                &&& final(graph).topology.vacant@ == old(graph).topology.vacant@.push(edge.slot)
                &&& final(graph).edge_embeddings@ == stores_without(
                    old(graph).edge_embeddings@,
                    edge,
                )
                &&& final(graph).edge_text_indexes@ == indexes_without(
                    old(graph).edge_text_indexes@,
                    edge,
                )
                &&& undo_of(*final(graph)) == undo_with(
                    undo_of(*old(graph)),
                    delete_undo(*old(graph), edge),
                )
            },
            None => !old(graph).topology.live(edge) && *final(graph) == *old(graph),
        },
{
    let data = match graph.topology.edge_weight(edge) {
        Some(data) => EdgeData {
            connection_type: data.connection_type.clone(),
            properties: copy_properties(&data.properties),
        },
        None => {
            return None;
        },
    };
    prune_edge_embeddings(graph, edge);
    prune_edge_text_docs(graph, edge);
    match graph.topology.remove_edge(edge) {
        Some(record) => {
            graph.note_undo(UndoEntry::EdgeRemoved { edge, record });
        },
        None => {
            assert(false);
        },
    }
    proof {
        if old(graph).undo is Some {
            assert(undo_of(*graph)->0 =~= undo_of(*old(graph))->0 + delete_undo(*old(graph), edge));
        }
    }
    Some(data)
}

/// Every store with its owners moved.
pub open spec fn stores_remapped(
    entries: Seq<EntryModel<StoreModel>>,
    slots: Seq<u32>,
) -> Seq<EntryModel<StoreModel>> {
    Seq::new(
        entries.len(),
        |i: int| EntryModel { store: remapped(entries[i].store, slots), ..entries[i] },
    )
}

/// Moves the owners of every relationship store to the slots their
/// relationships moved to.
pub fn remap_edge_embeddings(graph: &mut DirGraph, remap: &EdgeRemap)
    requires
        old(graph).well_formed(),
    ensures
        final(graph).well_formed(),
        *final(graph) == (DirGraph {
            edge_embeddings: final(graph).edge_embeddings,
            ..*old(graph)
        }),
        final(graph).edge_embeddings@ == stores_remapped(
            old(graph).edge_embeddings@,
            remap.slots@,
        ),
{
    let ghost entries = graph.edge_embeddings@;
    let count: usize = graph.edge_embeddings.entries.len();
    let mut i: usize = 0;
    while i < count
        invariant
            i <= count,
            count == graph.edge_embeddings.entries@.len(),
            entries.len() == count,
            graph.well_formed(),
            *graph == (DirGraph { edge_embeddings: graph.edge_embeddings, ..*old(graph) }),
            forall|k: int|
                0 <= k < count ==> (#[trigger] graph.edge_embeddings@[k]) == (EntryModel {
                    store: if k < i {
                        remapped(entries[k].store, remap.slots@)
                    } else {
                        entries[k].store
                    },
                    ..entries[k]
                }),
        decreases count - i,
    {
        let ghost before = *graph;
        assert(graph.edge_embeddings@[i as int].store == entries[i as int].store);
        assert(graph.edge_embeddings.entries@[i as int].store@ == entries[i as int].store);
        let fresh = EdgeEmbeddingStore::new(0, None);
        let mut store = graph.edge_embeddings.replace_at(i, fresh);
        store.remap(remap);
        let _ = graph.edge_embeddings.replace_at(i, store);
        proof {
            assert forall|k: int| 0 <= k < graph.edge_embeddings.entries@.len() implies (
            #[trigger] graph.edge_embeddings.entries@[k]).store.well_formed() && column_of(
                graph.edge_embeddings.entries@[k].name@,
            ) is Some by {
                assert(before.edge_embeddings.entries@[k].store.well_formed());
            }
            assert forall|a: int, b: int|
                0 <= a < b < graph.edge_embeddings@.len() implies !((
            #[trigger] graph.edge_embeddings@[a]).owner_type == (
            #[trigger] graph.edge_embeddings@[b]).owner_type && graph.edge_embeddings@[a].name
                == graph.edge_embeddings@[b].name) by {
                assert(!(before.edge_embeddings@[a].owner_type
                    == before.edge_embeddings@[b].owner_type && before.edge_embeddings@[a].name
                    == before.edge_embeddings@[b].name));
            }
        }
        i = i + 1;
    }
    assert(graph.edge_embeddings@ =~= stores_remapped(entries, remap.slots@));
}

} // verus!
