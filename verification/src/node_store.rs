//! Keeping node stores on a graph, and recording that they were written.

use crate::catalog::{a_kept_store_is_found, with_entry};
use crate::graph::{recorded, recorded_with, DirGraph};
use crate::names::{column_of, store_name, store_name_of, store_names_read_back};
use crate::recording::{EmbeddingWrite, OpModel, RawOp};
use crate::store::{hash_of, holds, EmbeddingStore, StoreModel};
use crate::text::Text;
use vstd::prelude::*;

verus! {

/// Whether a node's vector is not one of a text: there is none, or it was made
/// from another text.
pub open spec fn text_moved(store: StoreModel, node: usize, hash: u64) -> bool {
    !holds(store, node) || hash_of(store, node) != Some(hash)
}

/// What the write of a node store records.
pub open spec fn node_write(
    node_type: Text,
    text_column: Text,
    write: EmbeddingWrite,
    slots: Seq<usize>,
) -> OpModel {
    OpModel::NodeEmbeddings { node_type, text_column, write, slots }
}

/// A node store stands where it was put, and the others are as they were.
pub(crate) proof fn node_names_stay(
    before: DirGraph,
    after: DirGraph,
    node_type: Text,
    name: Text,
    store: EmbeddingStore,
)
    requires
        before.node_stores_well_formed(),
        store.well_formed(),
        column_of(name) is Some,
        after.embeddings@ == with_entry(before.embeddings@, node_type, name, store@),
        forall|i: int|
            0 <= i < after.embeddings.entries@.len() ==> ((
            #[trigger] after.embeddings.entries@[i]).store == store || exists|j: int|
                0 <= j < before.embeddings.entries@.len() && (
                #[trigger] before.embeddings.entries@[j]).store
                    == after.embeddings.entries@[i].store),
    ensures
        after.node_stores_well_formed(),
{
    crate::catalog::place_is_first(before.embeddings@, node_type, name);
    let place = crate::catalog::entry_place(before.embeddings@, node_type, name);
    assert forall|i: int| 0 <= i < after.embeddings.entries@.len() implies (
    #[trigger] after.embeddings.entries@[i]).store.well_formed() && column_of(
        after.embeddings.entries@[i].name@,
    ) is Some by {
        let entry = after.embeddings.entries@[i];
        if entry.store != store {
            let j = choose|j: int|
                0 <= j < before.embeddings.entries@.len() && (
                #[trigger] before.embeddings.entries@[j]).store == entry.store;
            assert(before.embeddings.entries@[j].store.well_formed());
        }
        let model = after.embeddings@[i];
        assert(model.name == entry.name@);
        if i == place {
            assert(model.name == name);
        } else if i < before.embeddings@.len() {
            assert(model == before.embeddings@[i]);
            assert(before.embeddings@[i].name == before.embeddings.entries@[i].name@);
            assert(column_of(before.embeddings.entries@[i].name@) is Some);
        } else {
            assert(after.embeddings@.len() == after.embeddings.entries@.len());
        }
    }
}

impl DirGraph {
    /// Records the write of a node store, where changes are recorded.
    pub fn note_embedding_write(
        &mut self,
        node_type: &str,
        text_column: &str,
        write: EmbeddingWrite,
        slots: Vec<usize>,
    )
        ensures
            *final(self) == (DirGraph { recording: final(self).recording, ..*old(self) }),
            final(self).recording is Some <==> old(self).recording is Some,
            recorded(*final(self)) == recorded_with(
                recorded(*old(self)),
                seq![node_write(node_type@, text_column@, write, slots@)],
            ),
    {
        self.note_op(
            RawOp::NodeEmbeddings {
                node_type: node_type.to_owned(),
                text_column: text_column.to_owned(),
                write,
                slots,
            },
        );
    }

    /// Keeps a whole node store in place of any other, and records it.
    pub fn set_embedding_store(
        &mut self,
        node_type: &str,
        text_column: &str,
        store: EmbeddingStore,
    )
        requires
            old(self).well_formed(),
            store.well_formed(),
        ensures
            final(self).well_formed(),
            *final(self) == (DirGraph {
                embeddings: final(self).embeddings,
                recording: final(self).recording,
                ..*old(self)
            }),
            final(self).recording is Some <==> old(self).recording is Some,
            final(self).embeddings@ == with_entry(
                old(self).embeddings@,
                node_type@,
                store_name_of(text_column@),
                store@,
            ),
            recorded(*final(self)) == recorded_with(
                recorded(*old(self)),
                seq![node_write(node_type@, text_column@, EmbeddingWrite::Replace, store@.nodes)],
            ),
    {
        let name = store_name(text_column);
        let slots = copy_slots(&store.slot_to_node);
        let ghost before = *self;
        let _ = self.embeddings.insert(node_type, name.as_str(), store);
        proof {
            store_names_read_back(text_column@);
            a_kept_store_is_found(before.embeddings@, node_type@, name@, store@);
            node_names_stay(before, *self, node_type@, name@, store);
        }
        self.note_embedding_write(node_type, text_column, EmbeddingWrite::Replace, slots);
    }
}

/// A copy of slots.
pub(crate) fn copy_slots(slots: &Vec<usize>) -> (copy: Vec<usize>)
    ensures
        copy@ == slots@,
{
    let mut copy: Vec<usize> = Vec::new();
    let mut i: usize = 0;
    while i < slots.len()
        invariant
            i <= slots@.len(),
            copy@ == slots@.take(i as int),
        decreases slots@.len() - i,
    {
        copy.push(slots[i]);
        assert(slots@.take(i + 1) =~= slots@.take(i as int).push(slots@[i as int]));
        i = i + 1;
    }
    assert(slots@.take(i as int) =~= slots@);
    copy
}

} // verus!
