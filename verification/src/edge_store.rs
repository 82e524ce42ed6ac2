//! Vectors owned by relationships: the typed store, the rewrite of its owners
//! when relationship slots move, and what is persisted of it.
use vstd::prelude::*;
use crate::names::{store_name, store_name_of};
use crate::store::{
    cell_restored, coherent, empty_store, hash_of, holds, place_of, popped, removed_of, restored,
    vector_of, with_hash, with_index_state, with_vector, without_vector, EmbeddingStore,
    RemovedEmbedding, SlotCoverage, StoreModel, VectorIndexState,
};
use crate::text::{decimal, push_number, str_option, text_option};
use crate::value::EdgeIndex;

verus! {

/// Marks a relationship slot that nothing moved from.
pub const VACANT_EDGE: u32 = u32::MAX;

/// Where relationships moved when their slots were compacted.
pub struct EdgeRemap {
    /// The new slot of each old one.
    pub slots: Vec<u32>,
}

/// Where the relationship at `from` moved.
pub open spec fn moved_to(slots: Seq<u32>, from: usize) -> Option<EdgeIndex> {
    if from < slots.len() && slots[from as int] != VACANT_EDGE {
        Some(EdgeIndex { slot: slots[from as int] as usize })
    } else {
        None
    }
}

impl EdgeRemap {
    /// `bound` slots that nothing moved from.
    pub fn with_bound(bound: usize) -> (remap: EdgeRemap)
        ensures
            remap.slots@.len() == bound,
            forall|from: usize| #[trigger] moved_to(remap.slots@, from) is None,
    {
        let mut slots: Vec<u32> = Vec::new();
        while slots.len() < bound
            invariant
                slots@.len() <= bound,
                forall|i: int| 0 <= i < slots@.len() ==> slots@[i] == VACANT_EDGE,
            decreases bound - slots@.len(),
        {
            slots.push(VACANT_EDGE);
        }
        EdgeRemap { slots }
    }

    /// Records that the relationship at `from` moved to `to`.
    pub fn set(&mut self, from: EdgeIndex, to: EdgeIndex)
        requires
            from.slot < old(self).slots@.len(),
            to.slot < VACANT_EDGE,
        ensures
            moved_to(final(self).slots@, from.slot) == Some(to),
            forall|other: usize|
                other != from.slot ==> #[trigger] moved_to(final(self).slots@, other) == moved_to(
                    old(self).slots@,
                    other,
                ),
    {
        self.slots.set(from.slot, to.slot as u32);
    }

    /// The moves given slot by slot.
    pub fn from_raw(slots: Vec<u32>) -> (remap: EdgeRemap)
        ensures
            remap.slots == slots,
    {
        EdgeRemap { slots }
    }

    /// Where the relationship at `from` moved.
    pub fn get(&self, from: EdgeIndex) -> (to: Option<EdgeIndex>)
        ensures
            to == moved_to(self.slots@, from.slot),
    {
        if from.slot < self.slots.len() {
            let raw: u32 = self.slots[from.slot];
            if raw != VACANT_EDGE {
                return Some(EdgeIndex { slot: raw as usize });
            }
        }
        None
    }
}

/// The key of a relationship store: `(type, "{text_property}_emb")`.
pub fn edge_store_key(connection_type: &str, text_property: &str) -> (key: (String, String))
    ensures
        key.0@ == connection_type@,
        key.1@ == store_name_of(text_property@),
{
    (connection_type.to_owned(), store_name(text_property))
}

/// Vectors owned by relationship slots.
#[derive(Debug, Clone)]
pub struct EdgeEmbeddingStore {
    /// The dense store.
    pub numeric: EmbeddingStore,
}

impl View for EdgeEmbeddingStore {
    type V = StoreModel;

    open spec fn view(&self) -> StoreModel {
        self.numeric@
    }
}

/// The store after the first `count` owners moved.
pub open spec fn remapped_upto(store: StoreModel, slots: Seq<u32>, count: nat) -> StoreModel
    decreases count,
{
    if count == 0 {
        StoreModel { model_id: store.model_id, ..empty_store(store.dimension, store.metric) }
    } else {
        let so_far = remapped_upto(store, slots, (count - 1) as nat);
        let owner = store.nodes[count - 1];
        match moved_to(slots, owner) {
            Some(edge) => {
                let written = with_vector(so_far, edge.slot, store.rows[count - 1]);
                match hash_of(store, owner) {
                    Some(hash) => with_hash(written, edge.slot, Some(hash)),
                    None => written,
                }
            },
            None => so_far,
        }
    }
}

/// The store with its owners moved, in the same order; those that moved
/// nowhere are gone, and so is the index.
pub open spec fn remapped(store: StoreModel, slots: Seq<u32>) -> StoreModel {
    remapped_upto(store, slots, store.nodes.len())
}

/// What a manual write of one vector does: the vector is written, and the hash
/// of the text it was made from is gone.
pub open spec fn with_manual(store: StoreModel, edge: EdgeIndex, vector: Seq<u32>) -> StoreModel {
    with_hash(with_vector(store, edge.slot, vector), edge.slot, None)
}

impl EdgeEmbeddingStore {
    /// The dense store is well formed.
    pub open spec fn well_formed(self) -> bool {
        self.numeric.well_formed()
    }

    /// A store without vectors.
    pub fn new(dimension: usize, metric: Option<&str>) -> (store: EdgeEmbeddingStore)
        ensures
            store.well_formed(),
            store@ == empty_store(dimension, str_option(metric)),
    {
        let numeric = match metric {
            Some(name) => EmbeddingStore::with_metric(dimension, name),
            None => EmbeddingStore::new(dimension),
        };
        EdgeEmbeddingStore { numeric }
    }

    /// The numbers in a vector.
    pub fn dimension(&self) -> (dimension: usize)
        ensures
            dimension == self@.dimension,
    {
        self.numeric.dimension
    }

    /// The vectors in the store.
    pub fn len(&self) -> (count: usize)
        ensures
            count == self@.nodes.len(),
    {
        self.numeric.len()
    }

    /// Whether the store holds no vector.
    pub fn is_empty(&self) -> (empty: bool)
        ensures
            empty == (self@.nodes.len() == 0),
    {
        self.numeric.len() == 0
    }

    /// The declared metric.
    pub fn metric(&self) -> (metric: Option<&str>)
        ensures
            str_option(metric) == self@.metric,
    {
        match &self.numeric.metric {
            Some(name) => Some(name.as_str()),
            None => None,
        }
    }

    /// The model that made the vectors.
    pub fn model_id(&self) -> (model: Option<&str>)
        ensures
            str_option(model) == self@.model_id,
    {
        match &self.numeric.model_id {
            Some(name) => Some(name.as_str()),
            None => None,
        }
    }

    /// The hash of the text a relationship's vector was made from.
    pub fn text_hash(&self, edge: EdgeIndex) -> (hash: Option<u64>)
        ensures
            hash == hash_of(self@, edge.slot),
    {
        self.numeric.text_hash(edge.slot)
    }

    /// A relationship's vector.
    pub fn get(&self, edge: EdgeIndex) -> (vector: Option<&[u32]>)
        requires
            self.well_formed(),
        ensures
            match vector {
                Some(v) => vector_of(self@, edge.slot) == Some(v@),
                None => vector_of(self@, edge.slot) is None,
            },
    {
        self.numeric.get_embedding(edge.slot)
    }

    /// The relationships with a vector, in dense order.
    pub fn edges(&self) -> (edges: Vec<EdgeIndex>)
        ensures
            edges@.len() == self@.nodes.len(),
            forall|i: int|
                0 <= i < edges@.len() ==> (#[trigger] edges@[i]).slot == self@.nodes[i],
    {
        let mut edges: Vec<EdgeIndex> = Vec::new();
        let mut i: usize = 0;
        while i < self.numeric.slot_to_node.len()
            invariant
                i <= self.numeric.slot_to_node@.len(),
                edges@.len() == i,
                forall|k: int|
                    0 <= k < i ==> (#[trigger] edges@[k]).slot == self.numeric.slot_to_node@[k],
            decreases self.numeric.slot_to_node@.len() - i,
        {
            edges.push(EdgeIndex { slot: self.numeric.slot_to_node[i] });
            i = i + 1;
        }
        edges
    }

    /// A copy.
    pub fn duplicate(&self) -> (copy: EdgeEmbeddingStore)
        requires
            self.well_formed(),
        ensures
            copy.well_formed(),
            copy@ == self@,
    {
        EdgeEmbeddingStore { numeric: self.numeric.duplicate() }
    }

    /// Puts an index back, with what it covers.
    pub fn restore_index_state(&mut self, state: &VectorIndexState)
        requires
            old(self).well_formed(),
            state.well_formed(),
        ensures
            final(self).well_formed(),
            final(self)@ == with_index_state(old(self)@, state@),
    {
        self.numeric.restore_index_state(state);
    }

    /// Writes a vector by hand: it takes the cell over, so the hash of the text
    /// it was made from is gone.
    pub fn set_manual(&mut self, edge: EdgeIndex, vector: &[u32])
        requires
            old(self).well_formed(),
            vector@.len() == old(self)@.dimension,
        ensures
            final(self).well_formed(),
            final(self)@ == with_manual(old(self)@, edge, vector@),
    {
        self.numeric.set_embedding(edge.slot, vector);
        self.numeric.clear_text_hash(edge.slot);
    }

    /// Sets what a store declares. Refused where vectors of another dimension
    /// are held.
    pub fn set_wal_metadata(
        &mut self,
        dimension: usize,
        metric: Option<String>,
        model_id: Option<String>,
    ) -> (result: Result<(), String>)
        requires
            old(self).well_formed(),
        ensures
            final(self).well_formed(),
            match result {
                Ok(_) => {
                    &&& old(self)@.nodes.len() == 0 || old(self)@.dimension == dimension
                    &&& final(self)@ == (StoreModel {
                        dimension,
                        metric: text_option(metric),
                        model_id: text_option(model_id),
                        ..old(self)@
                    })
                },
                Err(message) => {
                    &&& old(self)@.nodes.len() > 0 && old(self)@.dimension != dimension
                    &&& *final(self) == *old(self)
                    &&& message@
                        == "cannot change a non-empty relationship embedding store from dimension "@
                        + decimal(old(self)@.dimension as nat) + " to "@ + decimal(
                        dimension as nat,
                    )
                },
            },
    {
        if !self.is_empty() && self.dimension() != dimension {
            let mut message =
                "cannot change a non-empty relationship embedding store from dimension ".to_owned();
            push_number(&mut message, self.dimension());
            message.append(" to ");
            push_number(&mut message, dimension);
            return Err(message);
        }
        proof {
            self.numeric.is_coherent();
        }
        self.numeric.dimension = dimension;
        self.numeric.metric = metric;
        self.numeric.model_id = model_id;
        proof {
            if old(self)@.nodes.len() == 0 {
                nothing_times(dimension as int);
                nothing_times(old(self)@.dimension as int);
                assert(self@.rows =~= old(self)@.rows);
            }
        }
        Ok(())
    }

    /// Installs a vector with the hash of the text it was made from.
    pub fn install_wal_vector(&mut self, edge: EdgeIndex, vector: &[u32], text_hash: Option<u64>)
        requires
            old(self).well_formed(),
            vector@.len() == old(self)@.dimension,
        ensures
            final(self).well_formed(),
            final(self)@ == with_hash(
                with_vector(old(self)@, edge.slot, vector@),
                edge.slot,
                text_hash,
            ),
    {
        self.numeric.set_embedding(edge.slot, vector);
        match text_hash {
            Some(hash) => {
                proof {
                    old(self).numeric.is_coherent();
                    crate::store::a_written_vector_reads_back(old(self)@, edge.slot, vector@);
                }
                self.numeric.set_text_hash(edge.slot, hash)
            },
            None => self.numeric.clear_text_hash(edge.slot),
        }
    }

    /// Takes a relationship's vector out.
    pub fn remove(&mut self, edge: EdgeIndex) -> (removed: Option<RemovedEmbedding>)
        requires
            old(self).well_formed(),
        ensures
            final(self).well_formed(),
            final(self)@ == without_vector(old(self)@, edge.slot),
            match removed {
                Some(r) => removed_of(old(self)@, edge.slot) == Some(r@),
                None => removed_of(old(self)@, edge.slot) is None && *final(self) == *old(self),
            },
    {
        self.numeric.remove_embedding(edge.slot)
    }

    /// Puts a removed vector back where it stood.
    pub fn restore(&mut self, edge: EdgeIndex, removed: &RemovedEmbedding)
        requires
            old(self).well_formed(),
        ensures
            final(self).well_formed(),
            final(self)@ == restored(old(self)@, edge.slot, removed@),
    {
        self.numeric.restore_embedding(edge.slot, removed);
    }

    /// What a manual write of a cell would lose, or `None` where it would append.
    pub fn manual_cell_prior(&self, edge: EdgeIndex) -> (cell: Option<
        (RemovedEmbedding, SlotCoverage),
    >)
        requires
            self.well_formed(),
        ensures
            match cell {
                Some((prior, coverage)) => {
                    &&& removed_of(self@, edge.slot) == Some(prior@)
                    &&& coverage.stale == self@.freshness.changed.contains(
                        place_of(self@, edge.slot) as usize,
                    )
                },
                None => removed_of(self@, edge.slot) is None,
            },
    {
        self.numeric.cell_pre_image(edge.slot)
    }

    /// Puts a cell back as it was before an overwrite.
    pub fn restore_cell(&mut self, edge: EdgeIndex, prior: &RemovedEmbedding, coverage: SlotCoverage)
        requires
            old(self).well_formed(),
        ensures
            final(self).well_formed(),
            final(self)@ == cell_restored(old(self)@, edge.slot, prior@, coverage),
    {
        self.numeric.restore_cell(edge.slot, prior, coverage);
    }

    /// Takes out the cell that was appended for a relationship.
    pub fn pop_appended_cell(&mut self, edge: EdgeIndex)
        requires
            old(self).well_formed(),
        ensures
            final(self).well_formed(),
            final(self)@ == popped(old(self)@, edge.slot),
    {
        self.numeric.pop_appended_embedding(edge.slot);
    }

    /// Sets the model that made the vectors.
    pub fn set_model_id(&mut self, model_id: Option<String>)
        requires
            old(self).well_formed(),
        ensures
            final(self).well_formed(),
            final(self)@ == (StoreModel { model_id: text_option(model_id), ..old(self)@ }),
    {
        self.numeric.model_id = model_id;
    }

    /// Moves the owners to the slots their relationships moved to.
    pub fn remap(&mut self, remap: &EdgeRemap)
        requires
            old(self).well_formed(),
        ensures
            final(self).well_formed(),
            final(self)@ == remapped(old(self)@, remap.slots@),
    {
        self.numeric = remapped_store(&self.numeric, remap);
    }
}

/// The store with its owners moved.
pub(crate) fn remapped_store(store: &EmbeddingStore, remap: &EdgeRemap) -> (rebuilt: EmbeddingStore)
    requires
        store.well_formed(),
    ensures
        rebuilt.well_formed(),
        rebuilt@ == remapped(store@, remap.slots@),
{
    let mut rebuilt = EmbeddingStore::new(store.dimension);
    rebuilt.metric = store.metric.clone();
    rebuilt.model_id = store.model_id.clone();
    proof {
        store.is_coherent();
    }
    let mut i: usize = 0;
    while i < store.slot_to_node.len()
        invariant
            i <= store.slot_to_node@.len(),
            store.well_formed(),
            coherent(store@),
            rebuilt.well_formed(),
            rebuilt@ == remapped_upto(store@, remap.slots@, i as nat),
            rebuilt.dimension == store.dimension,
        decreases store.slot_to_node@.len() - i,
    {
        let owner: usize = store.slot_to_node[i];
        match remap.get(EdgeIndex { slot: owner }) {
            Some(edge) => {
                let ghost before = rebuilt@;
                proof {
                    rebuilt.is_coherent();
                }
                rebuilt.set_embedding(edge.slot, store.row(i));
                match store.text_hash(owner) {
                    Some(hash) => {
                        proof {
                            crate::store::a_written_vector_reads_back(
                                before,
                                edge.slot,
                                store@.rows[i as int],
                            );
                        }
                        rebuilt.set_text_hash(edge.slot, hash);
                    },
                    None => {},
                }
            },
            None => {},
        }
        i = i + 1;
    }
    rebuilt
}

proof fn nothing_times(n: int)
    ensures
        0 * n == 0,
{
}

/// No two owners move to one slot.
pub open spec fn moves_apart(store: StoreModel, slots: Seq<u32>) -> bool {
    forall|i: int, j: int|
        0 <= i < j < store.nodes.len() && moved_to(slots, #[trigger] store.nodes[i]) is Some
            && moved_to(slots, #[trigger] store.nodes[j]) is Some ==> moved_to(
            slots,
            store.nodes[i],
        ) != moved_to(slots, store.nodes[j])
}

/// The slots the first `count` owners moved to, in order.
pub open spec fn new_owners(nodes: Seq<usize>, slots: Seq<u32>, count: nat) -> Seq<usize>
    decreases count,
{
    if count == 0 {
        Seq::empty()
    } else {
        let before = new_owners(nodes, slots, (count - 1) as nat);
        match moved_to(slots, nodes[count - 1]) {
            Some(edge) => before.push(edge.slot),
            None => before,
        }
    }
}

/// What a compaction keeps: the owners that moved, in the order they were in,
/// each with its vector and its text hash, and nothing else.
pub proof fn a_remap_keeps_what_moved(store: StoreModel, slots: Seq<u32>)
    requires
        coherent(store),
        moves_apart(store, slots),
    ensures
        remapped(store, slots).nodes == new_owners(store.nodes, slots, store.nodes.len()),
        remapped(store, slots).index is None,
        remapped(store, slots).dimension == store.dimension,
        remapped(store, slots).metric == store.metric,
        remapped(store, slots).model_id == store.model_id,
        forall|i: int|
            0 <= i < store.nodes.len() && moved_to(slots, #[trigger] store.nodes[i]) is Some ==> {
                let edge = moved_to(slots, store.nodes[i])->0;
                &&& vector_of(remapped(store, slots), edge.slot) == Some(store.rows[i])
                &&& hash_of(remapped(store, slots), edge.slot) == hash_of(store, store.nodes[i])
            },
{
    remap_keeps_upto(store, slots, store.nodes.len());
}

proof fn remap_keeps_upto(store: StoreModel, slots: Seq<u32>, count: nat)
    requires
        coherent(store),
        moves_apart(store, slots),
        count <= store.nodes.len(),
    ensures
        coherent(remapped_upto(store, slots, count)),
        remapped_upto(store, slots, count).nodes == new_owners(store.nodes, slots, count),
        remapped_upto(store, slots, count).index is None,
        remapped_upto(store, slots, count).dimension == store.dimension,
        remapped_upto(store, slots, count).metric == store.metric,
        remapped_upto(store, slots, count).model_id == store.model_id,
        forall|n: usize|
            #[trigger] holds(remapped_upto(store, slots, count), n) ==> exists|i: int|
                0 <= i < count && moved_to(slots, #[trigger] store.nodes[i]) == Some(
                    EdgeIndex { slot: n },
                ),
        forall|i: int|
            0 <= i < count && moved_to(slots, #[trigger] store.nodes[i]) is Some ==> {
                let edge = moved_to(slots, store.nodes[i])->0;
                &&& vector_of(remapped_upto(store, slots, count), edge.slot) == Some(store.rows[i])
                &&& hash_of(remapped_upto(store, slots, count), edge.slot) == hash_of(
                    store,
                    store.nodes[i],
                )
            },
    decreases count,
{
    let after = remapped_upto(store, slots, count);
    if count == 0 {
        assert(after.nodes =~= Seq::<usize>::empty());
    } else {
        let at = count - 1;
        let before = remapped_upto(store, slots, at as nat);
        remap_keeps_upto(store, slots, at as nat);
        let owner = store.nodes[at];
        match moved_to(slots, owner) {
            Some(edge) => {
                if holds(before, edge.slot) {
                    let i = choose|i: int|
                        0 <= i < at && moved_to(slots, #[trigger] store.nodes[i]) == Some(
                            EdgeIndex { slot: edge.slot },
                        );
                    assert(moved_to(slots, store.nodes[i]) != moved_to(slots, store.nodes[at]));
                    assert(false);
                }
                assert(!holds(before, edge.slot));
                assert(!before.hashes.contains_key(edge.slot));
                crate::store::a_written_vector_reads_back(before, edge.slot, store.rows[at]);
                let written = with_vector(before, edge.slot, store.rows[at]);
                assert(written.nodes == before.nodes.push(edge.slot));
                assert(after.nodes == written.nodes);
                assert(after.rows == written.rows);
                assert forall|n: usize| vector_of(after, n) == vector_of(written, n) by {}
                assert(after.nodes.no_duplicates()) by {
                    assert forall|i: int, j: int|
                        0 <= i < after.nodes.len() && 0 <= j < after.nodes.len() && i != j implies
                        after.nodes[i] != after.nodes[j] by {
                        if i == before.nodes.len() {
                            assert(before.nodes[j] != edge.slot);
                        } else if j == before.nodes.len() {
                            assert(before.nodes[i] != edge.slot);
                        }
                    }
                }
                assert(after.nodes.len() <= store.nodes.len()) by {
                    owners_fit(store.nodes, slots, count);
                }
                assert forall|n: usize| #[trigger] after.hashes.contains_key(n) implies
                    after.nodes.contains(n) by {
                    if n == edge.slot {
                        assert(after.nodes[before.nodes.len() as int] == n);
                    } else {
                        assert(before.hashes.contains_key(n));
                        assert(before.nodes.contains(n));
                        assert(after.nodes[before.nodes.index_of(n)] == n);
                    }
                }
                assert forall|n: usize| #[trigger] holds(after, n) implies exists|i: int|
                    0 <= i < count && moved_to(slots, #[trigger] store.nodes[i]) == Some(
                        EdgeIndex { slot: n },
                    ) by {
                    let k = after.nodes.index_of(n);
                    assert(after.nodes[k] == n);
                    if k < before.nodes.len() {
                        assert(before.nodes[k] == n);
                        assert(holds(before, n));
                        let i = choose|i: int|
                            0 <= i < at && moved_to(slots, #[trigger] store.nodes[i]) == Some(
                                EdgeIndex { slot: n },
                            );
                        assert(moved_to(slots, store.nodes[i]) == Some(EdgeIndex { slot: n }));
                    } else {
                        assert(moved_to(slots, store.nodes[at]) == Some(EdgeIndex { slot: n }));
                    }
                }
                assert forall|i: int|
                    0 <= i < count && moved_to(slots, #[trigger] store.nodes[i]) is Some implies {
                    let e = moved_to(slots, store.nodes[i])->0;
                    &&& vector_of(after, e.slot) == Some(store.rows[i])
                    &&& hash_of(after, e.slot) == hash_of(store, store.nodes[i])
                } by {
                    if i < at {
                        assert(moved_to(slots, store.nodes[i]) != moved_to(slots, store.nodes[at]));
                        let e = moved_to(slots, store.nodes[i])->0;
                        assert(e.slot != edge.slot);
                        assert(vector_of(written, e.slot) == vector_of(before, e.slot));
                    }
                }
            },
            None => {
                assert forall|n: usize| #[trigger] holds(after, n) implies exists|i: int|
                    0 <= i < count && moved_to(slots, #[trigger] store.nodes[i]) == Some(
                        EdgeIndex { slot: n },
                    ) by {
                    assert(holds(before, n));
                    let i = choose|i: int|
                        0 <= i < at && moved_to(slots, #[trigger] store.nodes[i]) == Some(
                            EdgeIndex { slot: n },
                        );
                    assert(moved_to(slots, store.nodes[i]) == Some(EdgeIndex { slot: n }));
                }
            },
        }
    }
}

proof fn owners_fit(nodes: Seq<usize>, slots: Seq<u32>, count: nat)
    ensures
        new_owners(nodes, slots, count).len() <= count,
    decreases count,
{
    if count > 0 {
        owners_fit(nodes, slots, (count - 1) as nat);
    }
}

} // verus!
