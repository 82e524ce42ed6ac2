//! A store of vectors: one per owner, laid out densely, with the hash of the
//! text each was made from and the index built over them.
use std::collections::HashMap;
use vstd::prelude::*;
use vstd::slice::slice_subrange;
use crate::freshness::{
    covering_model, outstanding, touched, uncovered, FreshnessModel, IndexFreshness,
    DEFAULT_AUTO_REFRESH_LIMIT,
};
use crate::metric::{DistanceMetric, HnswParams, VectorIndex};
use crate::text::{text_option, Text};

verus! {

/// Vectors by owner. The owner in dense slot `i` is `slot_to_node[i]`, and its
/// vector is the `i`-th stretch of `dimension` numbers of `data`.
#[derive(Debug, Clone)]
pub struct EmbeddingStore {
    /// The numbers in a vector.
    pub dimension: usize,
    /// Every vector's numbers, in slot order.
    pub data: Vec<u32>,
    /// The owner of each slot.
    pub slot_to_node: Vec<usize>,
    /// The slot of each owner.
    pub node_to_slot: HashMap<usize, usize>,
    /// The metric the vectors are scored under, where one is declared.
    pub metric: Option<String>,
    /// The model that made the vectors, where one made them all.
    pub model_id: Option<String>,
    /// The hash of the text each generated vector was made from.
    pub text_hashes: HashMap<usize, u64>,
    /// The index over the vectors, where one is built.
    pub index: Option<VectorIndex>,
    /// What the index covers.
    pub freshness: IndexFreshness,
}

/// What a store holds.
#[verifier::ext_equal]
pub struct StoreModel {
    pub dimension: usize,
    pub nodes: Seq<usize>,
    pub rows: Seq<Seq<u32>>,
    pub metric: Option<Text>,
    pub model_id: Option<Text>,
    pub hashes: Map<usize, u64>,
    pub index: Option<VectorIndex>,
    pub freshness: FreshnessModel,
}

/// A vector taken out of a store: where it stood and what stood there.
#[derive(Debug, Clone)]
pub struct RemovedEmbedding {
    /// The dense slot.
    pub slot: usize,
    /// The vector.
    pub vector: Vec<u32>,
    /// The hash of its text.
    pub text_hash: Option<u64>,
}

/// What was taken out of a store.
#[verifier::ext_equal]
pub struct RemovedModel {
    pub slot: usize,
    pub vector: Seq<u32>,
    pub text_hash: Option<u64>,
}

impl View for RemovedEmbedding {
    type V = RemovedModel;

    open spec fn view(&self) -> RemovedModel {
        RemovedModel { slot: self.slot, vector: self.vector@, text_hash: self.text_hash }
    }
}

/// Whether the index has a slot as it is.
#[derive(Clone, Copy, Debug, PartialEq, Eq, Structural)]
pub struct SlotCoverage {
    /// The slot changed since the index covered it.
    pub stale: bool,
}

/// A store's index and what it covers.
#[derive(Debug, Clone)]
pub struct VectorIndexState {
    /// The index, where one is built.
    pub index: Option<VectorIndex>,
    /// What it covers.
    pub freshness: IndexFreshness,
}

/// What an index state holds.
#[verifier::ext_equal]
pub struct IndexStateModel {
    pub index: Option<VectorIndex>,
    pub freshness: FreshnessModel,
}

impl View for VectorIndexState {
    type V = IndexStateModel;

    open spec fn view(&self) -> IndexStateModel {
        IndexStateModel { index: self.index, freshness: self.freshness@ }
    }
}

impl VectorIndexState {
    /// The freshness is well formed, and covers nothing where no index is built.
    pub open spec fn well_formed(self) -> bool {
        &&& self.freshness.well_formed()
        &&& self.index is None ==> self.freshness@ == uncovered(self.freshness.limit)
    }
}

/// The `i`-th stretch of `dimension` numbers.
pub open spec fn row_of(data: Seq<u32>, dimension: nat, i: int) -> Seq<u32> {
    data.subrange(i * dimension, i * dimension + dimension)
}

/// The first `count` stretches of `dimension` numbers.
pub open spec fn rows_of(data: Seq<u32>, dimension: nat, count: nat) -> Seq<Seq<u32>> {
    Seq::new(count, |i: int| row_of(data, dimension, i))
}

/// An owner's place among the owners.
pub open spec fn place_of(store: StoreModel, node: usize) -> int {
    store.nodes.index_of(node)
}

/// The owner has a vector.
pub open spec fn holds(store: StoreModel, node: usize) -> bool {
    store.nodes.contains(node)
}

/// The owner's vector.
pub open spec fn vector_of(store: StoreModel, node: usize) -> Option<Seq<u32>> {
    if holds(store, node) {
        Some(store.rows[place_of(store, node)])
    } else {
        None
    }
}

/// The hash of the text that the owner's vector was made from.
pub open spec fn hash_of(store: StoreModel, node: usize) -> Option<u64> {
    if store.hashes.contains_key(node) {
        Some(store.hashes[node])
    } else {
        None
    }
}

/// A store without vectors.
pub open spec fn empty_store(dimension: usize, metric: Option<Text>) -> StoreModel {
    StoreModel {
        dimension,
        nodes: Seq::empty(),
        rows: Seq::empty(),
        metric,
        model_id: None,
        hashes: Map::empty(),
        index: None,
        freshness: uncovered(DEFAULT_AUTO_REFRESH_LIMIT),
    }
}

/// The store with an owner's vector written: in place, or after the others.
pub open spec fn with_vector(store: StoreModel, node: usize, vector: Seq<u32>) -> StoreModel {
    if holds(store, node) {
        StoreModel {
            rows: store.rows.update(place_of(store, node), vector),
            freshness: touched(store.freshness, place_of(store, node) as usize),
            ..store
        }
    } else {
        StoreModel { nodes: store.nodes.push(node), rows: store.rows.push(vector), ..store }
    }
}

/// The store with an owner's text hash set or cleared.
pub open spec fn with_hash(store: StoreModel, node: usize, hash: Option<u64>) -> StoreModel {
    match hash {
        Some(h) => StoreModel { hashes: store.hashes.insert(node, h), ..store },
        None => StoreModel { hashes: store.hashes.remove(node), ..store },
    }
}

/// The store without its index.
pub open spec fn unindexed(store: StoreModel) -> StoreModel {
    StoreModel { index: None, freshness: uncovered(store.freshness.limit), ..store }
}

/// A sequence with the item at `i` replaced by the last one, which leaves its
/// own place.
pub open spec fn tail_swapped<A>(items: Seq<A>, i: int) -> Seq<A> {
    items.update(i, items.last()).drop_last()
}

/// A sequence with `item` back at `i`, and what stood there at the end.
pub open spec fn swapped_back<A>(items: Seq<A>, i: int, item: A) -> Seq<A> {
    if i < items.len() {
        items.update(i, item).push(items[i])
    } else {
        items.push(item)
    }
}

/// The store without an owner's vector: the last one moves into its slot, and
/// the index goes.
pub open spec fn without_vector(store: StoreModel, node: usize) -> StoreModel {
    if holds(store, node) {
        unindexed(
            StoreModel {
                nodes: tail_swapped(store.nodes, place_of(store, node)),
                rows: tail_swapped(store.rows, place_of(store, node)),
                hashes: store.hashes.remove(node),
                ..store
            },
        )
    } else {
        store
    }
}

/// What [`without_vector`] takes out.
pub open spec fn removed_of(store: StoreModel, node: usize) -> Option<RemovedModel> {
    if holds(store, node) {
        Some(
            RemovedModel {
                slot: place_of(store, node) as usize,
                vector: store.rows[place_of(store, node)],
                text_hash: hash_of(store, node),
            },
        )
    } else {
        None
    }
}

/// The vector can go back where it stood.
pub open spec fn restorable(store: StoreModel, node: usize, removed: RemovedModel) -> bool {
    &&& !holds(store, node)
    &&& removed.slot <= store.nodes.len()
    &&& removed.vector.len() == store.dimension
}

/// The store with a removed vector back where it stood. The index goes.
pub open spec fn restored(store: StoreModel, node: usize, removed: RemovedModel) -> StoreModel {
    if restorable(store, node, removed) {
        with_hash(
            unindexed(
                StoreModel {
                    nodes: swapped_back(store.nodes, removed.slot as int, node),
                    rows: swapped_back(store.rows, removed.slot as int, removed.vector),
                    ..store
                },
            ),
            node,
            removed.text_hash,
        )
    } else {
        store
    }
}

/// The store with an owner's cell back as it was before an overwrite.
pub open spec fn cell_restored(
    store: StoreModel,
    node: usize,
    prior: RemovedModel,
    coverage: SlotCoverage,
) -> StoreModel {
    if holds(store, node) && prior.vector.len() == store.dimension {
        let place = place_of(store, node);
        let cell = with_hash(
            StoreModel { rows: store.rows.update(place, prior.vector), ..store },
            node,
            prior.text_hash,
        );
        StoreModel {
            freshness: if coverage.stale {
                touched(cell.freshness, place as usize)
            } else {
                FreshnessModel {
                    changed: cell.freshness.changed.remove(place as usize),
                    ..cell.freshness
                }
            },
            ..cell
        }
    } else {
        store
    }
}

/// The store without the vector that was appended for an owner: the last one
/// moves into its slot. An index that had covered the slot goes.
pub open spec fn popped(store: StoreModel, node: usize) -> StoreModel {
    if holds(store, node) {
        let place = place_of(store, node);
        let shorter = StoreModel {
            nodes: tail_swapped(store.nodes, place),
            rows: tail_swapped(store.rows, place),
            hashes: store.hashes.remove(node),
            ..store
        };
        if place < store.freshness.covered {
            unindexed(shorter)
        } else {
            shorter
        }
    } else {
        store
    }
}

/// The store with an index state put back. A state that covers more than the
/// store holds is dropped.
pub open spec fn with_index_state(store: StoreModel, state: IndexStateModel) -> StoreModel {
    if state.freshness.covered <= store.nodes.len() {
        StoreModel { index: state.index, freshness: state.freshness, ..store }
    } else {
        StoreModel { index: None, freshness: uncovered(state.freshness.limit), ..store }
    }
}

/// The index state of a store.
pub open spec fn index_state_of(store: StoreModel) -> IndexStateModel {
    IndexStateModel { index: store.index, freshness: store.freshness }
}

/// The store with an index built over all its vectors.
pub open spec fn indexed_with(store: StoreModel, index: VectorIndex) -> StoreModel {
    StoreModel {
        index: Some(index),
        freshness: covering_model(store.nodes.len() as usize, store.freshness.limit),
        ..store
    }
}

/// The vectors that the store's index does not have as they are.
pub open spec fn delta_of(store: StoreModel) -> nat {
    if store.index is Some {
        outstanding(store.freshness, store.nodes.len())
    } else {
        0
    }
}

/// The store with every vector folded into its index, where it has one.
pub open spec fn refreshed(store: StoreModel) -> StoreModel {
    match store.index {
        Some(index) => indexed_with(store, index),
        None => store,
    }
}

/// A store that a query found: with what is outstanding folded in, where a
/// query may fold that much in by itself.
pub open spec fn caught_up(store: StoreModel, read_only: bool) -> StoreModel {
    if store.index is Some && !read_only && delta_of(store) <= store.freshness.limit {
        refreshed(store)
    } else {
        store
    }
}

/// The models that a well-formed store can have.
pub open spec fn coherent(store: StoreModel) -> bool {
    &&& store.nodes.len() == store.rows.len()
    &&& store.nodes.len() <= usize::MAX
    &&& store.nodes.no_duplicates()
    &&& forall|i: int|
        0 <= i < store.rows.len() ==> (#[trigger] store.rows[i]).len() == store.dimension
    &&& forall|n: usize| #[trigger] store.hashes.contains_key(n) ==> store.nodes.contains(n)
    &&& store.freshness.covered <= store.nodes.len()
    &&& store.freshness.changed.finite()
    &&& forall|s: usize|
        #[trigger] store.freshness.changed.contains(s) ==> s < store.freshness.covered
    &&& store.index is None ==> store.freshness == uncovered(store.freshness.limit)
}

/// Rows stay within the data.
pub proof fn row_fits(i: int, count: nat, dimension: nat)
    requires
        0 <= i < count,
    ensures
        0 <= i * dimension,
        i * dimension + dimension <= count * dimension,
        (i + 1) * dimension == i * dimension + dimension,
{
    assert(0 <= i * dimension) by (nonlinear_arith)
        requires
            0 <= i,
            0 <= dimension,
    ;
    assert((i + 1) * dimension == i * dimension + dimension) by (nonlinear_arith);
    assert((i + 1) * dimension <= count * dimension) by (nonlinear_arith)
        requires
            i + 1 <= count,
            0 <= dimension,
    ;
}

/// Rows that come before each other do not overlap.
proof fn rows_apart(i: int, j: int, dimension: nat)
    requires
        0 <= i < j,
    ensures
        i * dimension + dimension <= j * dimension,
{
    assert((i + 1) * dimension == i * dimension + dimension) by (nonlinear_arith);
    assert((i + 1) * dimension <= j * dimension) by (nonlinear_arith)
        requires
            i + 1 <= j,
            0 <= dimension,
    ;
}

/// Appending one vector's numbers appends a row.
proof fn rows_push(data: Seq<u32>, vector: Seq<u32>, dimension: nat, count: nat)
    requires
        data.len() == count * dimension,
        vector.len() == dimension,
    ensures
        rows_of(data + vector, dimension, count + 1) == rows_of(data, dimension, count).push(
            vector,
        ),
        (data + vector).len() == (count + 1) * dimension,
{
    let all = data + vector;
    row_fits(count as int, count + 1, dimension);
    assert forall|i: int| 0 <= i < count + 1 implies #[trigger] row_of(all, dimension, i) == rows_of(
        data,
        dimension,
        count,
    ).push(vector)[i] by {
        if i < count {
            row_fits(i, count, dimension);
            assert(row_of(all, dimension, i) =~= row_of(data, dimension, i));
        } else {
            assert(row_of(all, dimension, i) =~= vector);
        }
    }
    assert(rows_of(all, dimension, count + 1) =~= rows_of(data, dimension, count).push(vector));
}

/// Overwriting the numbers of one row replaces that row.
proof fn rows_update(
    before: Seq<u32>,
    after: Seq<u32>,
    vector: Seq<u32>,
    dimension: nat,
    count: nat,
    at: int,
)
    requires
        before.len() == count * dimension,
        after.len() == before.len(),
        vector.len() == dimension,
        0 <= at < count,
        forall|k: int|
            0 <= k < before.len() ==> #[trigger] after[k] == if at * dimension <= k < at * dimension
                + dimension {
                vector[k - at * dimension]
            } else {
                before[k]
            },
    ensures
        rows_of(after, dimension, count) == rows_of(before, dimension, count).update(at, vector),
{
    assert forall|i: int| 0 <= i < count implies #[trigger] row_of(after, dimension, i) == rows_of(
        before,
        dimension,
        count,
    ).update(at, vector)[i] by {
        row_fits(i, count, dimension);
        if i == at {
            assert(row_of(after, dimension, i) =~= vector);
        } else {
            if i < at {
                rows_apart(i, at, dimension);
            } else {
                rows_apart(at, i, dimension);
            }
            assert(row_of(after, dimension, i) =~= row_of(before, dimension, i));
        }
    }
    assert(rows_of(after, dimension, count) =~= rows_of(before, dimension, count).update(
        at,
        vector,
    ));
}

/// Cutting off the last row's numbers drops the last row.
proof fn rows_drop_last(data: Seq<u32>, dimension: nat, count: nat)
    requires
        data.len() == count * dimension,
        count > 0,
    ensures
        0 <= (count - 1) * dimension <= data.len(),
        rows_of(data.take((count - 1) * dimension), dimension, (count - 1) as nat) == rows_of(
            data,
            dimension,
            count,
        ).drop_last(),
{
    row_fits(count - 1, count, dimension);
    let cut = data.take((count - 1) * dimension);
    assert forall|i: int| 0 <= i < count - 1 implies #[trigger] row_of(cut, dimension, i) == rows_of(
        data,
        dimension,
        count,
    ).drop_last()[i] by {
        row_fits(i, (count - 1) as nat, dimension);
        assert(row_of(cut, dimension, i) =~= row_of(data, dimension, i));
    }
    assert(rows_of(cut, dimension, (count - 1) as nat) =~= rows_of(
        data,
        dimension,
        count,
    ).drop_last());
}

impl View for EmbeddingStore {
    type V = StoreModel;

    open spec fn view(&self) -> StoreModel {
        StoreModel {
            dimension: self.dimension,
            nodes: self.slot_to_node@,
            rows: rows_of(self.data@, self.dimension as nat, self.slot_to_node@.len()),
            metric: text_option(self.metric),
            model_id: text_option(self.model_id),
            hashes: self.text_hashes@,
            index: self.index,
            freshness: self.freshness@,
        }
    }
}

impl EmbeddingStore {
    /// The slots and the owners match one to one, the numbers fill the slots,
    /// only owners have hashes, and an index covers no more than there is.
    pub open spec fn well_formed(self) -> bool {
        &&& self.lined_up()
        &&& self.freshness.well_formed()
        &&& self.freshness.covered <= self.slot_to_node@.len()
        &&& self.index is None ==> self.freshness@ == uncovered(self.freshness.limit)
    }

    /// The slots and the owners match one to one, the numbers fill the slots,
    /// and only owners have hashes.
    pub open spec fn lined_up(self) -> bool {
        &&& self.data@.len() == self.slot_to_node@.len() * self.dimension
        &&& forall|i: int|
            0 <= i < self.slot_to_node@.len() ==> self.node_to_slot@.contains_key(
                #[trigger] self.slot_to_node@[i],
            ) && self.node_to_slot@[self.slot_to_node@[i]] == i
        &&& forall|n: usize| #[trigger]
            self.node_to_slot@.contains_key(n) ==> self.node_to_slot@[n] < self.slot_to_node@.len()
                && self.slot_to_node@[self.node_to_slot@[n] as int] == n
        &&& forall|n: usize| #[trigger]
            self.text_hashes@.contains_key(n) ==> self.node_to_slot@.contains_key(n)
    }

    /// A well-formed store holds a coherent model, and finds owners by place.
    pub proof fn is_coherent(&self)
        requires
            self.well_formed(),
        ensures
            coherent(self@),
            forall|n: usize| #[trigger] holds(self@, n) <==> self.node_to_slot@.contains_key(n),
            forall|n: usize|
                #[trigger] self.node_to_slot@.contains_key(n) ==> place_of(self@, n)
                    == self.node_to_slot@[n],
    {
        let nodes = self.slot_to_node@;
        assert forall|i: int, j: int|
            0 <= i < nodes.len() && 0 <= j < nodes.len() && i != j implies nodes[i] != nodes[j] by {
            assert(self.node_to_slot@[nodes[i]] == i);
            assert(self.node_to_slot@[nodes[j]] == j);
        }
        assert forall|n: usize| #[trigger] holds(self@, n) <==> self.node_to_slot@.contains_key(n) by {
            if holds(self@, n) {
                let i = nodes.index_of(n);
                assert(nodes[i] == n);
            }
            if self.node_to_slot@.contains_key(n) {
                assert(nodes[self.node_to_slot@[n] as int] == n);
            }
        }
        assert forall|n: usize| #[trigger] self.node_to_slot@.contains_key(n) implies place_of(
            self@,
            n,
        ) == self.node_to_slot@[n] by {
            assert(nodes[self.node_to_slot@[n] as int] == n);
            assert(nodes.contains(n));
            assert(nodes[nodes.index_of(n)] == n);
        }
        assert forall|n: usize| #[trigger] self@.hashes.contains_key(n) implies self@.nodes.contains(
            n,
        ) by {
            assert(self.node_to_slot@.contains_key(n));
            assert(holds(self@, n));
        }
        assert forall|i: int| 0 <= i < self@.rows.len() implies (#[trigger] self@.rows[i]).len()
            == self.dimension by {
            row_fits(i, nodes.len(), self.dimension as nat);
        }
        self.freshness.changed_fits();
        assert forall|s: usize| #[trigger] self@.freshness.changed.contains(s) implies s
            < self@.freshness.covered by {
            let k = self.freshness.changed@.index_of(s);
            assert(self.freshness.changed@[k] == s);
        }
        assert(self.slot_to_node.len() <= usize::MAX);
    }

    /// A store without vectors and without a metric.
    pub fn new(dimension: usize) -> (store: EmbeddingStore)
        ensures
            store.well_formed(),
            store@ == empty_store(dimension, None),
    {
        broadcast use vstd::std_specs::hash::group_hash_axioms;
        let store = EmbeddingStore {
            dimension,
            data: Vec::new(),
            slot_to_node: Vec::new(),
            node_to_slot: HashMap::new(),
            metric: None,
            model_id: None,
            text_hashes: HashMap::new(),
            index: None,
            freshness: IndexFreshness::covering(0, DEFAULT_AUTO_REFRESH_LIMIT),
        };
        assert(store@ =~= empty_store(dimension, None));
        store
    }

    /// A store without vectors, scored under `metric`.
    pub fn with_metric(dimension: usize, metric: &str) -> (store: EmbeddingStore)
        ensures
            store.well_formed(),
            store@ == empty_store(dimension, Some(metric@)),
    {
        let mut store = EmbeddingStore::new(dimension);
        store.metric = Some(metric.to_owned());
        store
    }

    /// The vectors in the store.
    pub fn len(&self) -> (count: usize)
        ensures
            count == self@.nodes.len(),
    {
        self.slot_to_node.len()
    }

    /// The numbers in slot `slot`.
    pub fn row(&self, slot: usize) -> (vector: &[u32])
        requires
            self.well_formed(),
            slot < self@.nodes.len(),
        ensures
            vector@ == self@.rows[slot as int],
    {
        let total: usize = self.data.len();
        proof {
            row_fits(slot as int, self.slot_to_node@.len(), self.dimension as nat);
        }
        slice_subrange(
            self.data.as_slice(),
            slot * self.dimension,
            slot * self.dimension + self.dimension,
        )
    }

    /// An owner's vector.
    pub fn get_embedding(&self, node: usize) -> (vector: Option<&[u32]>)
        requires
            self.well_formed(),
        ensures
            match vector {
                Some(v) => vector_of(self@, node) == Some(v@),
                None => vector_of(self@, node) is None,
            },
    {
        broadcast use vstd::std_specs::hash::group_hash_axioms;
        proof {
            self.is_coherent();
        }
        match self.node_to_slot.get(&node) {
            Some(slot) => Some(self.row(*slot)),
            None => {
                assert(!holds(self@, node));
                None
            },
        }
    }

    /// Whether an owner has a vector.
    pub fn contains(&self, node: usize) -> (has: bool)
        requires
            self.well_formed(),
        ensures
            has == holds(self@, node),
    {
        broadcast use vstd::std_specs::hash::group_hash_axioms;
        proof {
            self.is_coherent();
        }
        self.node_to_slot.contains_key(&node)
    }

    /// The hash of the text an owner's vector was made from.
    pub fn text_hash(&self, node: usize) -> (hash: Option<u64>)
        ensures
            hash == hash_of(self@, node),
    {
        broadcast use vstd::std_specs::hash::group_hash_axioms;
        match self.text_hashes.get(&node) {
            Some(hash) => Some(*hash),
            None => None,
        }
    }

    /// Overwrites the numbers in slot `slot`.
    fn write_row(&mut self, slot: usize, vector: &[u32])
        requires
            old(self).well_formed(),
            slot < old(self)@.nodes.len(),
            vector@.len() == old(self).dimension,
        ensures
            final(self).well_formed(),
            final(self)@ == (StoreModel {
                rows: old(self)@.rows.update(slot as int, vector@),
                ..old(self)@
            }),
            *final(self) == (EmbeddingStore { data: final(self).data, ..*old(self) }),
    {
        let total: usize = self.data.len();
        proof {
            row_fits(slot as int, self.slot_to_node@.len(), self.dimension as nat);
        }
        let start: usize = slot * self.dimension;
        let ghost before = self.data@;
        let mut k: usize = 0;
        while k < vector.len()
            invariant
                k <= vector.len(),
                vector@.len() == self.dimension,
                start == slot * self.dimension,
                start + self.dimension <= before.len(),
                before.len() == total,
                self.data@.len() == before.len(),
                *self == (EmbeddingStore { data: self.data, ..*old(self) }),
                forall|p: int|
                    0 <= p < before.len() ==> #[trigger] self.data@[p] == if start <= p < start + k {
                        vector@[p - start]
                    } else {
                        before[p]
                    },
            decreases vector.len() - k,
        {
            self.data.set(start + k, vector[k]);
            k = k + 1;
        }
        proof {
            rows_update(
                before,
                self.data@,
                vector@,
                self.dimension as nat,
                self.slot_to_node@.len(),
                slot as int,
            );
        }
    }

    /// Writes an owner's vector: in place, or after the others.
    pub fn set_embedding(&mut self, node: usize, vector: &[u32])
        requires
            old(self).well_formed(),
            vector@.len() == old(self).dimension,
        ensures
            final(self).well_formed(),
            final(self)@ == with_vector(old(self)@, node, vector@),
    {
        broadcast use vstd::std_specs::hash::group_hash_axioms;
        proof {
            self.is_coherent();
        }
        let found: Option<usize> = match self.node_to_slot.get(&node) {
            Some(slot) => Some(*slot),
            None => None,
        };
        match found {
            Some(slot) => {
                self.write_row(slot, vector);
                self.freshness.note_changed(slot);
                assert(self@ =~= with_vector(old(self)@, node, vector@));
            },
            None => {
                assert(!holds(old(self)@, node));
                let slot: usize = self.slot_to_node.len();
                self.slot_to_node.push(node);
                self.node_to_slot.insert(node, slot);
                self.data.extend_from_slice(vector);
                proof {
                    assert(self.data@ =~= old(self).data@ + vector@);
                    rows_push(
                        old(self).data@,
                        vector@,
                        self.dimension as nat,
                        old(self).slot_to_node@.len(),
                    );
                    assert(self@ =~= with_vector(old(self)@, node, vector@));
                    assert forall|i: int| 0 <= i < self.slot_to_node@.len() implies
                        self.node_to_slot@.contains_key(#[trigger] self.slot_to_node@[i])
                        && self.node_to_slot@[self.slot_to_node@[i]] == i by {
                        if i < slot {
                            assert(self.slot_to_node@[i] == old(self).slot_to_node@[i]);
                        }
                    }
                }
            },
        }
    }

    /// Sets the hash of the text an owner's vector was made from.
    pub fn set_text_hash(&mut self, node: usize, hash: u64)
        requires
            old(self).well_formed(),
            holds(old(self)@, node),
        ensures
            final(self).well_formed(),
            final(self)@ == with_hash(old(self)@, node, Some(hash)),
    {
        broadcast use vstd::std_specs::hash::group_hash_axioms;
        proof {
            self.is_coherent();
        }
        self.text_hashes.insert(node, hash);
    }

    /// Clears the hash of the text an owner's vector was made from.
    pub fn clear_text_hash(&mut self, node: usize)
        requires
            old(self).well_formed(),
        ensures
            final(self).well_formed(),
            final(self)@ == with_hash(old(self)@, node, None),
            final(self).node_to_slot == old(self).node_to_slot,
    {
        broadcast use vstd::std_specs::hash::group_hash_axioms;
        self.text_hashes.remove(&node);
    }

    /// Drops the index.
    pub fn invalidate_index(&mut self)
        requires
            old(self).well_formed(),
        ensures
            final(self).well_formed(),
            final(self)@ == unindexed(old(self)@),
            final(self).node_to_slot == old(self).node_to_slot,
    {
        self.index = None;
        self.freshness = IndexFreshness::covering(0, self.freshness.limit);
    }
}

impl EmbeddingStore {
    /// Takes the vector in a slot out: the last vector moves into the slot.
    fn detach(&mut self, node: usize, slot: usize)
        requires
            old(self).well_formed(),
            old(self).node_to_slot@.contains_key(node),
            old(self).node_to_slot@[node] == slot,
        ensures
            final(self).freshness == old(self).freshness,
            final(self).index == old(self).index,
            final(self)@ == (StoreModel {
                nodes: tail_swapped(old(self)@.nodes, slot as int),
                rows: tail_swapped(old(self)@.rows, slot as int),
                hashes: old(self)@.hashes.remove(node),
                ..old(self)@
            }),
            final(self).slot_to_node@.len() + 1 == old(self).slot_to_node@.len(),
            final(self).lined_up(),
    {
        broadcast use vstd::std_specs::hash::group_hash_axioms;
        proof {
            self.is_coherent();
        }
        let count: usize = self.slot_to_node.len();
        assert(self.slot_to_node@[slot as int] == node);
        let last: usize = count - 1;
        let moved: usize = self.slot_to_node[last];
        let tail: Vec<u32> = vstd::slice::slice_to_vec(self.row(last));
        self.write_row(slot, tail.as_slice());
        proof {
            rows_drop_last(self.data@, self.dimension as nat, self.slot_to_node@.len());
            row_fits(last as int, count as nat, self.dimension as nat);
        }
        let ghost written = *self;
        let total: usize = self.data.len();
        self.data.truncate(last * self.dimension);
        assert(self.data@ =~= written.data@.take(last * self.dimension));
        self.slot_to_node.set(slot, moved);
        self.slot_to_node.truncate(last);
        assert(self.slot_to_node@ =~= tail_swapped(old(self).slot_to_node@, slot as int));
        self.node_to_slot.insert(moved, slot);
        self.node_to_slot.remove(&node);
        self.text_hashes.remove(&node);
        proof {
            assert(self@.rows =~= tail_swapped(old(self)@.rows, slot as int));
            let nodes = old(self).slot_to_node@;
            assert(nodes[slot as int] == node);
            assert(nodes[last as int] == moved);
            assert(self.data@.len() == self.slot_to_node@.len() * self.dimension);
            assert forall|i: int| 0 <= i < self.slot_to_node@.len() implies
                self.node_to_slot@.contains_key(#[trigger] self.slot_to_node@[i])
                && self.node_to_slot@[self.slot_to_node@[i]] == i by {
                if i != slot {
                    assert(self.slot_to_node@[i] == nodes[i]);
                    assert(nodes[i] != nodes[last as int]);
                }
            }
            assert forall|n: usize| #[trigger] self.node_to_slot@.contains_key(n) implies
                self.node_to_slot@[n] < self.slot_to_node@.len()
                && self.slot_to_node@[self.node_to_slot@[n] as int] == n by {
                assert(old(self).node_to_slot@.contains_key(n));
                if n == moved {
                } else {
                    let at = old(self).node_to_slot@[n];
                    assert(nodes[at as int] == n);
                    assert(at != last);
                    assert(at != slot);
                }
            }
            assert forall|n: usize| #[trigger] self.text_hashes@.contains_key(n) implies
                self.node_to_slot@.contains_key(n) by {
                assert(old(self).text_hashes@.contains_key(n));
                assert(old(self).node_to_slot@.contains_key(n));
            }
        }
    }

    /// Takes an owner's vector out: the last vector moves into its slot, and
    /// the index goes.
    pub fn remove_embedding(&mut self, node: usize) -> (removed: Option<RemovedEmbedding>)
        requires
            old(self).well_formed(),
        ensures
            final(self).well_formed(),
            final(self)@ == without_vector(old(self)@, node),
            match removed {
                Some(r) => removed_of(old(self)@, node) == Some(r@),
                None => removed_of(old(self)@, node) is None && *final(self) == *old(self),
            },
    {
        broadcast use vstd::std_specs::hash::group_hash_axioms;
        proof {
            self.is_coherent();
        }
        let found: Option<usize> = match self.node_to_slot.get(&node) {
            Some(slot) => Some(*slot),
            None => None,
        };
        let slot: usize = match found {
            Some(slot) => slot,
            None => {
                assert(!holds(old(self)@, node));
                return None;
            },
        };
        assert(place_of(old(self)@, node) == slot);
        let vector: Vec<u32> = vstd::slice::slice_to_vec(self.row(slot));
        let text_hash: Option<u64> = self.text_hash(node);
        self.detach(node, slot);
        self.index = None;
        self.freshness = IndexFreshness::covering(0, self.freshness.limit);
        assert(self@ =~= without_vector(old(self)@, node));
        Some(RemovedEmbedding { slot, vector, text_hash })
    }

    /// Puts a removed vector back where it stood. The index goes.
    pub fn restore_embedding(&mut self, node: usize, removed: &RemovedEmbedding)
        requires
            old(self).well_formed(),
        ensures
            final(self).well_formed(),
            final(self)@ == restored(old(self)@, node, removed@),
    {
        broadcast use vstd::std_specs::hash::group_hash_axioms;
        proof {
            self.is_coherent();
        }
        let count: usize = self.slot_to_node.len();
        if self.contains(node) || removed.slot > count || removed.vector.len() != self.dimension {
            return ;
        }
        self.set_embedding(node, removed.vector.as_slice());
        let ghost appended = *self;
        proof {
            appended.is_coherent();
            assert(appended@.nodes[count as int] == node);
            assert(appended.node_to_slot@.contains_key(appended.slot_to_node@[count as int]));
        }
        if removed.slot < count {
            let moved: usize = self.slot_to_node[removed.slot];
            let shifted: Vec<u32> = vstd::slice::slice_to_vec(self.row(removed.slot));
            assert(moved == old(self).slot_to_node@[removed.slot as int]);
            self.write_row(removed.slot, removed.vector.as_slice());
            self.write_row(count, shifted.as_slice());
            self.slot_to_node.set(removed.slot, node);
            self.slot_to_node.set(count, moved);
            self.node_to_slot.insert(node, removed.slot);
            self.node_to_slot.insert(moved, count);
            proof {
                let nodes = appended.slot_to_node@;
                assert(nodes[removed.slot as int] == moved);
                assert forall|i: int| 0 <= i < self.slot_to_node@.len() implies
                    self.node_to_slot@.contains_key(#[trigger] self.slot_to_node@[i])
                    && self.node_to_slot@[self.slot_to_node@[i]] == i by {
                    if i != removed.slot && i != count {
                        assert(self.slot_to_node@[i] == nodes[i]);
                        assert(nodes[i] != nodes[removed.slot as int]);
                        assert(nodes[i] != nodes[count as int]);
                    }
                }
                assert forall|n: usize| #[trigger] self.node_to_slot@.contains_key(n) implies
                    self.node_to_slot@[n] < self.slot_to_node@.len()
                    && self.slot_to_node@[self.node_to_slot@[n] as int] == n by {
                    assert(appended.node_to_slot@.contains_key(n));
                    if n != moved && n != node {
                        let at = appended.node_to_slot@[n];
                        assert(nodes[at as int] == n);
                    }
                }
                assert(self.slot_to_node@ =~= swapped_back(
                    old(self).slot_to_node@,
                    removed.slot as int,
                    node,
                ));
                assert(self@.rows =~= swapped_back(
                    old(self)@.rows,
                    removed.slot as int,
                    removed@.vector,
                ));
                assert(self.data@.len() == appended.data@.len());
            }
        }
        self.invalidate_index();
        let ghost placed = *self;
        proof {
            self.is_coherent();
            assert(self@.nodes[removed.slot as int] == node);
            assert(self.slot_to_node@[removed.slot as int] == node);
            assert(holds(self@, node));
        }
        match removed.text_hash {
            Some(hash) => self.set_text_hash(node, hash),
            None => self.clear_text_hash(node),
        }
        assert(self@ =~= restored(old(self)@, node, removed@));
    }

    /// What an overwrite of an owner's cell would lose: the cell, and whether
    /// the index has it as it is.
    pub fn cell_pre_image(&self, node: usize) -> (cell: Option<(RemovedEmbedding, SlotCoverage)>)
        requires
            self.well_formed(),
        ensures
            match cell {
                Some((prior, coverage)) => {
                    &&& removed_of(self@, node) == Some(prior@)
                    &&& coverage.stale == self@.freshness.changed.contains(
                        place_of(self@, node) as usize,
                    )
                },
                None => removed_of(self@, node) is None,
            },
    {
        broadcast use vstd::std_specs::hash::group_hash_axioms;
        proof {
            self.is_coherent();
        }
        match self.node_to_slot.get(&node) {
            Some(slot) => {
                let vector: Vec<u32> = vstd::slice::slice_to_vec(self.row(*slot));
                let prior = RemovedEmbedding {
                    slot: *slot,
                    vector,
                    text_hash: self.text_hash(node),
                };
                Some((prior, SlotCoverage { stale: self.freshness.lists(*slot) }))
            },
            None => {
                assert(!holds(self@, node));
                None
            },
        }
    }

    /// Puts an owner's cell back as it was before an overwrite.
    pub fn restore_cell(&mut self, node: usize, prior: &RemovedEmbedding, coverage: SlotCoverage)
        requires
            old(self).well_formed(),
        ensures
            final(self).well_formed(),
            final(self)@ == cell_restored(old(self)@, node, prior@, coverage),
    {
        broadcast use vstd::std_specs::hash::group_hash_axioms;
        proof {
            self.is_coherent();
        }
        if prior.vector.len() != self.dimension {
            return ;
        }
        let found: Option<usize> = match self.node_to_slot.get(&node) {
            Some(slot) => Some(*slot),
            None => None,
        };
        match found {
            Some(slot) => {
                self.write_row(slot, prior.vector.as_slice());
                proof {
                    self.is_coherent();
                }
                match prior.text_hash {
                    Some(hash) => self.set_text_hash(node, hash),
                    None => self.clear_text_hash(node),
                }
                if coverage.stale {
                    self.freshness.note_changed(slot);
                } else {
                    self.freshness.note_current(slot);
                    proof {
                        if self.index is None {
                            assert(self.freshness@.changed =~= Set::<usize>::empty());
                        }
                    }
                }
                assert(self@ =~= cell_restored(old(self)@, node, prior@, coverage));
            },
            None => {
                assert(!holds(old(self)@, node));
            },
        }
    }

    /// Takes out the vector that was appended for an owner: the last one moves
    /// into its slot. An index that had covered the slot goes.
    pub fn pop_appended_embedding(&mut self, node: usize)
        requires
            old(self).well_formed(),
        ensures
            final(self).well_formed(),
            final(self)@ == popped(old(self)@, node),
    {
        broadcast use vstd::std_specs::hash::group_hash_axioms;
        proof {
            self.is_coherent();
        }
        let found: Option<usize> = match self.node_to_slot.get(&node) {
            Some(slot) => Some(*slot),
            None => None,
        };
        match found {
            Some(slot) => {
                assert(place_of(old(self)@, node) == slot);
                let covered: usize = self.freshness.covered;
                self.detach(node, slot);
                if slot < covered {
                    self.index = None;
                    self.freshness = IndexFreshness::covering(0, self.freshness.limit);
                }
                assert(self@ =~= popped(old(self)@, node));
            },
            None => {
                assert(!holds(old(self)@, node));
            },
        }
    }

    /// Whether an index is built.
    pub fn has_index(&self) -> (built: bool)
        ensures
            built == (self@.index is Some),
    {
        self.index.is_some()
    }

    /// The vectors that the index does not have as they are.
    pub fn delta_size(&self) -> (delta: usize)
        requires
            self.well_formed(),
        ensures
            delta == delta_of(self@),
    {
        if self.index.is_some() {
            self.freshness.delta_size(self.slot_to_node.len())
        } else {
            0
        }
    }

    /// Whether the index does not have every vector as it is.
    pub fn index_is_stale(&self) -> (stale: bool)
        requires
            self.well_formed(),
        ensures
            stale == (delta_of(self@) > 0),
    {
        self.delta_size() > 0
    }

    /// The vectors a query may fold into the index by itself.
    pub fn auto_refresh_limit(&self) -> (limit: usize)
        ensures
            limit == self@.freshness.limit,
    {
        self.freshness.limit
    }

    /// Sets the vectors a query may fold into the index by itself.
    pub fn set_auto_refresh_limit(&mut self, limit: usize)
        requires
            old(self).well_formed(),
        ensures
            final(self).well_formed(),
            final(self)@ == (StoreModel {
                freshness: FreshnessModel { limit, ..old(self)@.freshness },
                ..old(self)@
            }),
    {
        self.freshness.limit = limit;
    }

    /// Takes the index out, with what it covers.
    pub fn take_index_state(&mut self) -> (state: VectorIndexState)
        requires
            old(self).well_formed(),
        ensures
            final(self).well_formed(),
            final(self)@ == unindexed(old(self)@),
            state.well_formed(),
            state@ == index_state_of(old(self)@),
    {
        let index = self.index;
        let freshness = self.freshness.duplicate();
        self.invalidate_index();
        VectorIndexState { index, freshness }
    }

    /// Puts an index back, with what it covers.
    pub fn restore_index_state(&mut self, state: &VectorIndexState)
        requires
            old(self).well_formed(),
            state.well_formed(),
        ensures
            final(self).well_formed(),
            final(self)@ == with_index_state(old(self)@, state@),
    {
        if state.freshness.covered <= self.slot_to_node.len() {
            self.index = state.index;
            self.freshness = state.freshness.duplicate();
        } else {
            self.index = None;
            self.freshness = IndexFreshness::covering(0, state.freshness.limit);
        }
    }

    /// Builds an index over every vector. Refused where there are more vectors
    /// than an index can number.
    pub fn build_index(&mut self, metric: DistanceMetric, params: HnswParams, seed: u64) -> (result:
        Result<(), String>)
        requires
            old(self).well_formed(),
        ensures
            final(self).well_formed(),
            match result {
                Ok(_) => old(self)@.nodes.len() <= u32::MAX && final(self)@ == indexed_with(
                    old(self)@,
                    VectorIndex { metric, params, seed },
                ),
                Err(message) => old(self)@.nodes.len() > u32::MAX && *final(self) == *old(self)
                    && message@ == "too many vectors to index"@,
            },
    {
        let count: usize = self.slot_to_node.len();
        if count as u64 > u32::MAX as u64 {
            return Err("too many vectors to index".to_owned());
        }
        self.index = Some(VectorIndex { metric, params, seed });
        self.freshness = IndexFreshness::covering(count, self.freshness.limit);
        Ok(())
    }

    /// Folds every vector into the index, and says how many it had not as they
    /// were.
    pub fn refresh_index(&mut self) -> (folded: usize)
        requires
            old(self).well_formed(),
        ensures
            final(self).well_formed(),
            final(self)@ == refreshed(old(self)@),
            folded == delta_of(old(self)@),
    {
        let folded: usize = self.delta_size();
        if self.index.is_some() {
            self.freshness = IndexFreshness::covering(
                self.slot_to_node.len(),
                self.freshness.limit,
            );
        }
        folded
    }

    /// Folds in what is outstanding before a query, where the query may.
    pub fn catch_up(&mut self, read_only: bool)
        requires
            old(self).well_formed(),
        ensures
            final(self).well_formed(),
            final(self)@ == caught_up(old(self)@, read_only),
    {
        if self.has_index() && !read_only && self.delta_size() <= self.auto_refresh_limit() {
            let _ = self.refresh_index();
        }
    }

    /// A copy.
    pub fn duplicate(&self) -> (copy: EmbeddingStore)
        requires
            self.well_formed(),
        ensures
            copy.well_formed(),
            copy@ == self@,
    {
        let data = self.data.clone();
        let slot_to_node = self.slot_to_node.clone();
        assert(data@ =~= self.data@);
        assert(slot_to_node@ =~= self.slot_to_node@);
        EmbeddingStore {
            dimension: self.dimension,
            data,
            slot_to_node,
            node_to_slot: self.node_to_slot.clone(),
            metric: self.metric.clone(),
            model_id: self.model_id.clone(),
            text_hashes: self.text_hashes.clone(),
            index: self.index,
            freshness: self.freshness.duplicate(),
        }
    }
}

/// A written vector reads back, and leaves every other owner's alone.
pub proof fn a_written_vector_reads_back(store: StoreModel, node: usize, vector: Seq<u32>)
    requires
        store.nodes.len() == store.rows.len(),
        store.nodes.no_duplicates(),
    ensures
        vector_of(with_vector(store, node, vector), node) == Some(vector),
        forall|other: usize|
            other != node ==> #[trigger] vector_of(with_vector(store, node, vector), other)
                == vector_of(store, other),
{
    let after = with_vector(store, node, vector);
    if holds(store, node) {
        let at = place_of(store, node);
        assert(store.nodes[at] == node);
        assert forall|other: usize| other != node implies #[trigger] vector_of(after, other)
            == vector_of(store, other) by {
            if holds(store, other) {
                assert(store.nodes[place_of(store, other)] == other);
            }
        }
    } else {
        let at = store.nodes.len() as int;
        assert(after.nodes[at] == node);
        assert(after.nodes.contains(node));
        assert(place_of(after, node) == at) by {
            let k = place_of(after, node);
            assert(after.nodes[k] == node);
            if k < at {
                assert(store.nodes[k] == node);
            }
        }
        assert forall|other: usize| other != node implies #[trigger] vector_of(after, other)
            == vector_of(store, other) by {
            if holds(store, other) {
                let k = place_of(store, other);
                assert(after.nodes[k] == other);
                let j = place_of(after, other);
                assert(after.nodes[j] == other);
                assert(j < at);
                assert(store.nodes[j] == other);
                assert(j == k);
            } else if holds(after, other) {
                let j = place_of(after, other);
                assert(after.nodes[j] == other);
                assert(store.nodes[j] == other);
            }
        }
    }
}

/// Putting a removed vector back where it stood gives back the store, in the
/// same order, but for its index.
pub proof fn restoring_undoes_removing(store: StoreModel, node: usize)
    requires
        coherent(store),
        holds(store, node),
    ensures
        restored(without_vector(store, node), node, removed_of(store, node)->0) == unindexed(
            store,
        ),
{
    let i = place_of(store, node);
    let after = without_vector(store, node);
    let removed = removed_of(store, node)->0;
    assert(store.nodes[i] == node);
    assert(!holds(after, node)) by {
        if after.nodes.contains(node) {
            let k = after.nodes.index_of(node);
            assert(after.nodes[k] == node);
            if k == i {
                assert(store.nodes[store.nodes.len() - 1] == node);
            } else {
                assert(store.nodes[k] == node);
            }
        }
    }
    assert(removed.vector.len() == store.dimension);
    let back = restored(after, node, removed);
    assert(back.nodes =~= store.nodes);
    assert(back.rows =~= store.rows);
    assert(back.hashes =~= store.hashes);
    assert(back =~= unindexed(store));
}

/// Putting a cell back undoes an overwrite of it and of its text hash.
pub proof fn restoring_a_cell_undoes_an_overwrite(
    store: StoreModel,
    node: usize,
    vector: Seq<u32>,
    hash: Option<u64>,
)
    requires
        coherent(store),
        holds(store, node),
    ensures
        cell_restored(
            with_hash(with_vector(store, node, vector), node, hash),
            node,
            removed_of(store, node)->0,
            SlotCoverage {
                stale: store.freshness.changed.contains(place_of(store, node) as usize),
            },
        ) == store,
{
    let i = place_of(store, node);
    assert(store.nodes[i] == node);
    let after = with_hash(with_vector(store, node, vector), node, hash);
    let back = cell_restored(
        after,
        node,
        removed_of(store, node)->0,
        SlotCoverage { stale: store.freshness.changed.contains(i as usize) },
    );
    assert(back.rows =~= store.rows);
    assert(back.hashes =~= store.hashes);
    assert(back.freshness.changed =~= store.freshness.changed);
    assert(back =~= store);
}

/// Popping an appended vector undoes the append.
pub proof fn popping_undoes_an_append(store: StoreModel, node: usize, vector: Seq<u32>)
    requires
        coherent(store),
        !holds(store, node),
    ensures
        popped(with_vector(store, node, vector), node) == store,
{
    let after = with_vector(store, node, vector);
    let back = popped(after, node);
    a_written_vector_reads_back(store, node, vector);
    let place = place_of(after, node);
    assert(after.nodes[place] == node);
    assert(place == store.nodes.len()) by {
        if place < store.nodes.len() {
            assert(store.nodes[place] == node);
        }
    }
    assert(back.nodes =~= store.nodes);
    assert(back.rows =~= store.rows);
    assert(!store.hashes.contains_key(node));
    assert(back.hashes =~= store.hashes);
    assert(back =~= store);
}

/// A refreshed index has every vector as it is.
pub proof fn a_refreshed_index_is_current(store: StoreModel)
    requires
        coherent(store),
    ensures
        delta_of(refreshed(store)) == 0,
{
}

} // verus!
