//! Carrying node vectors from one graph to another, by node id.

use crate::catalog::{with_entry, EntryModel};
use crate::diagnostics::text_in;
use crate::edge_store::{remapped, remapped_store, remapped_upto, EdgeRemap};
use crate::freshness::{uncovered, IndexFreshness};
use crate::graph::{bumped, members_or_none, node_by_id, recorded, recorded_with, DirGraph};
use crate::names::{column_of, column_or_name, listed_column, read_columns_make_the_store};
use crate::node_store::node_write;
use crate::recording::{EmbeddingWrite, OpModel};
use crate::store::{
    a_written_vector_reads_back, coherent, empty_store, hash_of, holds, vector_of, with_hash, with_vector, EmbeddingStore,
    StoreModel,
};
use crate::text::{str_option, Text};
use crate::topology::Topology;
use crate::value::{NodeIndex, Value};
use vstd::hash_map::StringHashMap;
use vstd::prelude::*;

verus! {

/// The node of the target that has a source node's id.
pub open spec fn id_match(dst: DirGraph, src: DirGraph, node_type: Text, slot: usize) -> Option<
    NodeIndex,
> {
    let node = NodeIndex { slot };
    if src.topology.node_lives(node) {
        node_by_id(dst, node_type, src.topology.node(node).id@)
    } else {
        None
    }
}

/// A vector put under another node, with the hash of its text.
pub open spec fn put_under(into: StoreModel, from: StoreModel, slot: usize, to: usize) -> StoreModel {
    let written = with_vector(into, to, vector_of(from, slot)->0);
    match hash_of(from, slot) {
        Some(hash) => with_hash(written, to, Some(hash)),
        None => written,
    }
}

/// What is carried by id of the first `count` vectors.
pub open spec fn carried_by_id(
    dst: DirGraph,
    src: DirGraph,
    node_type: Text,
    store: StoreModel,
    count: nat,
) -> StoreModel
    decreases count,
{
    if count == 0 {
        StoreModel { model_id: store.model_id, ..empty_store(store.dimension, store.metric) }
    } else {
        let before = carried_by_id(dst, src, node_type, store, (count - 1) as nat);
        match id_match(dst, src, node_type, store.nodes[count - 1]) {
            Some(node) => put_under(before, store, store.nodes[count - 1], node.slot),
            None => before,
        }
    }
}

/// The owners among the first `count` that live and whose id the target lacks.
pub open spec fn left_by_id(
    dst: DirGraph,
    src: DirGraph,
    node_type: Text,
    nodes: Seq<usize>,
    count: nat,
) -> Seq<usize>
    decreases count,
{
    if count == 0 {
        Seq::empty()
    } else {
        let before = left_by_id(dst, src, node_type, nodes, (count - 1) as nat);
        if src.topology.node_lives(NodeIndex { slot: nodes[count - 1] }) && id_match(
            dst,
            src,
            node_type,
            nodes[count - 1],
        ) is None {
            before.push(nodes[count - 1])
        } else {
            before
        }
    }
}

/// How many of the first `count` owners are matched by id.
pub open spec fn matched_by_id(
    dst: DirGraph,
    src: DirGraph,
    node_type: Text,
    nodes: Seq<usize>,
    count: nat,
) -> nat
    decreases count,
{
    if count == 0 {
        0
    } else {
        matched_by_id(dst, src, node_type, nodes, (count - 1) as nat) + if id_match(
            dst,
            src,
            node_type,
            nodes[count - 1],
        ) is Some {
            1nat
        } else {
            0nat
        }
    }
}

/// The hash that a derived node's text has under it: a text that is not empty.
pub open spec fn chunk_hash(topology: Topology, node: NodeIndex) -> Option<Text> {
    if topology.node_lives(node) {
        match text_in(topology.node(node).properties@, "chunk_hash"@) {
            Some(hash) => if hash.len() > 0 {
                Some(hash)
            } else {
                None
            },
            None => None,
        }
    } else {
        None
    }
}

/// The nodes among the first `count` members that carry a chunk hash.
pub open spec fn holders_of(
    topology: Topology,
    members: Seq<NodeIndex>,
    hash: Text,
    count: nat,
) -> Seq<NodeIndex>
    decreases count,
{
    if count == 0 {
        Seq::empty()
    } else {
        let before = holders_of(topology, members, hash, (count - 1) as nat);
        if chunk_hash(topology, members[count - 1]) == Some(hash) {
            before.push(members[count - 1])
        } else {
            before
        }
    }
}

/// The only node of a type that carries a chunk hash.
pub open spec fn sole_holder(graph: DirGraph, node_type: Text, hash: Text) -> Option<NodeIndex> {
    let members = members_or_none(graph.node_types@, node_type);
    let holders = holders_of(graph.topology, members, hash, members.len());
    if holders.len() == 1 {
        Some(holders[0])
    } else {
        None
    }
}

/// The node of the target that a source node moved to: the only one with its
/// chunk hash, where no other node of the source has that hash and the target
/// node has no vector yet.
pub open spec fn hash_match(
    dst: DirGraph,
    src: DirGraph,
    node_type: Text,
    slot: usize,
    into: StoreModel,
) -> Option<NodeIndex> {
    match chunk_hash(src.topology, NodeIndex { slot }) {
        Some(hash) => match (
            sole_holder(src, node_type, hash),
            sole_holder(dst, node_type, hash),
        ) {
            (Some(_), Some(node)) => if holds(into, node.slot) {
                None
            } else {
                Some(node)
            },
            _ => None,
        },
        None => None,
    }
}

/// What is carried by chunk hash of the first `count` owners that were left.
pub open spec fn carried_by_hash(
    dst: DirGraph,
    src: DirGraph,
    node_type: Text,
    store: StoreModel,
    left: Seq<usize>,
    into: StoreModel,
    count: nat,
) -> StoreModel
    decreases count,
{
    if count == 0 {
        into
    } else {
        let before = carried_by_hash(dst, src, node_type, store, left, into, (count - 1) as nat);
        match hash_match(dst, src, node_type, left[count - 1], before) {
            Some(node) => put_under(before, store, left[count - 1], node.slot),
            None => before,
        }
    }
}

/// How many of the first `count` owners that were left are carried by hash.
pub open spec fn matched_by_hash(
    dst: DirGraph,
    src: DirGraph,
    node_type: Text,
    store: StoreModel,
    left: Seq<usize>,
    into: StoreModel,
    count: nat,
) -> nat
    decreases count,
{
    if count == 0 {
        0
    } else {
        let before = carried_by_hash(dst, src, node_type, store, left, into, (count - 1) as nat);
        matched_by_hash(dst, src, node_type, store, left, into, (count - 1) as nat) + if hash_match(
            dst,
            src,
            node_type,
            left[count - 1],
            before,
        ) is Some {
            1nat
        } else {
            0nat
        }
    }
}

/// A store as the target gets it: by id first, then by chunk hash.
pub open spec fn carried_store(
    dst: DirGraph,
    src: DirGraph,
    node_type: Text,
    store: StoreModel,
) -> StoreModel {
    let count = store.nodes.len();
    let left = left_by_id(dst, src, node_type, store.nodes, count);
    carried_by_hash(
        dst,
        src,
        node_type,
        store,
        left,
        carried_by_id(dst, src, node_type, store, count),
        left.len(),
    )
}

/// The vectors of a store that are carried.
pub open spec fn carried_count(
    dst: DirGraph,
    src: DirGraph,
    node_type: Text,
    store: StoreModel,
) -> nat {
    let count = store.nodes.len();
    let left = left_by_id(dst, src, node_type, store.nodes, count);
    matched_by_id(dst, src, node_type, store.nodes, count) + matched_by_hash(
        dst,
        src,
        node_type,
        store,
        left,
        carried_by_id(dst, src, node_type, store, count),
        left.len(),
    )
}

fn chunk_hash_of<'a>(graph: &'a DirGraph, node: NodeIndex) -> (hash: Option<&'a str>)
    ensures
        str_option(hash) == chunk_hash(graph.topology, node),
{
    match graph.topology.node_view(node) {
        Some(data) => match data.get_property("chunk_hash") {
            Some(Value::String(hash)) => if hash.as_str().is_empty() {
                None
            } else {
                Some(hash.as_str())
            },
            _ => None,
        },
        None => None,
    }
}

/// What an index of chunk hashes says after the first `count` members.
spec fn indexes_holders(
    index: Map<Text, Option<NodeIndex>>,
    topology: Topology,
    members: Seq<NodeIndex>,
    count: nat,
) -> bool {
    forall|hash: Text|
        {
            let holders = holders_of(topology, members, hash, count);
            &&& #[trigger] index.contains_key(hash) <==> holders.len() > 0
            &&& holders.len() == 1 ==> index[hash] == Some(holders[0])
            &&& holders.len() > 1 ==> index[hash] is None
        }
}

/// Every chunk hash of a type with the only node that carries it.
fn chunk_hash_index(graph: &DirGraph, node_type: &str) -> (index: StringHashMap<Option<NodeIndex>>)
    ensures
        indexes_holders(
            index@,
            graph.topology,
            members_or_none(graph.node_types@, node_type@),
            members_or_none(graph.node_types@, node_type@).len(),
        ),
{
    let mut index: StringHashMap<Option<NodeIndex>> = StringHashMap::new();
    match graph.type_members(node_type) {
        Some(members) => {
            let mut i: usize = 0;
            while i < members.len()
                invariant
                    i <= members@.len(),
                    indexes_holders(index@, graph.topology, members@, i as nat),
                decreases members@.len() - i,
            {
                let ghost before = index@;
                if let Some(hash) = chunk_hash_of(graph, members[i]) {
                    if index.contains_key(hash) {
                        index.insert(hash.to_owned(), None);
                    } else {
                        index.insert(hash.to_owned(), Some(members[i]));
                    }
                }
                proof {
                    assert forall|hash: Text|
                        {
                            let holders = holders_of(
                                graph.topology,
                                members@,
                                hash,
                                (i + 1) as nat,
                            );
                            &&& #[trigger] index@.contains_key(hash) <==> holders.len() > 0
                            &&& holders.len() == 1 ==> index@[hash] == Some(holders[0])
                            &&& holders.len() > 1 ==> index@[hash] is None
                        } by {
                        let earlier = holders_of(graph.topology, members@, hash, i as nat);
                        assert(before.contains_key(hash) <==> earlier.len() > 0);
                    }
                }
                i = i + 1;
            }
        },
        None => {},
    }
    index
}

fn put_vector(into: &mut EmbeddingStore, from: &EmbeddingStore, slot: usize, to: usize)
    requires
        old(into).well_formed(),
        from.well_formed(),
        holds(from@, slot),
        from@.dimension == old(into)@.dimension,
    ensures
        final(into).well_formed(),
        final(into)@ == put_under(old(into)@, from@, slot, to),
{
    proof {
        from.is_coherent();
    }
    let vector = from.get_embedding(slot).unwrap();
    proof {
        let place = crate::store::place_of(from@, slot);
        assert(from@.nodes[place] == slot);
        assert(from@.rows[place].len() == from@.dimension);
    }
    into.set_embedding(to, vector);
    if let Some(hash) = from.text_hash(slot) {
        proof {
            into.is_coherent();
            let before = old(into)@;
            let after = into@;
            if crate::store::holds(before, to) {
                assert(after.nodes == before.nodes);
            } else {
                assert(after.nodes == before.nodes.push(to));
                assert(after.nodes[before.nodes.len() as int] == to);
            }
            assert(holds(after, to));
        }
        into.set_text_hash(to, hash);
    }
}

proof fn matched_fits(dst: DirGraph, src: DirGraph, node_type: Text, nodes: Seq<usize>, count: nat)
    ensures
        matched_by_id(dst, src, node_type, nodes, count) + left_by_id(
            dst,
            src,
            node_type,
            nodes,
            count,
        ).len() <= count,
    decreases count,
{
    if count > 0 {
        matched_fits(dst, src, node_type, nodes, (count - 1) as nat);
    }
}

proof fn hashed_fits(
    dst: DirGraph,
    src: DirGraph,
    node_type: Text,
    store: StoreModel,
    left: Seq<usize>,
    into: StoreModel,
    count: nat,
)
    ensures
        matched_by_hash(dst, src, node_type, store, left, into, count) <= count,
    decreases count,
{
    if count > 0 {
        hashed_fits(dst, src, node_type, store, left, into, (count - 1) as nat);
    }
}

/// No more vectors are carried than there are.
pub proof fn no_more_than_there_are(
    dst: DirGraph,
    src: DirGraph,
    node_type: Text,
    store: StoreModel,
)
    ensures
        carried_count(dst, src, node_type, store) <= store.nodes.len(),
{
    let count = store.nodes.len();
    let left = left_by_id(dst, src, node_type, store.nodes, count);
    matched_fits(dst, src, node_type, store.nodes, count);
    hashed_fits(
        dst,
        src,
        node_type,
        store,
        left,
        carried_by_id(dst, src, node_type, store, count),
        left.len(),
    );
}

/// Carries what the ids left, by chunk hash.
fn carry_by_chunk_hash(
    dst: &DirGraph,
    src: &DirGraph,
    node_type: &str,
    unmatched: &Vec<usize>,
    src_store: &EmbeddingStore,
    dst_store: &mut EmbeddingStore,
) -> (copied: usize)
    requires
        src_store.well_formed(),
        old(dst_store).well_formed(),
        old(dst_store)@.dimension == src_store@.dimension,
        forall|i: int| 0 <= i < unmatched@.len() ==> holds(src_store@, #[trigger] unmatched@[i]),
    ensures
        final(dst_store).well_formed(),
        final(dst_store)@ == carried_by_hash(
            *dst,
            *src,
            node_type@,
            src_store@,
            unmatched@,
            old(dst_store)@,
            unmatched@.len(),
        ),
        copied == matched_by_hash(
            *dst,
            *src,
            node_type@,
            src_store@,
            unmatched@,
            old(dst_store)@,
            unmatched@.len(),
        ),
{
    if unmatched.len() == 0 {
        return 0;
    }
    let dst_by_hash = chunk_hash_index(dst, node_type);
    let src_by_hash = chunk_hash_index(src, node_type);
    let ghost into = dst_store@;
    let mut copied: usize = 0;
    let mut i: usize = 0;
    while i < unmatched.len()
        invariant
            i <= unmatched@.len(),
            src_store.well_formed(),
            dst_store.well_formed(),
            into == old(dst_store)@,
            dst_store@.dimension == src_store@.dimension,
            forall|i: int|
                0 <= i < unmatched@.len() ==> holds(src_store@, #[trigger] unmatched@[i]),
            indexes_holders(
                dst_by_hash@,
                dst.topology,
                members_or_none(dst.node_types@, node_type@),
                members_or_none(dst.node_types@, node_type@).len(),
            ),
            indexes_holders(
                src_by_hash@,
                src.topology,
                members_or_none(src.node_types@, node_type@),
                members_or_none(src.node_types@, node_type@).len(),
            ),
            dst_store@ == carried_by_hash(
                *dst,
                *src,
                node_type@,
                src_store@,
                unmatched@,
                into,
                i as nat,
            ),
            copied <= i,
            copied == matched_by_hash(
                *dst,
                *src,
                node_type@,
                src_store@,
                unmatched@,
                into,
                i as nat,
            ),
        decreases unmatched@.len() - i,
    {
        let slot: usize = unmatched[i];
        let mut target: Option<NodeIndex> = None;
        if let Some(hash) = chunk_hash_of(src, NodeIndex::new(slot)) {
            assert(src_by_hash@.contains_key(hash@) || !src_by_hash@.contains_key(hash@));
            assert(dst_by_hash@.contains_key(hash@) || !dst_by_hash@.contains_key(hash@));
            let sole = match src_by_hash.get(hash) {
                Some(found) => found.is_some(),
                None => false,
            };
            if sole {
                if let Some(Some(node)) = dst_by_hash.get(hash) {
                    if !dst_store.contains(node.slot) {
                        target = Some(*node);
                    }
                }
            }
        }
        assert(target == hash_match(*dst, *src, node_type@, slot, dst_store@));
        if let Some(node) = target {
            put_vector(dst_store, src_store, slot, node.slot);
            copied = copied + 1;
        }
        i = i + 1;
    }
    copied
}

/// A store as the target gets it, and how many of its vectors are carried.
fn carry_store(dst: &DirGraph, src: &DirGraph, node_type: &str, store: &EmbeddingStore) -> (result:
    (EmbeddingStore, usize))
    requires
        store.well_formed(),
    ensures
        result.0.well_formed(),
        result.0@ == carried_store(*dst, *src, node_type@, store@),
        result.1 == carried_count(*dst, *src, node_type@, store@),
{
    let mut carried = match &store.metric {
        Some(metric) => EmbeddingStore::with_metric(store.dimension, metric.as_str()),
        None => EmbeddingStore::new(store.dimension),
    };
    carried.model_id = match &store.model_id {
        Some(model) => Some(model.as_str().to_owned()),
        None => None,
    };
    proof {
        store.is_coherent();
        no_more_than_there_are(*dst, *src, node_type@, store@);
    }
    let total: usize = store.len();
    let mut unmatched: Vec<usize> = Vec::new();
    let mut copied: usize = 0;
    let mut i: usize = 0;
    while i < store.slot_to_node.len()
        invariant
            i <= store.slot_to_node@.len(),
            store.slot_to_node@ == store@.nodes,
            total == store@.nodes.len(),
            store.well_formed(),
            carried.well_formed(),
            carried@.dimension == store@.dimension,
            carried@ == carried_by_id(*dst, *src, node_type@, store@, i as nat),
            unmatched@ == left_by_id(*dst, *src, node_type@, store@.nodes, i as nat),
            forall|k: int| 0 <= k < unmatched@.len() ==> holds(store@, #[trigger] unmatched@[k]),
            copied <= i,
            copied == matched_by_id(*dst, *src, node_type@, store@.nodes, i as nat),
        decreases store.slot_to_node@.len() - i,
    {
        let slot: usize = store.slot_to_node[i];
        assert(holds(store@, slot)) by {
            assert(store@.nodes[i as int] == slot);
        }
        match src.topology.node_view(NodeIndex::new(slot)) {
            Some(node) => match dst.lookup_by_id(node_type, &node.id) {
                Some(found) => {
                    put_vector(&mut carried, store, slot, found.slot);
                    copied = copied + 1;
                },
                None => {
                    unmatched.push(slot);
                },
            },
            None => {},
        }
        i = i + 1;
    }
    proof {
        matched_fits(*dst, *src, node_type@, store@.nodes, store@.nodes.len());
        hashed_fits(
            *dst,
            *src,
            node_type@,
            store@,
            unmatched@,
            carried@,
            unmatched@.len(),
        );
    }
    let more: usize = carry_by_chunk_hash(dst, src, node_type, &unmatched, store, &mut carried);
    (carried, copied + more)
}

/// The target's stores after the first `count` of the source's.
pub open spec fn stores_carried(
    dst: DirGraph,
    src: DirGraph,
    stores: Seq<EntryModel<StoreModel>>,
    count: nat,
) -> Seq<EntryModel<StoreModel>>
    decreases count,
{
    if count == 0 {
        stores
    } else {
        let entry = src.embeddings@[count - 1];
        with_entry(
            stores_carried(dst, src, stores, (count - 1) as nat),
            entry.owner_type,
            entry.name,
            carried_store(dst, src, entry.owner_type, entry.store),
        )
    }
}

/// What the carry of the first `count` stores records.
pub open spec fn carry_ops(dst: DirGraph, src: DirGraph, count: nat) -> Seq<OpModel> {
    Seq::new(
        count,
        |i: int|
            node_write(
                src.embeddings@[i].owner_type,
                listed_column(src.embeddings@[i].name),
                EmbeddingWrite::Replace,
                carried_store(
                    dst,
                    src,
                    src.embeddings@[i].owner_type,
                    src.embeddings@[i].store,
                ).nodes,
            ),
    )
}

/// The vectors of the first `count` stores.
pub open spec fn vectors_in(stores: Seq<EntryModel<StoreModel>>, count: nat) -> nat
    decreases count,
{
    if count == 0 {
        0
    } else {
        vectors_in(stores, (count - 1) as nat) + stores[count - 1].store.nodes.len()
    }
}

/// The vectors of the first `count` stores that are carried.
pub open spec fn vectors_carried(dst: DirGraph, src: DirGraph, count: nat) -> nat
    decreases count,
{
    if count == 0 {
        0
    } else {
        vectors_carried(dst, src, (count - 1) as nat) + carried_count(
            dst,
            src,
            src.embeddings@[count - 1].owner_type,
            src.embeddings@[count - 1].store,
        )
    }
}

proof fn vectors_grow(stores: Seq<EntryModel<StoreModel>>, count: nat, upto: nat)
    requires
        count <= upto,
    ensures
        vectors_in(stores, count) <= vectors_in(stores, upto),
    decreases upto - count,
{
    if count < upto {
        vectors_grow(stores, count, (upto - 1) as nat);
    }
}

/// What the copy of every node store did.
pub open spec fn copy_done(before: DirGraph, after: DirGraph, src: DirGraph) -> bool {
    let count = src.embeddings@.len();
    &&& after == (DirGraph {
        embeddings: after.embeddings,
        recording: after.recording,
        version: if count > 0 {
            bumped(before.version)
        } else {
            before.version
        },
        ..before
    })
    &&& after.embeddings@ == stores_carried(before, src, before.embeddings@, count)
    &&& recorded(after) == recorded_with(recorded(before), carry_ops(before, src, count))
}

impl DirGraph {
    /// Copies every node store of another graph. A vector is matched by its
    /// node's id; one whose id is not here goes to the node of the same type
    /// with the same `chunk_hash`, where one node on each side has that hash.
    /// The rest are skipped. Returns the stores copied, the vectors copied and
    /// the vectors skipped.
    pub fn copy_embeddings_from(&mut self, src: &DirGraph) -> (counts: (usize, usize, usize))
        requires
            old(self).well_formed(),
            src.well_formed(),
            vectors_in(src.embeddings@, src.embeddings@.len()) <= usize::MAX,
        ensures
            final(self).well_formed(),
            copy_done(*old(self), *final(self), *src),
            counts.0 == src.embeddings@.len(),
            counts.1 == vectors_carried(*old(self), *src, src.embeddings@.len()),
            counts.2 == vectors_in(src.embeddings@, src.embeddings@.len()) - vectors_carried(
                *old(self),
                *src,
                src.embeddings@.len(),
            ),
    {
        let ghost dst = *self;
        let count: usize = src.embeddings.len();
        let mut stores: Vec<EmbeddingStore> = Vec::new();
        let mut copied: usize = 0;
        let mut skipped: usize = 0;
        let mut i: usize = 0;
        while i < count
            invariant
                i <= count,
                count == src.embeddings@.len(),
                src.well_formed(),
                dst == *self,
                *self == *old(self),
                vectors_in(src.embeddings@, count as nat) <= usize::MAX,
                stores@.len() == i,
                forall|k: int|
                    0 <= k < i ==> (#[trigger] stores@[k]).well_formed() && stores@[k]@
                        == carried_store(
                        dst,
                        *src,
                        src.embeddings@[k].owner_type,
                        src.embeddings@[k].store,
                    ),
                copied == vectors_carried(dst, *src, i as nat),
                copied + skipped == vectors_in(src.embeddings@, i as nat),
            decreases count - i,
        {
            assert(src.embeddings.entries@[i as int].store.well_formed());
            let entry = &src.embeddings.entries[i];
            proof {
                assert(src.embeddings@[i as int].store == entry.store@);
                no_more_than_there_are(dst, *src, entry.owner_type@, entry.store@);
                vectors_grow(src.embeddings@, (i + 1) as nat, count as nat);
            }
            let total: usize = entry.store.len();
            let (store, carried) = carry_store(self, src, entry.owner_type.as_str(), &entry.store);
            stores.push(store);
            copied = copied + carried;
            skipped = skipped + (total - carried);
            i = i + 1;
        }
        let ghost made = stores@;
        let mut n: usize = 0;
        assert(recorded(*self) == recorded_with(recorded(dst), carry_ops(dst, *src, 0))) by {
            if recorded(dst) is Some {
                assert(recorded(dst)->0.ops + carry_ops(dst, *src, 0) =~= recorded(dst)->0.ops);
            }
        }
        assert(made.skip(0) =~= made);
        while n < count
            invariant
                n <= count,
                count == src.embeddings@.len(),
                src.well_formed(),
                self.well_formed(),
                *self == (DirGraph {
                    embeddings: self.embeddings,
                    recording: self.recording,
                    ..dst
                }),
                made.len() == count,
                stores@ == made.skip(n as int),
                forall|k: int|
                    0 <= k < count ==> (#[trigger] made[k]).well_formed() && made[k]@
                        == carried_store(
                        dst,
                        *src,
                        src.embeddings@[k].owner_type,
                        src.embeddings@[k].store,
                    ),
                self.embeddings@ == stores_carried(dst, *src, dst.embeddings@, n as nat),
                recorded(*self) == recorded_with(recorded(dst), carry_ops(dst, *src, n as nat)),
            decreases count - n,
        {
            let entry = &src.embeddings.entries[n];
            let column = column_or_name(entry.name.as_str());
            assert(stores@[0] == made[n as int]);
            let store = stores.remove(0);
            assert(stores@ =~= made.skip(n + 1));
            assert(column_of(src.embeddings.entries@[n as int].name@) is Some);
            proof {
                read_columns_make_the_store(entry.name@);
            }
            self.set_embedding_store(entry.owner_type.as_str(), column.as_str(), store);
            proof {
                assert(src.embeddings@[n as int].owner_type == entry.owner_type@);
                assert(src.embeddings@[n as int].name == entry.name@);
                if recorded(dst) is Some {
                    assert(recorded(dst)->0.ops + carry_ops(dst, *src, n as nat) + seq![
                        node_write(
                            entry.owner_type@,
                            column@,
                            EmbeddingWrite::Replace,
                            store@.nodes,
                        ),
                    ] =~= recorded(dst)->0.ops + carry_ops(dst, *src, (n + 1) as nat));
                }
            }
            n = n + 1;
        }
        if count > 0 {
            self.bump_version();
        }
        (count, copied, skipped)
    }
}

pub(crate) proof fn put_is_coherent(into: StoreModel, from: StoreModel, slot: usize, to: usize)
    requires
        coherent(into),
        coherent(from),
        into.index is None,
        into.dimension == from.dimension,
        holds(from, slot),
        into.nodes.len() < usize::MAX,
    ensures
        coherent(put_under(into, from, slot, to)),
        put_under(into, from, slot, to).index is None,
        put_under(into, from, slot, to).dimension == into.dimension,
        put_under(into, from, slot, to).nodes.len() <= into.nodes.len() + 1,
        vector_of(put_under(into, from, slot, to), to) == vector_of(from, slot),
        forall|other: usize|
            other != to ==> #[trigger] vector_of(put_under(into, from, slot, to), other)
                == vector_of(into, other),
{
    let vector = vector_of(from, slot)->0;
    let written = with_vector(into, to, vector);
    let place = crate::store::place_of(from, slot);
    assert(from.nodes[place] == slot);
    a_written_vector_reads_back(into, to, vector);
    let after = put_under(into, from, slot, to);
    assert(after.nodes == written.nodes && after.rows == written.rows);
    assert(vector_of(after, to) == vector_of(written, to));
    assert forall|other: usize| other != to implies #[trigger] vector_of(after, other) == vector_of(
        into,
        other,
    ) by {
        assert(vector_of(after, other) == vector_of(written, other));
    }
    assert(after.nodes.contains(to)) by {
        assert(vector_of(after, to) is Some);
    }
    assert forall|n: usize| #[trigger] after.hashes.contains_key(n) implies after.nodes.contains(
        n,
    ) by {
        if n != to {
            assert(into.hashes.contains_key(n));
            let k = into.nodes.index_of(n);
            assert(after.nodes[k] == n);
        }
    }
    if !holds(into, to) {
        assert forall|i: int, j: int|
            0 <= i < after.nodes.len() && 0 <= j < after.nodes.len() && i != j implies after.nodes[i]
            != after.nodes[j] by {
            if i == into.nodes.len() {
                assert(into.nodes[j] == after.nodes[j]);
            }
            if j == into.nodes.len() {
                assert(into.nodes[i] == after.nodes[i]);
            }
        }
    }
}

pub(crate) proof fn id_pass_is_coherent(
    dst: DirGraph,
    src: DirGraph,
    node_type: Text,
    store: StoreModel,
    count: nat,
)
    requires
        coherent(store),
        count <= store.nodes.len(),
    ensures
        coherent(carried_by_id(dst, src, node_type, store, count)),
        carried_by_id(dst, src, node_type, store, count).index is None,
        carried_by_id(dst, src, node_type, store, count).dimension == store.dimension,
        carried_by_id(dst, src, node_type, store, count).nodes.len() <= count,
    decreases count,
{
    if count > 0 {
        id_pass_is_coherent(dst, src, node_type, store, (count - 1) as nat);
        let slot = store.nodes[count - 1];
        assert(holds(store, slot));
        if let Some(node) = id_match(dst, src, node_type, slot) {
            put_is_coherent(
                carried_by_id(dst, src, node_type, store, (count - 1) as nat),
                store,
                slot,
                node.slot,
            );
        }
    }
}

proof fn id_pass_keeps(
    dst: DirGraph,
    src: DirGraph,
    node_type: Text,
    store: StoreModel,
    count: nat,
    at: int,
)
    requires
        coherent(store),
        0 <= at < count <= store.nodes.len(),
        id_match(dst, src, node_type, store.nodes[at]) is Some,
        forall|j: int|
            at < j < count ==> id_match(dst, src, node_type, #[trigger] store.nodes[j]) != id_match(
                dst,
                src,
                node_type,
                store.nodes[at],
            ),
    ensures
        vector_of(
            carried_by_id(dst, src, node_type, store, count),
            id_match(dst, src, node_type, store.nodes[at])->0.slot,
        ) == vector_of(store, store.nodes[at]),
    decreases count,
{
    let before = carried_by_id(dst, src, node_type, store, (count - 1) as nat);
    let slot = store.nodes[count - 1];
    let wanted = id_match(dst, src, node_type, store.nodes[at])->0;
    id_pass_is_coherent(dst, src, node_type, store, (count - 1) as nat);
    assert(holds(store, slot));
    if let Some(node) = id_match(dst, src, node_type, slot) {
        put_is_coherent(before, store, slot, node.slot);
        if at < count - 1 {
            assert(node != wanted);
            assert(node == NodeIndex { slot: node.slot });
            assert(wanted == NodeIndex { slot: wanted.slot });
        }
    }
    if at < count - 1 {
        id_pass_keeps(dst, src, node_type, store, (count - 1) as nat, at);
    }
}

pub(crate) proof fn left_is_held(
    dst: DirGraph,
    src: DirGraph,
    node_type: Text,
    nodes: Seq<usize>,
    count: nat,
)
    requires
        count <= nodes.len(),
    ensures
        left_by_id(dst, src, node_type, nodes, count).len() <= count,
        forall|i: int|
            0 <= i < left_by_id(dst, src, node_type, nodes, count).len() ==> nodes.contains(
                #[trigger] left_by_id(dst, src, node_type, nodes, count)[i],
            ),
    decreases count,
{
    if count > 0 {
        left_is_held(dst, src, node_type, nodes, (count - 1) as nat);
        assert(nodes.contains(nodes[count - 1]));
    }
}

pub(crate) proof fn hash_pass_keeps(
    dst: DirGraph,
    src: DirGraph,
    node_type: Text,
    store: StoreModel,
    left: Seq<usize>,
    into: StoreModel,
    count: nat,
)
    requires
        coherent(store),
        coherent(into),
        into.index is None,
        into.dimension == store.dimension,
        count <= left.len(),
        into.nodes.len() + left.len() <= store.nodes.len(),
        forall|i: int| 0 <= i < left.len() ==> store.nodes.contains(#[trigger] left[i]),
    ensures
        ({
            let after = carried_by_hash(dst, src, node_type, store, left, into, count);
            &&& coherent(after)
            &&& after.index is None
            &&& after.dimension == store.dimension
            &&& after.nodes.len() <= into.nodes.len() + count
            &&& forall|n: usize|
                holds(into, n) ==> #[trigger] vector_of(after, n) == vector_of(into, n)
        }),
    decreases count,
{
    if count > 0 {
        hash_pass_keeps(dst, src, node_type, store, left, into, (count - 1) as nat);
        let before = carried_by_hash(dst, src, node_type, store, left, into, (count - 1) as nat);
        if let Some(node) = hash_match(dst, src, node_type, left[count - 1], before) {
            put_is_coherent(before, store, left[count - 1], node.slot);
            let after = carried_by_hash(dst, src, node_type, store, left, into, count);
            assert forall|n: usize| holds(into, n) implies #[trigger] vector_of(after, n)
                == vector_of(into, n) by {
                assert(vector_of(before, n) == vector_of(into, n));
                assert(n != node.slot);
            }
        }
    }
}

pub(crate) proof fn id_pass_leaves_room(
    dst: DirGraph,
    src: DirGraph,
    node_type: Text,
    store: StoreModel,
    count: nat,
)
    requires
        coherent(store),
        count <= store.nodes.len(),
    ensures
        carried_by_id(dst, src, node_type, store, count).nodes.len() + left_by_id(
            dst,
            src,
            node_type,
            store.nodes,
            count,
        ).len() <= count,
    decreases count,
{
    if count > 0 {
        id_pass_leaves_room(dst, src, node_type, store, (count - 1) as nat);
        id_pass_is_coherent(dst, src, node_type, store, (count - 1) as nat);
        let slot = store.nodes[count - 1];
        assert(holds(store, slot));
        if let Some(node) = id_match(dst, src, node_type, slot) {
            put_is_coherent(
                carried_by_id(dst, src, node_type, store, (count - 1) as nat),
                store,
                slot,
                node.slot,
            );
        }
    }
}

/// A copied vector follows its node's id: the node of the target with the id
/// has the vector, where no later vector is of a node with that id. The pass by
/// chunk hash never takes a node over.
pub proof fn a_copied_vector_follows_its_id(
    dst: DirGraph,
    src: DirGraph,
    node_type: Text,
    store: StoreModel,
    at: int,
)
    requires
        coherent(store),
        0 <= at < store.nodes.len(),
        id_match(dst, src, node_type, store.nodes[at]) is Some,
        forall|j: int|
            at < j < store.nodes.len() ==> id_match(dst, src, node_type, #[trigger] store.nodes[j])
                != id_match(dst, src, node_type, store.nodes[at]),
    ensures
        vector_of(
            carried_store(dst, src, node_type, store),
            id_match(dst, src, node_type, store.nodes[at])->0.slot,
        ) == vector_of(store, store.nodes[at]),
{
    let count = store.nodes.len();
    let left = left_by_id(dst, src, node_type, store.nodes, count);
    let into = carried_by_id(dst, src, node_type, store, count);
    id_pass_is_coherent(dst, src, node_type, store, count);
    id_pass_keeps(dst, src, node_type, store, count, at);
    id_pass_leaves_room(dst, src, node_type, store, count);
    left_is_held(dst, src, node_type, store.nodes, count);
    hash_pass_keeps(dst, src, node_type, store, left, into, left.len());
    assert(holds(store, store.nodes[at]));
    let node = id_match(dst, src, node_type, store.nodes[at])->0;
    assert(vector_of(into, node.slot) is Some);
    assert(holds(into, node.slot));
}

/// Where nodes moved when their slots were compacted.
pub type NodeRemap = EdgeRemap;

proof fn no_index_moves(store: StoreModel, slots: Seq<u32>, count: nat)
    ensures
        remapped_upto(store, slots, count).index is None,
    decreases count,
{
    if count > 0 {
        no_index_moves(store, slots, (count - 1) as nat);
    }
}

/// A node store with its owners moved: what moved nowhere is gone, and so is
/// the index; how much an index may lag stays.
pub open spec fn node_store_remapped(store: StoreModel, slots: Seq<u32>) -> StoreModel {
    StoreModel { freshness: uncovered(store.freshness.limit), ..remapped(store, slots) }
}

/// The stores with the owners of the first `count` moved.
pub open spec fn stores_remapped(
    entries: Seq<EntryModel<StoreModel>>,
    slots: Seq<u32>,
    count: int,
) -> Seq<EntryModel<StoreModel>> {
    Seq::new(
        entries.len(),
        |i: int|
            if i < count {
                EntryModel { store: node_store_remapped(entries[i].store, slots), ..entries[i] }
            } else {
                entries[i]
            },
    )
}

impl DirGraph {
    /// Moves the owners of every node store to the slots their nodes moved to.
    pub fn remap_embedding_slots(&mut self, old_to_new: &NodeRemap)
        requires
            old(self).well_formed(),
        ensures
            final(self).well_formed(),
            *final(self) == (DirGraph { embeddings: final(self).embeddings, ..*old(self) }),
            final(self).embeddings@ == stores_remapped(
                old(self).embeddings@,
                old_to_new.slots@,
                old(self).embeddings@.len() as int,
            ),
    {
        let ghost before = self.embeddings@;
        let ghost slots = old_to_new.slots@;
        assert(stores_remapped(before, slots, 0) =~= before);
        let mut i: usize = 0;
        while i < self.embeddings.len()
            invariant
                i <= self.embeddings@.len(),
                self.well_formed(),
                slots == old_to_new.slots@,
                before == old(self).embeddings@,
                *self == (DirGraph { embeddings: self.embeddings, ..*old(self) }),
                self.embeddings@ == stores_remapped(before, slots, i as int),
            decreases self.embeddings@.len() - i,
        {
            assert(self.embeddings.entries@[i as int].store.well_formed());
            let limit: usize = self.embeddings.entries[i].store.freshness.limit;
            let mut moved = remapped_store(&self.embeddings.entries[i].store, old_to_new);
            proof {
                moved.is_coherent();
                let held = self.embeddings.entries@[i as int].store@;
                no_index_moves(held, slots, held.nodes.len());
            }
            moved.freshness = IndexFreshness::covering(0, limit);
            let _ = self.embeddings.replace_at(i, moved);
            proof {
                assert(self.embeddings@ =~= stores_remapped(before, slots, i + 1));
            }
            i = i + 1;
        }
    }
}

} // verus!
