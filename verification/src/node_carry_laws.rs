//! Where the vectors of nodes go when they are copied to another graph.

use crate::catalog::{a_kept_store_is_found, keys_distinct, lookup, EntryModel};
use crate::graph::{members_or_none, node_by_id, DirGraph};
use crate::node_carry::{
    carried_by_hash, carried_by_id, carried_count, carried_store, chunk_hash, copy_done,
    hash_match, hash_pass_keeps, holders_of, id_match, id_pass_is_coherent, id_pass_leaves_room,
    left_by_id, left_is_held, matched_by_hash, matched_by_id, put_is_coherent, put_under,
    sole_holder, stores_carried,
};
use crate::store::{coherent, hash_of, holds, place_of, vector_of, StoreModel};
use crate::text::Text;
use crate::topology::{property_in, Topology};
use crate::value::{NodeIndex, ValueModel};
use vstd::prelude::*;

verus! {

/// A node lives and has this text, which is not empty, as its chunk hash.
pub open spec fn carries_chunk(topology: Topology, node: NodeIndex, hash: Text) -> bool {
    &&& node.slot < topology.nodes@.len()
    &&& topology.nodes@[node.slot as int] is Some
    &&& property_in(topology.nodes@[node.slot as int]->0.properties@, "chunk_hash"@) == Some(
        ValueModel::String(hash),
    )
    &&& hash.len() > 0
}

/// A node stands at a place among the members of its type, and is the only one of
/// them with this chunk hash.
pub open spec fn only_chunk_at(
    graph: DirGraph,
    node_type: Text,
    node: NodeIndex,
    hash: Text,
    at: int,
) -> bool {
    let members = members_or_none(graph.node_types@, node_type);
    &&& 0 <= at < members.len()
    &&& members[at] == node
    &&& carries_chunk(graph.topology, node, hash)
    &&& forall|q: int|
        0 <= q < members.len() && q != at ==> !carries_chunk(
            graph.topology,
            #[trigger] members[q],
            hash,
        )
}

/// A node is the only member of its type with this chunk hash.
pub open spec fn only_chunk(graph: DirGraph, node_type: Text, node: NodeIndex, hash: Text) -> bool {
    exists|at: int| #[trigger] only_chunk_at(graph, node_type, node, hash, at)
}

proof fn a_chunk_hash_is_carried(topology: Topology, node: NodeIndex, hash: Text)
    ensures
        chunk_hash(topology, node) == Some(hash) <==> carries_chunk(topology, node, hash),
{
}

proof fn no_holder_is_found(topology: Topology, members: Seq<NodeIndex>, hash: Text, count: nat)
    requires
        count <= members.len(),
        forall|q: int|
            0 <= q < count ==> !carries_chunk(topology, #[trigger] members[q], hash),
    ensures
        holders_of(topology, members, hash, count).len() == 0,
    decreases count,
{
    if count > 0 {
        no_holder_is_found(topology, members, hash, (count - 1) as nat);
        a_chunk_hash_is_carried(topology, members[count - 1], hash);
    }
}

proof fn one_holder_is_found(
    topology: Topology,
    members: Seq<NodeIndex>,
    hash: Text,
    count: nat,
    at: int,
)
    requires
        0 <= at < count <= members.len(),
        carries_chunk(topology, members[at], hash),
        forall|q: int|
            0 <= q < members.len() && q != at ==> !carries_chunk(
                topology,
                #[trigger] members[q],
                hash,
            ),
    ensures
        holders_of(topology, members, hash, count) == seq![members[at]],
    decreases count,
{
    a_chunk_hash_is_carried(topology, members[count - 1], hash);
    if at == count - 1 {
        no_holder_is_found(topology, members, hash, (count - 1) as nat);
        assert(holders_of(topology, members, hash, count) =~= seq![members[at]]);
    } else {
        one_holder_is_found(topology, members, hash, (count - 1) as nat, at);
    }
}

proof fn the_only_chunk_is_the_holder(
    graph: DirGraph,
    node_type: Text,
    node: NodeIndex,
    hash: Text,
)
    requires
        only_chunk(graph, node_type, node, hash),
    ensures
        sole_holder(graph, node_type, hash) == Some(node),
{
    let members = members_or_none(graph.node_types@, node_type);
    let at = choose|at: int| #[trigger] only_chunk_at(graph, node_type, node, hash, at);
    one_holder_is_found(graph.topology, members, hash, members.len(), at);
}

proof fn holders_are_counted(
    topology: Topology,
    members: Seq<NodeIndex>,
    hash: Text,
    count: nat,
    at: int,
)
    requires
        0 <= at < count <= members.len(),
        carries_chunk(topology, members[at], hash),
    ensures
        holders_of(topology, members, hash, count).len() >= 1,
        forall|q: int|
            0 <= q < count && q != at && carries_chunk(topology, #[trigger] members[q], hash)
                ==> holders_of(topology, members, hash, count).len() >= 2,
    decreases count,
{
    a_chunk_hash_is_carried(topology, members[count - 1], hash);
    if at < count - 1 {
        holders_are_counted(topology, members, hash, (count - 1) as nat, at);
    } else {
        assert forall|q: int|
            0 <= q < count && q != at && carries_chunk(
                topology,
                #[trigger] members[q],
                hash,
            ) implies holders_of(topology, members, hash, count).len() >= 2 by {
            holders_are_counted(topology, members, hash, (count - 1) as nat, q);
        }
    }
}

proof fn a_holder_stands_somewhere(
    topology: Topology,
    members: Seq<NodeIndex>,
    hash: Text,
    count: nat,
) -> (at: int)
    requires
        count <= members.len(),
        holders_of(topology, members, hash, count).len() > 0,
    ensures
        0 <= at < count,
        carries_chunk(topology, members[at], hash),
        members[at] == holders_of(topology, members, hash, count)[0],
    decreases count,
{
    a_chunk_hash_is_carried(topology, members[count - 1], hash);
    if holders_of(topology, members, hash, (count - 1) as nat).len() > 0 {
        a_holder_stands_somewhere(topology, members, hash, (count - 1) as nat)
    } else {
        count - 1
    }
}

proof fn the_sole_holder_is_the_only_chunk(graph: DirGraph, node_type: Text, hash: Text)
    requires
        sole_holder(graph, node_type, hash) is Some,
    ensures
        only_chunk(graph, node_type, sole_holder(graph, node_type, hash)->0, hash),
{
    let members = members_or_none(graph.node_types@, node_type);
    let node = sole_holder(graph, node_type, hash)->0;
    let at = a_holder_stands_somewhere(graph.topology, members, hash, members.len());
    holders_are_counted(graph.topology, members, hash, members.len(), at);
    assert(only_chunk_at(graph, node_type, node, hash, at));
}

proof fn a_put_vector_brings_its_hash(into: StoreModel, from: StoreModel, slot: usize, to: usize)
    requires
        coherent(into),
        !holds(into, to),
    ensures
        hash_of(put_under(into, from, slot, to), to) == hash_of(from, slot),
        put_under(into, from, slot, to).nodes.len() == into.nodes.len() + 1,
        forall|other: usize|
            other != to ==> #[trigger] hash_of(put_under(into, from, slot, to), other) == hash_of(
                into,
                other,
            ),
        forall|other: usize|
            other != to ==> (#[trigger] holds(put_under(into, from, slot, to), other) <==> holds(
                into,
                other,
            )),
        holds(put_under(into, from, slot, to), to),
{
    assert(!into.hashes.contains_key(to));
    let after = put_under(into, from, slot, to);
    assert(after.nodes == into.nodes.push(to));
    assert(after.nodes[into.nodes.len() as int] == to);
    assert forall|other: usize| other != to implies (#[trigger] holds(after, other) <==> holds(
        into,
        other,
    )) by {
        if holds(into, other) {
            assert(after.nodes[place_of(into, other)] == other);
        }
        if holds(after, other) {
            let p = after.nodes.index_of(other);
            assert(into.nodes[p] == other);
        }
    }
}

proof fn left_owners_are_distinct(
    dst: DirGraph,
    src: DirGraph,
    node_type: Text,
    nodes: Seq<usize>,
    count: nat,
)
    requires
        nodes.no_duplicates(),
        count <= nodes.len(),
    ensures
        left_by_id(dst, src, node_type, nodes, count).no_duplicates(),
        forall|k: int|
            0 <= k < left_by_id(dst, src, node_type, nodes, count).len() ==> exists|i: int|
                0 <= i < count && #[trigger] nodes[i] == #[trigger] left_by_id(
                    dst,
                    src,
                    node_type,
                    nodes,
                    count,
                )[k],
        forall|i: int|
            0 <= i < count && src.topology.node_lives(NodeIndex { slot: #[trigger] nodes[i] })
                && id_match(dst, src, node_type, nodes[i]) is None ==> left_by_id(
                dst,
                src,
                node_type,
                nodes,
                count,
            ).contains(nodes[i]),
        forall|k: int|
            0 <= k < left_by_id(dst, src, node_type, nodes, count).len() ==> id_match(
                dst,
                src,
                node_type,
                #[trigger] left_by_id(dst, src, node_type, nodes, count)[k],
            ) is None,
    decreases count,
{
    if count > 0 {
        left_owners_are_distinct(dst, src, node_type, nodes, (count - 1) as nat);
        let less = left_by_id(dst, src, node_type, nodes, (count - 1) as nat);
        let left = left_by_id(dst, src, node_type, nodes, count);
        if left.len() > less.len() {
            assert(left == less.push(nodes[count - 1]));
            assert(!less.contains(nodes[count - 1])) by {
                if less.contains(nodes[count - 1]) {
                    let k = less.index_of(nodes[count - 1]);
                    assert(less[k] == nodes[count - 1]);
                }
            }
            assert(left[less.len() as int] == nodes[count - 1]);
        }
        assert forall|i: int|
            0 <= i < count && src.topology.node_lives(NodeIndex { slot: #[trigger] nodes[i] })
                && id_match(dst, src, node_type, nodes[i]) is None implies left.contains(
            nodes[i],
        ) by {
            if i < count - 1 {
                let k = less.index_of(nodes[i]);
                assert(left[k] == nodes[i]);
            }
        }
        assert forall|k: int| 0 <= k < left.len() implies exists|i: int|
            0 <= i < count && #[trigger] nodes[i] == #[trigger] left[k] by {
            if k < less.len() {
                assert(left[k] == less[k]);
            } else {
                assert(nodes[count - 1] == left[k]);
            }
        }
    }
}

proof fn an_id_pass_lands_on_matches(
    dst: DirGraph,
    src: DirGraph,
    node_type: Text,
    store: StoreModel,
    count: nat,
    slot: usize,
)
    requires
        coherent(store),
        count <= store.nodes.len(),
        holds(carried_by_id(dst, src, node_type, store, count), slot),
    ensures
        exists|i: int|
            0 <= i < count && id_match(dst, src, node_type, #[trigger] store.nodes[i]) == Some(
                NodeIndex { slot },
            ) && vector_of(carried_by_id(dst, src, node_type, store, count), slot) == vector_of(
                store,
                store.nodes[i],
            ),
    decreases count,
{
    let after = carried_by_id(dst, src, node_type, store, count);
    if count > 0 {
        let before = carried_by_id(dst, src, node_type, store, (count - 1) as nat);
        let owner = store.nodes[count - 1];
        id_pass_is_coherent(dst, src, node_type, store, (count - 1) as nat);
        match id_match(dst, src, node_type, owner) {
            Some(node) => {
                assert(holds(store, owner));
                put_is_coherent(before, store, owner, node.slot);
                if node.slot == slot {
                    assert(id_match(dst, src, node_type, store.nodes[count - 1]) == Some(
                        NodeIndex { slot },
                    ));
                } else {
                    assert(vector_of(after, slot) == vector_of(before, slot));
                    an_id_pass_lands_on_matches(
                        dst,
                        src,
                        node_type,
                        store,
                        (count - 1) as nat,
                        slot,
                    );
                }
            },
            None => {
                an_id_pass_lands_on_matches(dst, src, node_type, store, (count - 1) as nat, slot);
            },
        }
    }
}

/// What a pass by chunk hash does with one node of the target: it has no vector
/// before the owner with its chunk hash comes, and that owner's vector after.
proof fn a_hash_pass_lands_on_its_holder(
    dst: DirGraph,
    src: DirGraph,
    node_type: Text,
    store: StoreModel,
    left: Seq<usize>,
    into: StoreModel,
    count: nat,
    at: int,
    target: NodeIndex,
    hash: Text,
)
    requires
        coherent(store),
        coherent(into),
        into.index is None,
        into.dimension == store.dimension,
        count <= left.len(),
        into.nodes.len() + left.len() <= store.nodes.len(),
        left.no_duplicates(),
        forall|i: int| 0 <= i < left.len() ==> store.nodes.contains(#[trigger] left[i]),
        0 <= at < left.len(),
        carries_chunk(src.topology, NodeIndex { slot: left[at] }, hash),
        only_chunk(src, node_type, NodeIndex { slot: left[at] }, hash),
        only_chunk(dst, node_type, target, hash),
        !holds(into, target.slot),
        forall|i: int|
            0 <= i < left.len() && i != at ==> !carries_chunk(
                src.topology,
                NodeIndex { slot: #[trigger] left[i] },
                hash,
            ),
    ensures
        ({
            let after = carried_by_hash(dst, src, node_type, store, left, into, count);
            if at < count {
                &&& vector_of(after, target.slot) == vector_of(store, left[at])
                &&& hash_of(after, target.slot) == hash_of(store, left[at])
                &&& holds(after, target.slot)
            } else {
                !holds(after, target.slot)
            }
        }),
    decreases count,
{
    if count > 0 {
        let k = count - 1;
        let before = carried_by_hash(dst, src, node_type, store, left, into, k as nat);
        a_hash_pass_lands_on_its_holder(
            dst,
            src,
            node_type,
            store,
            left,
            into,
            k as nat,
            at,
            target,
            hash,
        );
        hash_pass_keeps(dst, src, node_type, store, left, into, k as nat);
        the_only_chunk_is_the_holder(dst, node_type, target, hash);
        the_only_chunk_is_the_holder(src, node_type, NodeIndex { slot: left[at] }, hash);
        a_chunk_hash_is_carried(src.topology, NodeIndex { slot: left[at] }, hash);
        a_chunk_hash_is_carried(dst.topology, target, hash);
        let matched = hash_match(dst, src, node_type, left[k], before);
        if k == at {
            assert(matched == Some(target));
            put_is_coherent(before, store, left[k], target.slot);
            a_put_vector_brings_its_hash(before, store, left[k], target.slot);
        } else if matched is Some {
            let node = matched->0;
            let other = chunk_hash(src.topology, NodeIndex { slot: left[k] })->0;
            the_sole_holder_is_the_only_chunk(dst, node_type, other);
            if node == target {
                a_chunk_hash_is_carried(dst.topology, target, other);
                let p = choose|p: int| #[trigger] only_chunk_at(dst, node_type, target, hash, p);
                let q = choose|q: int| #[trigger] only_chunk_at(dst, node_type, node, other, q);
                assert(other == hash);
                a_chunk_hash_is_carried(src.topology, NodeIndex { slot: left[k] }, hash);
                assert(false);
            }
            assert(node.slot != target.slot);
            put_is_coherent(before, store, left[k], node.slot);
            a_put_vector_brings_its_hash(before, store, left[k], node.slot);
            let after = carried_by_hash(dst, src, node_type, store, left, into, count);
            assert(after == put_under(before, store, left[k], node.slot));
            assert(vector_of(after, target.slot) == vector_of(before, target.slot));
            assert(hash_of(after, target.slot) == hash_of(before, target.slot));
            assert(holds(after, target.slot) <==> holds(before, target.slot));
        }
    }
}

/// A vector whose owner's id the target lacks lands on the node with the owner's
/// chunk hash, with the hash of the text it was made from, where just one member
/// of the type has that chunk hash on each side, no other owner has it, and no
/// vector came to that node by id.
pub proof fn a_copied_vector_follows_its_chunk(
    dst: DirGraph,
    src: DirGraph,
    node_type: Text,
    store: StoreModel,
    owner: usize,
    target: NodeIndex,
    hash: Text,
)
    requires
        coherent(store),
        store.nodes.contains(owner),
        only_chunk(src, node_type, NodeIndex { slot: owner }, hash),
        only_chunk(dst, node_type, target, hash),
        node_by_id(
            dst,
            node_type,
            src.topology.nodes@[owner as int]->0.id@,
        ) is None,
        forall|other: usize| #[trigger]
            store.nodes.contains(other) && other != owner ==> !carries_chunk(
                src.topology,
                NodeIndex { slot: other },
                hash,
            ),
        forall|other: usize| #[trigger]
            store.nodes.contains(other) && src.topology.node_lives(NodeIndex { slot: other })
                ==> node_by_id(dst, node_type, src.topology.nodes@[other as int]->0.id@) != Some(
                target,
            ),
    ensures
        vector_of(carried_store(dst, src, node_type, store), target.slot) == vector_of(
            store,
            owner,
        ),
        hash_of(carried_store(dst, src, node_type, store), target.slot) == hash_of(store, owner),
{
    let count = store.nodes.len();
    let left = left_by_id(dst, src, node_type, store.nodes, count);
    let into = carried_by_id(dst, src, node_type, store, count);
    let p = choose|p: int| #[trigger]
        only_chunk_at(src, node_type, NodeIndex { slot: owner }, hash, p);
    id_pass_is_coherent(dst, src, node_type, store, count);
    id_pass_leaves_room(dst, src, node_type, store, count);
    left_is_held(dst, src, node_type, store.nodes, count);
    left_owners_are_distinct(dst, src, node_type, store.nodes, count);
    let at_store = store.nodes.index_of(owner);
    assert(store.nodes[at_store] == owner);
    assert(left.contains(owner));
    let at = left.index_of(owner);
    assert(!holds(into, target.slot)) by {
        if holds(into, target.slot) {
            an_id_pass_lands_on_matches(dst, src, node_type, store, count, target.slot);
            let i = choose|i: int|
                0 <= i < count && id_match(dst, src, node_type, #[trigger] store.nodes[i]) == Some(
                    NodeIndex { slot: target.slot },
                ) && vector_of(into, target.slot) == vector_of(store, store.nodes[i]);
            assert(store.nodes.contains(store.nodes[i]));
        }
    }
    assert forall|i: int| 0 <= i < left.len() && i != at implies !carries_chunk(
        src.topology,
        NodeIndex { slot: #[trigger] left[i] },
        hash,
    ) by {
        assert(left[i] != owner);
        assert(store.nodes.contains(left[i]));
    }
    a_hash_pass_lands_on_its_holder(
        dst,
        src,
        node_type,
        store,
        left,
        into,
        left.len(),
        at,
        target,
        hash,
    );
}

/// A vector of the source is the right one for a node of the target: its owner
/// lives and has the node's id, or the target lacks its id and both are the only
/// members of the type with one chunk hash, the owner's.
pub open spec fn comes_from(
    dst: DirGraph,
    src: DirGraph,
    node_type: Text,
    owner: usize,
    target: NodeIndex,
) -> bool {
    let id = src.topology.nodes@[owner as int]->0.id@;
    &&& src.topology.node_lives(NodeIndex { slot: owner })
    &&& node_by_id(dst, node_type, id) == Some(target) || (node_by_id(dst, node_type, id) is None
        && exists|hash: Text|
        {
            &&& #[trigger] carries_chunk(src.topology, NodeIndex { slot: owner }, hash)
            &&& only_chunk(dst, node_type, target, hash)
        })
}

proof fn a_hash_pass_lands_on_matches(
    dst: DirGraph,
    src: DirGraph,
    node_type: Text,
    store: StoreModel,
    left: Seq<usize>,
    into: StoreModel,
    count: nat,
    slot: usize,
)
    requires
        coherent(store),
        coherent(into),
        into.index is None,
        into.dimension == store.dimension,
        count <= left.len(),
        into.nodes.len() + left.len() <= store.nodes.len(),
        forall|i: int| 0 <= i < left.len() ==> store.nodes.contains(#[trigger] left[i]),
        forall|i: int|
            0 <= i < left.len() ==> id_match(dst, src, node_type, #[trigger] left[i]) is None,
        holds(carried_by_hash(dst, src, node_type, store, left, into, count), slot),
        !holds(into, slot),
    ensures
        exists|i: int|
            0 <= i < count && comes_from(
                dst,
                src,
                node_type,
                #[trigger] left[i],
                NodeIndex { slot },
            ) && vector_of(
                carried_by_hash(dst, src, node_type, store, left, into, count),
                slot,
            ) == vector_of(store, left[i]) && hash_of(
                carried_by_hash(dst, src, node_type, store, left, into, count),
                slot,
            ) == hash_of(store, left[i]),
    decreases count,
{
    if count > 0 {
        let k = count - 1;
        let before = carried_by_hash(dst, src, node_type, store, left, into, k as nat);
        let after = carried_by_hash(dst, src, node_type, store, left, into, count);
        hash_pass_keeps(dst, src, node_type, store, left, into, k as nat);
        match hash_match(dst, src, node_type, left[k], before) {
            Some(node) => {
                put_is_coherent(before, store, left[k], node.slot);
                a_put_vector_brings_its_hash(before, store, left[k], node.slot);
                if node.slot == slot {
                    let hash = chunk_hash(src.topology, NodeIndex { slot: left[k] })->0;
                    a_chunk_hash_is_carried(src.topology, NodeIndex { slot: left[k] }, hash);
                    the_sole_holder_is_the_only_chunk(dst, node_type, hash);
                    assert(node == NodeIndex { slot });
                    assert(comes_from(dst, src, node_type, left[k], NodeIndex { slot }));
                } else {
                    assert(vector_of(after, slot) == vector_of(before, slot));
                    assert(hash_of(after, slot) == hash_of(before, slot));
                    a_hash_pass_lands_on_matches(
                        dst,
                        src,
                        node_type,
                        store,
                        left,
                        into,
                        k as nat,
                        slot,
                    );
                }
            },
            None => {
                a_hash_pass_lands_on_matches(
                    dst,
                    src,
                    node_type,
                    store,
                    left,
                    into,
                    k as nat,
                    slot,
                );
            },
        }
    }
}

/// Every vector that is copied is one of the source whose owner is the node it
/// lands on, by id or by chunk hash.
pub proof fn a_copied_vector_comes_from_a_match(
    dst: DirGraph,
    src: DirGraph,
    node_type: Text,
    store: StoreModel,
    slot: usize,
)
    requires
        coherent(store),
        carried_store(dst, src, node_type, store).nodes.contains(slot),
    ensures
        exists|i: int|
            0 <= i < store.nodes.len() && comes_from(
                dst,
                src,
                node_type,
                #[trigger] store.nodes[i],
                NodeIndex { slot },
            ) && vector_of(carried_store(dst, src, node_type, store), slot) == vector_of(
                store,
                store.nodes[i],
            ),
{
    let count = store.nodes.len();
    let left = left_by_id(dst, src, node_type, store.nodes, count);
    let into = carried_by_id(dst, src, node_type, store, count);
    id_pass_is_coherent(dst, src, node_type, store, count);
    id_pass_leaves_room(dst, src, node_type, store, count);
    left_is_held(dst, src, node_type, store.nodes, count);
    left_owners_are_distinct(dst, src, node_type, store.nodes, count);
    hash_pass_keeps(dst, src, node_type, store, left, into, left.len());
    if holds(into, slot) {
        an_id_pass_lands_on_matches(dst, src, node_type, store, count, slot);
        let i = choose|i: int|
            0 <= i < count && id_match(dst, src, node_type, #[trigger] store.nodes[i]) == Some(
                NodeIndex { slot },
            ) && vector_of(into, slot) == vector_of(store, store.nodes[i]);
        assert(comes_from(dst, src, node_type, store.nodes[i], NodeIndex { slot }));
        assert(vector_of(carried_store(dst, src, node_type, store), slot) == vector_of(into, slot));
    } else {
        a_hash_pass_lands_on_matches(
            dst,
            src,
            node_type,
            store,
            left,
            into,
            left.len(),
            slot,
        );
        let k = choose|k: int|
            0 <= k < left.len() && comes_from(
                dst,
                src,
                node_type,
                #[trigger] left[k],
                NodeIndex { slot },
            ) && vector_of(carried_store(dst, src, node_type, store), slot) == vector_of(
                store,
                left[k],
            );
        let i = choose|i: int| 0 <= i < count && #[trigger] store.nodes[i] == left[k];
        assert(comes_from(dst, src, node_type, store.nodes[i], NodeIndex { slot }));
    }
}

proof fn an_id_pass_counts_its_vectors(
    dst: DirGraph,
    src: DirGraph,
    node_type: Text,
    store: StoreModel,
    count: nat,
)
    requires
        coherent(store),
        count <= store.nodes.len(),
        forall|i: int, j: int|
            0 <= i < j < store.nodes.len() && id_match(dst, src, node_type, store.nodes[i]) is Some
                ==> id_match(dst, src, node_type, #[trigger] store.nodes[i]) != id_match(
                dst,
                src,
                node_type,
                #[trigger] store.nodes[j],
            ),
    ensures
        carried_by_id(dst, src, node_type, store, count).nodes.len() == matched_by_id(
            dst,
            src,
            node_type,
            store.nodes,
            count,
        ),
    decreases count,
{
    if count > 0 {
        an_id_pass_counts_its_vectors(dst, src, node_type, store, (count - 1) as nat);
        let before = carried_by_id(dst, src, node_type, store, (count - 1) as nat);
        id_pass_is_coherent(dst, src, node_type, store, (count - 1) as nat);
        let owner = store.nodes[count - 1];
        if let Some(node) = id_match(dst, src, node_type, owner) {
            if holds(before, node.slot) {
                an_id_pass_lands_on_matches(
                    dst,
                    src,
                    node_type,
                    store,
                    (count - 1) as nat,
                    node.slot,
                );
                let i = choose|i: int|
                    0 <= i < count - 1 && id_match(dst, src, node_type, #[trigger] store.nodes[i])
                        == Some(NodeIndex { slot: node.slot }) && vector_of(before, node.slot)
                        == vector_of(store, store.nodes[i]);
                assert(id_match(dst, src, node_type, store.nodes[i]) == id_match(
                    dst,
                    src,
                    node_type,
                    store.nodes[count - 1],
                ));
            }
            a_put_vector_brings_its_hash(before, store, owner, node.slot);
        }
    }
}

proof fn a_hash_pass_counts_its_vectors(
    dst: DirGraph,
    src: DirGraph,
    node_type: Text,
    store: StoreModel,
    left: Seq<usize>,
    into: StoreModel,
    count: nat,
)
    requires
        coherent(store),
        coherent(into),
        into.index is None,
        into.dimension == store.dimension,
        count <= left.len(),
        into.nodes.len() + left.len() <= store.nodes.len(),
        forall|i: int| 0 <= i < left.len() ==> store.nodes.contains(#[trigger] left[i]),
    ensures
        carried_by_hash(dst, src, node_type, store, left, into, count).nodes.len()
            == into.nodes.len() + matched_by_hash(
            dst,
            src,
            node_type,
            store,
            left,
            into,
            count,
        ),
    decreases count,
{
    if count > 0 {
        let k = (count - 1) as nat;
        a_hash_pass_counts_its_vectors(dst, src, node_type, store, left, into, k);
        let before = carried_by_hash(dst, src, node_type, store, left, into, k);
        hash_pass_keeps(dst, src, node_type, store, left, into, k);
        if let Some(node) = hash_match(dst, src, node_type, left[k as int], before) {
            a_put_vector_brings_its_hash(before, store, left[k as int], node.slot);
        }
    }
}

/// Where no two owners of the source have the id of one node, what is reported as
/// copied is just what the copied store has.
pub proof fn what_is_copied_is_counted(
    dst: DirGraph,
    src: DirGraph,
    node_type: Text,
    store: StoreModel,
)
    requires
        coherent(store),
        forall|i: int, j: int|
            0 <= i < j < store.nodes.len() && id_match(dst, src, node_type, store.nodes[i]) is Some
                ==> id_match(dst, src, node_type, #[trigger] store.nodes[i]) != id_match(
                dst,
                src,
                node_type,
                #[trigger] store.nodes[j],
            ),
    ensures
        carried_count(dst, src, node_type, store) == carried_store(
            dst,
            src,
            node_type,
            store,
        ).nodes.len(),
{
    let count = store.nodes.len();
    let left = left_by_id(dst, src, node_type, store.nodes, count);
    let into = carried_by_id(dst, src, node_type, store, count);
    id_pass_is_coherent(dst, src, node_type, store, count);
    id_pass_leaves_room(dst, src, node_type, store, count);
    left_is_held(dst, src, node_type, store.nodes, count);
    an_id_pass_counts_its_vectors(dst, src, node_type, store, count);
    a_hash_pass_counts_its_vectors(dst, src, node_type, store, left, into, left.len());
}

proof fn copies_stand_where_they_were_put(
    dst: DirGraph,
    src: DirGraph,
    stores: Seq<EntryModel<StoreModel>>,
    count: nat,
)
    requires
        keys_distinct(src.embeddings@),
        count <= src.embeddings@.len(),
    ensures
        forall|i: int|
            0 <= i < count ==> lookup(
                stores_carried(dst, src, stores, count),
                (#[trigger] src.embeddings@[i]).owner_type,
                src.embeddings@[i].name,
            ) == Some(
                carried_store(
                    dst,
                    src,
                    src.embeddings@[i].owner_type,
                    src.embeddings@[i].store,
                ),
            ),
        forall|t: Text, n: Text|
            (forall|i: int|
                0 <= i < count ==> !((#[trigger] src.embeddings@[i]).owner_type == t
                    && src.embeddings@[i].name == n)) ==> #[trigger] lookup(
                stores_carried(dst, src, stores, count),
                t,
                n,
            ) == lookup(stores, t, n),
    decreases count,
{
    if count > 0 {
        let k = (count - 1) as nat;
        copies_stand_where_they_were_put(dst, src, stores, k);
        let entry = src.embeddings@[count - 1];
        let less = stores_carried(dst, src, stores, k);
        a_kept_store_is_found(
            less,
            entry.owner_type,
            entry.name,
            carried_store(dst, src, entry.owner_type, entry.store),
        );
        assert forall|i: int| 0 <= i < count implies lookup(
            stores_carried(dst, src, stores, count),
            (#[trigger] src.embeddings@[i]).owner_type,
            src.embeddings@[i].name,
        ) == Some(
            carried_store(dst, src, src.embeddings@[i].owner_type, src.embeddings@[i].store),
        ) by {
            if i < count - 1 {
                assert(!(src.embeddings@[i].owner_type == entry.owner_type
                    && src.embeddings@[i].name == entry.name));
            }
        }
        assert forall|t: Text, n: Text|
            (forall|i: int|
                0 <= i < count ==> !((#[trigger] src.embeddings@[i]).owner_type == t
                    && src.embeddings@[i].name == n)) implies #[trigger] lookup(
            stores_carried(dst, src, stores, count),
            t,
            n,
        ) == lookup(stores, t, n) by {
            assert(!(src.embeddings@[count - 1].owner_type == t && src.embeddings@[count - 1].name
                == n));
            assert(lookup(less, t, n) == lookup(stores, t, n));
        }
    }
}

/// After a copy the target has each store of the source under its type and name,
/// with what found a node, and every other store as it was.
pub proof fn a_copy_brings_every_store(before: DirGraph, after: DirGraph, src: DirGraph)
    requires
        src.well_formed(),
        copy_done(before, after, src),
    ensures
        forall|i: int|
            0 <= i < src.embeddings@.len() ==> lookup(
                after.embeddings@,
                (#[trigger] src.embeddings@[i]).owner_type,
                src.embeddings@[i].name,
            ) == Some(
                carried_store(
                    before,
                    src,
                    src.embeddings@[i].owner_type,
                    src.embeddings@[i].store,
                ),
            ),
        forall|t: Text, n: Text|
            lookup(src.embeddings@, t, n) is None ==> #[trigger] lookup(after.embeddings@, t, n)
                == lookup(before.embeddings@, t, n),
        after.topology == before.topology,
        after.edge_embeddings@ == before.edge_embeddings@,
{
    let count = src.embeddings@.len();
    copies_stand_where_they_were_put(before, src, before.embeddings@, count);
    assert forall|t: Text, n: Text| lookup(src.embeddings@, t, n) is None implies #[trigger] lookup(
        after.embeddings@,
        t,
        n,
    ) == lookup(before.embeddings@, t, n) by {
        assert forall|i: int| 0 <= i < count implies !((
        #[trigger] src.embeddings@[i]).owner_type == t && src.embeddings@[i].name == n) by {
            if src.embeddings@[i].owner_type == t && src.embeddings@[i].name == n {
                crate::catalog::place_of_entry(src.embeddings@, i);
            }
        }
    }
}

/// A copied store declares what the source's does: its dimension, its metric and
/// the model that made it. It has no index.
pub proof fn a_copied_store_declares_the_same(
    dst: DirGraph,
    src: DirGraph,
    node_type: Text,
    store: StoreModel,
)
    ensures
        carried_store(dst, src, node_type, store).dimension == store.dimension,
        carried_store(dst, src, node_type, store).metric == store.metric,
        carried_store(dst, src, node_type, store).model_id == store.model_id,
        carried_store(dst, src, node_type, store).index is None,
{
    let count = store.nodes.len();
    let left = left_by_id(dst, src, node_type, store.nodes, count);
    declared_by_id(dst, src, node_type, store, count);
    declared_by_hash(
        dst,
        src,
        node_type,
        store,
        left,
        carried_by_id(dst, src, node_type, store, count),
        left.len(),
    );
}

proof fn declared_by_id(
    dst: DirGraph,
    src: DirGraph,
    node_type: Text,
    store: StoreModel,
    count: nat,
)
    ensures
        carried_by_id(dst, src, node_type, store, count).dimension == store.dimension,
        carried_by_id(dst, src, node_type, store, count).metric == store.metric,
        carried_by_id(dst, src, node_type, store, count).model_id == store.model_id,
        carried_by_id(dst, src, node_type, store, count).index is None,
    decreases count,
{
    if count > 0 {
        declared_by_id(dst, src, node_type, store, (count - 1) as nat);
    }
}

proof fn declared_by_hash(
    dst: DirGraph,
    src: DirGraph,
    node_type: Text,
    store: StoreModel,
    left: Seq<usize>,
    into: StoreModel,
    count: nat,
)
    ensures
        carried_by_hash(dst, src, node_type, store, left, into, count).dimension == into.dimension,
        carried_by_hash(dst, src, node_type, store, left, into, count).metric == into.metric,
        carried_by_hash(dst, src, node_type, store, left, into, count).model_id == into.model_id,
        carried_by_hash(dst, src, node_type, store, left, into, count).index == into.index,
    decreases count,
{
    if count > 0 {
        declared_by_hash(dst, src, node_type, store, left, into, (count - 1) as nat);
    }
}

} // verus!
