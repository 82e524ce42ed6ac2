//! Closing the slots that were left, so that nodes and relationships stand in
//! consecutive slots again.

use crate::catalog::Catalog;
use crate::edge_delete::{remap_edge_embeddings, stores_remapped};
use crate::edge_store::{moved_to, EdgeRemap, VACANT_EDGE};
use crate::graph::{DirGraph, TypeMembers};
use crate::node_carry::NodeRemap;
use crate::topology::{EdgeRecord, Topology};
use crate::value::NodeIndex;
use vstd::prelude::*;

verus! {

/// What stands in the first `count` slots, without the slots that were left.
pub open spec fn packed<A>(slots: Seq<Option<A>>, count: nat) -> Seq<Option<A>>
    decreases count,
{
    if count == 0 {
        Seq::empty()
    } else {
        let before = packed(slots, (count - 1) as nat);
        if slots[count - 1] is Some {
            before.push(slots[count - 1])
        } else {
            before
        }
    }
}

/// Where what stands in the first `count` slots moves to.
pub open spec fn moves<A>(slots: Seq<Option<A>>, count: nat) -> Seq<u32>
    decreases count,
{
    if count == 0 {
        Seq::empty()
    } else {
        moves(slots, (count - 1) as nat).push(
            if slots[count - 1] is Some {
                packed(slots, (count - 1) as nat).len() as u32
            } else {
                VACANT_EDGE
            },
        )
    }
}

/// Whether no slot was left.
pub open spec fn filled<A>(slots: Seq<Option<A>>) -> bool {
    forall|i: int| 0 <= i < slots.len() ==> (#[trigger] slots[i]) is Some
}

/// The node that a node moves to.
pub open spec fn moved_node(moves: Seq<u32>, node: NodeIndex) -> NodeIndex {
    match moved_to(moves, node.slot) {
        Some(edge) => NodeIndex { slot: edge.slot },
        None => node,
    }
}

/// A relationship between the nodes that its endpoints move to.
pub open spec fn moved_record(moves: Seq<u32>, record: EdgeRecord) -> EdgeRecord {
    EdgeRecord {
        source: moved_node(moves, record.source),
        target: moved_node(moves, record.target),
        ..record
    }
}

/// The relationships in their new slots, between the nodes in theirs.
pub open spec fn moved_edges(moves: Seq<u32>, edges: Seq<Option<EdgeRecord>>) -> Seq<
    Option<EdgeRecord>,
> {
    Seq::new(edges.len(), |i: int| Some(moved_record(moves, edges[i]->0)))
}

/// The nodes among the first `count` that move, where they move to.
pub open spec fn moved_members(moves: Seq<u32>, members: Seq<NodeIndex>, count: nat) -> Seq<
    NodeIndex,
>
    decreases count,
{
    if count == 0 {
        Seq::empty()
    } else {
        let before = moved_members(moves, members, (count - 1) as nat);
        match moved_to(moves, members[count - 1].slot) {
            Some(edge) => before.push(NodeIndex { slot: edge.slot }),
            None => before,
        }
    }
}

/// Where each slot moves.
pub proof fn each_slot_moves_once<A>(slots: Seq<Option<A>>, count: nat)
    requires
        count <= slots.len(),
        slots.len() <= VACANT_EDGE,
    ensures
        moves(slots, count).len() == count,
        packed(slots, count).len() <= count,
        forall|i: int|
            0 <= i < packed(slots, count).len() ==> (#[trigger] packed(slots, count)[i]) is Some,
        forall|from: usize|
            from < count && slots[from as int] is Some ==> {
                let to = #[trigger] moved_to(moves(slots, count), from);
                &&& to is Some
                &&& to->0.slot < packed(slots, count).len()
                &&& packed(slots, count)[to->0.slot as int] == slots[from as int]
            },
        forall|from: usize|
            from >= count || slots[from as int] is None ==> (#[trigger] moved_to(
                moves(slots, count),
                from,
            )) is None,
        forall|a: usize, b: usize|
            a < b && (#[trigger] moved_to(moves(slots, count), a)) is Some && (#[trigger] moved_to(
                moves(slots, count),
                b,
            )) is Some ==> moved_to(moves(slots, count), a)->0.slot < moved_to(
                moves(slots, count),
                b,
            )->0.slot,
    decreases count,
{
    if count > 0 {
        let prior = (count - 1) as nat;
        each_slot_moves_once(slots, prior);
        let before = moves(slots, prior);
        let after = moves(slots, count);
        assert forall|from: usize| from < prior implies #[trigger] moved_to(after, from)
            == moved_to(before, from) by {
            assert(after[from as int] == before[from as int]);
        }
        let last = (count - 1) as usize;
        assert(after[last as int] == if slots[count - 1] is Some {
            packed(slots, prior).len() as u32
        } else {
            VACANT_EDGE
        });
        assert forall|from: usize| from < count && slots[from as int] is Some implies {
            let to = #[trigger] moved_to(after, from);
            &&& to is Some
            &&& to->0.slot < packed(slots, count).len()
            &&& packed(slots, count)[to->0.slot as int] == slots[from as int]
        } by {
            if from < prior {
                assert(moved_to(after, from) == moved_to(before, from));
            }
        }
        assert forall|from: usize|
            from >= count || slots[from as int] is None implies (#[trigger] moved_to(
            after,
            from,
        )) is None by {
            if from < prior {
                assert(moved_to(after, from) == moved_to(before, from));
            }
        }
        assert forall|a: usize, b: usize|
            a < b && (#[trigger] moved_to(after, a)) is Some && (#[trigger] moved_to(after, b))
                is Some implies moved_to(after, a)->0.slot < moved_to(after, b)->0.slot by {
            assert(b < count);
            assert(moved_to(after, a) == moved_to(before, a));
            if b < prior {
                assert(moved_to(after, b) == moved_to(before, b));
            }
        }
    }
}

fn pack<A>(slots: Vec<Option<A>>) -> (result: (Vec<Option<A>>, Vec<u32>))
    requires
        slots@.len() <= VACANT_EDGE,
    ensures
        result.0@ == packed(slots@, slots@.len()),
        result.1@ == moves(slots@, slots@.len()),
{
    let ghost all = slots@;
    let mut slots = slots;
    let mut kept: Vec<Option<A>> = Vec::new();
    let mut table: Vec<u32> = Vec::new();
    let mut i: usize = 0;
    while i < slots.len()
        invariant
            i <= slots@.len(),
            slots@.len() == all.len(),
            all.len() <= VACANT_EDGE,
            forall|k: int| i <= k < all.len() ==> slots@[k] == all[k],
            kept@ == packed(all, i as nat),
            table@ == moves(all, i as nat),
        decreases slots@.len() - i,
    {
        proof {
            each_slot_moves_once(all, i as nat);
        }
        let mut taken: Option<A> = None;
        slots.set_and_swap(i, &mut taken);
        assert(taken == all[i as int]);
        match taken {
            Some(item) => {
                table.push(kept.len() as u32);
                kept.push(Some(item));
            },
            None => {
                table.push(VACANT_EDGE);
            },
        }
        i = i + 1;
    }
    (kept, table)
}

fn moved(remap: &NodeRemap, node: NodeIndex) -> (to: NodeIndex)
    ensures
        to == moved_node(remap.slots@, node),
{
    match remap.get(crate::value::EdgeIndex { slot: node.slot }) {
        Some(edge) => NodeIndex { slot: edge.slot },
        None => node,
    }
}

fn move_edges(edges: Vec<Option<EdgeRecord>>, remap: &NodeRemap) -> (out: Vec<Option<EdgeRecord>>)
    requires
        filled(edges@),
    ensures
        out@ == moved_edges(remap.slots@, edges@),
{
    let ghost all = edges@;
    let mut edges = edges;
    let mut i: usize = 0;
    while i < edges.len()
        invariant
            i <= edges@.len(),
            edges@.len() == all.len(),
            filled(all),
            forall|k: int|
                0 <= k < i ==> (#[trigger] edges@[k]) == Some(
                    moved_record(remap.slots@, all[k]->0),
                ),
            forall|k: int| i <= k < all.len() ==> (#[trigger] edges@[k]) == all[k],
        decreases edges@.len() - i,
    {
        let mut taken: Option<EdgeRecord> = None;
        edges.set_and_swap(i, &mut taken);
        assert(taken == all[i as int]);
        if let Some(record) = taken {
            edges.set(
                i,
                Some(
                    EdgeRecord {
                        source: moved(remap, record.source),
                        target: moved(remap, record.target),
                        data: record.data,
                    },
                ),
            );
        }
        i = i + 1;
    }
    assert(edges@ =~= moved_edges(remap.slots@, all));
    edges
}

fn is_filled<A>(slots: &Vec<Option<A>>) -> (filled: bool)
    ensures
        filled == self::filled(slots@),
{
    let mut i: usize = 0;
    while i < slots.len()
        invariant
            i <= slots@.len(),
            forall|k: int| 0 <= k < i ==> (#[trigger] slots@[k]) is Some,
        decreases slots@.len() - i,
    {
        if slots[i].is_none() {
            assert(slots@[i as int] is None);
            return false;
        }
        i = i + 1;
    }
    true
}

fn move_members(members: &Vec<NodeIndex>, remap: &NodeRemap) -> (out: Vec<NodeIndex>)
    ensures
        out@ == moved_members(remap.slots@, members@, members@.len()),
{
    let mut out: Vec<NodeIndex> = Vec::new();
    let mut i: usize = 0;
    while i < members.len()
        invariant
            i <= members@.len(),
            out@ == moved_members(remap.slots@, members@, i as nat),
        decreases members@.len() - i,
    {
        if let Some(edge) = remap.get(crate::value::EdgeIndex { slot: members[i].slot }) {
            out.push(NodeIndex { slot: edge.slot });
        }
        i = i + 1;
    }
    out
}

/// The nodes by type, where they moved to.
pub open spec fn types_moved(
    moves: Seq<u32>,
    before: Seq<TypeMembers>,
    after: Seq<TypeMembers>,
) -> bool {
    &&& after.len() == before.len()
    &&& forall|i: int|
        0 <= i < before.len() ==> (#[trigger] after[i]).name@ == before[i].name@
            && after[i].members@ == moved_members(
            moves,
            before[i].members@,
            before[i].members@.len(),
        )
}

fn move_types(types: &Vec<TypeMembers>, remap: &NodeRemap) -> (out: Vec<TypeMembers>)
    ensures
        types_moved(remap.slots@, types@, out@),
{
    let mut out: Vec<TypeMembers> = Vec::new();
    let mut i: usize = 0;
    while i < types.len()
        invariant
            i <= types@.len(),
            out@.len() == i,
            forall|k: int|
                0 <= k < i ==> (#[trigger] out@[k]).name@ == types@[k].name@ && out@[k].members@
                    == moved_members(
                    remap.slots@,
                    types@[k].members@,
                    types@[k].members@.len(),
                ),
        decreases types@.len() - i,
    {
        out.push(
            TypeMembers {
                name: types[i].name.as_str().to_owned(),
                members: move_members(&types[i].members, remap),
            },
        );
        i = i + 1;
    }
    out
}

/// Whether a graph was packed: its nodes, its relationships and what its stores
/// hold for them in consecutive slots, and no text index.
pub open spec fn vacuumed(before: DirGraph, after: DirGraph, table: Seq<u32>) -> bool {
    let nodes = before.topology.nodes@;
    let edges = before.topology.edges@;
    &&& table == moves(nodes, nodes.len())
    &&& after == (DirGraph {
        topology: after.topology,
        node_types: after.node_types,
        embeddings: after.embeddings,
        edge_embeddings: after.edge_embeddings,
        edge_text_indexes: after.edge_text_indexes,
        ..before
    })
    &&& after.topology.nodes@ == packed(nodes, nodes.len())
    &&& after.topology.edges@ == moved_edges(table, packed(edges, edges.len()))
    &&& after.topology.vacant@.len() == 0
    &&& types_moved(table, before.node_types@, after.node_types@)
    &&& after.embeddings@ == crate::node_carry::stores_remapped(
        before.embeddings@,
        table,
        before.embeddings@.len() as int,
    )
    &&& after.edge_embeddings@ == stores_remapped(
        before.edge_embeddings@,
        moves(edges, edges.len()),
    )
    &&& after.edge_text_indexes@.len() == 0
}

impl DirGraph {
    /// Closes the slots that were left: nodes and relationships move up, and their
    /// vectors with them, while indexes over slots are dropped. Gives back where
    /// each node moved to; nothing moves where no slot was left.
    pub fn vacuum(&mut self) -> (remap: NodeRemap)
        requires
            old(self).well_formed(),
            old(self).undo is None,
            old(self).topology.nodes@.len() <= VACANT_EDGE,
            old(self).topology.edges@.len() <= VACANT_EDGE,
        ensures
            final(self).well_formed(),
            if filled(old(self).topology.nodes@) && filled(old(self).topology.edges@) {
                *final(self) == *old(self) && remap.slots@.len() == 0
            } else {
                vacuumed(*old(self), *final(self), remap.slots@)
            },
    {
        if is_filled(&self.topology.nodes) && is_filled(&self.topology.edges) {
            return EdgeRemap::from_raw(Vec::new());
        }
        let ghost before = *self;
        let mut topology = Topology::new();
        std::mem::swap(&mut self.topology, &mut topology);
        let (nodes, node_table) = pack(topology.nodes);
        let (kept, edge_table) = pack(topology.edges);
        let ghost all_nodes = before.topology.nodes@;
        let ghost all_edges = before.topology.edges@;
        let remap: NodeRemap = EdgeRemap::from_raw(node_table);
        proof {
            each_slot_moves_once(all_nodes, all_nodes.len());
            each_slot_moves_once(all_edges, all_edges.len());
        }
        let edges = move_edges(kept, &remap);
        self.topology = Topology { nodes, edges, vacant: Vec::new() };
        self.node_types = move_types(&self.node_types, &remap);
        self.edge_text_indexes = Catalog::new();
        proof {
            packed_edges_come_from(all_edges, all_edges.len());
            assert forall|i: int|
                0 <= i < self.topology.edges@.len() && (#[trigger] self.topology.edges@[i])
                    is Some implies self.topology.node_lives(self.topology.edges@[i]->0.source)
                && self.topology.node_lives(self.topology.edges@[i]->0.target) by {
                let held = packed(all_edges, all_edges.len())[i];
                assert(held is Some);
                let from = choose|from: int| 0 <= from < all_edges.len() && all_edges[from] == held;
                assert(all_edges[from] is Some);
                let source = held->0.source;
                let target = held->0.target;
                assert(before.topology.node_lives(source) && before.topology.node_lives(target));
                assert(moved_to(remap.slots@, source.slot) is Some);
                assert(moved_to(remap.slots@, target.slot) is Some);
            }
            assert(self.topology.well_formed());
            assert(self.well_formed());
        }
        self.remap_embedding_slots(&remap);
        let table = EdgeRemap::from_raw(edge_table);
        remap_edge_embeddings(self, &table);
        remap
    }
}

proof fn packed_edges_come_from<A>(slots: Seq<Option<A>>, count: nat)
    requires
        count <= slots.len(),
    ensures
        forall|i: int|
            0 <= i < packed(slots, count).len() ==> exists|from: int|
                0 <= from < count && slots[from] == #[trigger] packed(slots, count)[i],
    decreases count,
{
    if count > 0 {
        packed_edges_come_from(slots, (count - 1) as nat);
        let before = packed(slots, (count - 1) as nat);
        assert forall|i: int| 0 <= i < packed(slots, count).len() implies exists|from: int|
            0 <= from < count && slots[from] == #[trigger] packed(slots, count)[i] by {
            if i < before.len() {
                let from = choose|from: int|
                    0 <= from < count - 1 && slots[from] == before[i];
                assert(slots[from] == packed(slots, count)[i]);
            } else {
                assert(slots[count - 1] == packed(slots, count)[i]);
            }
        }
    }
}

} // verus!
