//! What closing the slots that were left keeps.

use crate::catalog::{entry_place, lookup, place_is_first, EntryModel};
use crate::coordinate::all_finite;
use crate::edge_delete::stores_remapped;
use crate::edge_store::{
    a_remap_keeps_what_moved, moved_to, moves_apart, remapped, remapped_upto,
};
use crate::graph::DirGraph;
use crate::node_carry::node_store_remapped;
use crate::ownership_laws::{a_write_keeps_owned, owned, stores_owned};
use crate::store::{coherent, hash_of, holds, place_of, vector_of, StoreModel};
use crate::text::Text;
use crate::topology::Topology;
use crate::undo_laws::kept_store_is_coherent;
use crate::vacuum::{each_slot_moves_once, moved_record, moves, packed, vacuumed};
use crate::value::EdgeIndex;
use vstd::prelude::*;

verus! {

proof fn slots_move_apart<A>(slots: Seq<Option<A>>, store: StoreModel)
    requires
        slots.len() <= u32::MAX,
        coherent(store),
    ensures
        moves_apart(store, moves(slots, slots.len())),
{
    let table = moves(slots, slots.len());
    each_slot_moves_once(slots, slots.len());
    assert forall|i: int, j: int|
        0 <= i < j < store.nodes.len() && moved_to(table, #[trigger] store.nodes[i]) is Some
            && moved_to(table, #[trigger] store.nodes[j]) is Some implies moved_to(
        table,
        store.nodes[i],
    ) != moved_to(table, store.nodes[j]) by {
        let a = store.nodes[i];
        let b = store.nodes[j];
        assert(a != b);
        if a < b {
            assert(moved_to(table, a)->0.slot < moved_to(table, b)->0.slot);
        } else {
            assert(moved_to(table, b)->0.slot < moved_to(table, a)->0.slot);
        }
    }
}

proof fn lookup_remapped(entries: Seq<EntryModel<StoreModel>>, slots: Seq<u32>, t: Text, n: Text)
    ensures
        lookup(stores_remapped(entries, slots), t, n) == match lookup(entries, t, n) {
            Some(store) => Some(remapped(store, slots)),
            None => None,
        },
{
    let after = stores_remapped(entries, slots);
    place_is_first(entries, t, n);
    place_is_first(after, t, n);
    let a = entry_place(entries, t, n);
    let b = entry_place(after, t, n);
    if a < entries.len() {
        assert(after[a].owner_type == t && after[a].name == n);
    }
    if b < after.len() {
        assert(entries[b].owner_type == t && entries[b].name == n);
    }
    if a < b {
        assert(!(after[a].owner_type == t && after[a].name == n));
    }
    if b < a {
        assert(!(entries[b].owner_type == t && entries[b].name == n));
    }
}

/// A vacuum moves each relationship's vector, with its hash, to the slot that the
/// relationship moves to.
pub proof fn a_vacuum_moves_vectors_with_their_relationships(
    before: DirGraph,
    after: DirGraph,
    table: Seq<u32>,
    connection_type: Text,
    name: Text,
    edge: EdgeIndex,
)
    requires
        before.well_formed(),
        before.topology.edges@.len() <= u32::MAX,
        vacuumed(before, after, table),
        lookup(before.edge_embeddings@, connection_type, name) is Some,
        before.topology.live(edge),
    ensures
        ({
            let edges = before.topology.edges@;
            let to = moved_to(moves(edges, edges.len()), edge.slot);
            let store = lookup(before.edge_embeddings@, connection_type, name)->0;
            let left = lookup(after.edge_embeddings@, connection_type, name);
            &&& to is Some && left is Some
            &&& after.topology.live(to->0)
            &&& after.topology.record(to->0).data == before.topology.record(edge).data
            &&& holds(store, edge.slot) ==> vector_of(left->0, to->0.slot) == vector_of(
                store,
                edge.slot,
            ) && hash_of(left->0, to->0.slot) == hash_of(store, edge.slot)
        }),
{
    let edges = before.topology.edges@;
    let slots = moves(edges, edges.len());
    let store = lookup(before.edge_embeddings@, connection_type, name)->0;
    kept_store_is_coherent(before, connection_type, name);
    each_slot_moves_once(edges, edges.len());
    lookup_remapped(before.edge_embeddings@, slots, connection_type, name);
    slots_move_apart(edges, store);
    a_remap_keeps_what_moved(store, slots);
    let to = moved_to(slots, edge.slot);
    assert(to is Some);
    let kept = packed(edges, edges.len());
    assert(kept[to->0.slot as int] == edges[edge.slot as int]);
    if holds(store, edge.slot) {
        let i = place_of(store, edge.slot);
        assert(store.nodes[i] == edge.slot);
    }
}

/// A vacuum moves each node's vector, with its hash, to the slot that the node
/// moves to.
pub proof fn a_vacuum_moves_vectors_with_their_nodes(
    before: DirGraph,
    after: DirGraph,
    table: Seq<u32>,
    at: int,
    slot: usize,
)
    requires
        before.well_formed(),
        before.topology.nodes@.len() <= u32::MAX,
        vacuumed(before, after, table),
        0 <= at < before.embeddings@.len(),
        slot < before.topology.nodes@.len(),
        before.topology.nodes@[slot as int] is Some,
    ensures
        ({
            let to = moved_to(table, slot);
            let store = before.embeddings@[at].store;
            let left = after.embeddings@[at].store;
            &&& to is Some
            &&& after.topology.nodes@[to->0.slot as int] == before.topology.nodes@[slot as int]
            &&& holds(store, slot) ==> vector_of(left, to->0.slot) == vector_of(store, slot)
                && hash_of(left, to->0.slot) == hash_of(store, slot)
        }),
{
    let nodes = before.topology.nodes@;
    let store = before.embeddings@[at].store;
    before.embeddings.entries@[at].store.is_coherent();
    each_slot_moves_once(nodes, nodes.len());
    slots_move_apart(nodes, store);
    a_remap_keeps_what_moved(store, table);
    let to = moved_to(table, slot);
    assert(to is Some);
    let left = after.embeddings@[at].store;
    assert(left == node_store_remapped(store, table));
    if holds(store, slot) {
        let i = place_of(store, slot);
        assert(store.nodes[i] == slot);
        assert(vector_of(remapped(store, table), to->0.slot) == Some(store.rows[i]));
        assert(vector_of(left, to->0.slot) == vector_of(remapped(store, table), to->0.slot));
    }
}

proof fn a_remap_keeps_owned(
    before: Topology,
    after: Topology,
    connection_type: Text,
    store: StoreModel,
    slots: Seq<u32>,
    count: nat,
)
    requires
        owned(before, connection_type, store),
        count <= store.nodes.len(),
        forall|from: usize|
            before.live_of_type(EdgeIndex { slot: from }, connection_type) && (#[trigger] moved_to(
                slots,
                from,
            )) is Some ==> after.live_of_type(moved_to(slots, from)->0, connection_type),
    ensures
        owned(after, connection_type, remapped_upto(store, slots, count)),
    decreases count,
{
    if count > 0 {
        a_remap_keeps_owned(before, after, connection_type, store, slots, (count - 1) as nat);
        let owner = store.nodes[count - 1];
        assert(before.live_of_type(EdgeIndex { slot: owner }, connection_type));
        if let Some(edge) = moved_to(slots, owner) {
            assert(all_finite(store.rows[count - 1]));
            a_write_keeps_owned(
                after,
                connection_type,
                remapped_upto(store, slots, (count - 1) as nat),
                edge.slot,
                store.rows[count - 1],
                hash_of(store, owner),
            );
        }
    }
}

/// A vacuum keeps every vector with a live relationship of its store's type.
pub proof fn a_vacuum_keeps_stores_owned(before: DirGraph, after: DirGraph, table: Seq<u32>)
    requires
        before.topology.edges@.len() <= u32::MAX,
        stores_owned(before),
        vacuumed(before, after, table),
    ensures
        stores_owned(after),
{
    let edges = before.topology.edges@;
    let slots = moves(edges, edges.len());
    each_slot_moves_once(edges, edges.len());
    assert forall|t: Text, n: Text| #[trigger]
        lookup(after.edge_embeddings@, t, n) is Some implies owned(
        after.topology,
        t,
        lookup(after.edge_embeddings@, t, n)->0,
    ) by {
        lookup_remapped(before.edge_embeddings@, slots, t, n);
        let store = lookup(before.edge_embeddings@, t, n)->0;
        assert(owned(before.topology, t, store));
        assert forall|from: usize|
            before.topology.live_of_type(EdgeIndex { slot: from }, t) && (#[trigger] moved_to(
                slots,
                from,
            )) is Some implies after.topology.live_of_type(moved_to(slots, from)->0, t) by {
            let to = moved_to(slots, from)->0;
            let kept = packed(edges, edges.len());
            assert(kept[to.slot as int] == edges[from as int]);
            assert(after.topology.edges@[to.slot as int] == Some(
                moved_record(table, kept[to.slot as int]->0),
            ));
        }
        a_remap_keeps_owned(
            before.topology,
            after.topology,
            t,
            store,
            slots,
            store.nodes.len(),
        );
    }
}

} // verus!
