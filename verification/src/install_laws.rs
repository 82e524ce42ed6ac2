//! Which generated vectors are written, and what is counted of them.

use crate::batch_laws::{
    a_vector_of_numbers_has_no_fault, all_numeric, holds_numbers, vectors_are_the_same_as_numbers,
};
use crate::document_laws::typed_at;
use crate::edge_generated::{
    cells_changed, generated_edges, generated_fault, install_fault, members_fault, owners_covered,
    removals_fault, vector_differs, vectors_differing, vectors_held, write_sound, WriteModel,
};
use crate::edge_replace::{edge_slots, listed_fault};
use crate::edge_store::new_owners;
use crate::metric::metric_named;
use crate::plan_laws::{owned, same_numbers};
use crate::store::{coherent, vector_of, StoreModel};
use crate::text::Text;
use crate::topology::Topology;
use crate::value::EdgeIndex;
use vstd::prelude::*;

verus! {

/// Relationships are listed once, and each is a live one of the type.
pub open spec fn lists_of_type(
    topology: Topology,
    connection_type: Text,
    edges: Seq<EdgeIndex>,
) -> bool {
    &&& forall|i: int|
        0 <= i < edges.len() ==> typed_at(
            topology.edges@,
            (#[trigger] edges[i]).slot as int,
            connection_type,
        )
    &&& edges.no_duplicates()
}

proof fn a_fit_list_has_no_fault(
    topology: Topology,
    connection_type: Text,
    edges: Seq<EdgeIndex>,
    place: Text,
    position: int,
)
    requires
        0 <= position <= edges.len(),
        lists_of_type(topology, connection_type, edges),
    ensures
        listed_fault(topology, connection_type, edges, place, position) is None,
    decreases edges.len() - position,
{
    if position < edges.len() {
        a_fit_list_has_no_fault(topology, connection_type, edges, place, position + 1);
        assert(typed_at(topology.edges@, edges[position].slot as int, connection_type));
        if edge_slots(edges, position).contains(edges[position].slot) {
            let i = choose|i: int|
                0 <= i < position && (#[trigger] edges[i]).slot == edges[position].slot;
            assert(edges[i] == edges[position]);
        }
    }
}

/// A list of relationships is taken exactly where each is a live one of the type
/// and none comes twice.
pub proof fn a_list_is_taken_where_it_fits(
    topology: Topology,
    connection_type: Text,
    edges: Seq<EdgeIndex>,
    place: Text,
)
    ensures
        listed_fault(topology, connection_type, edges, place, 0) is None <==> lists_of_type(
            topology,
            connection_type,
            edges,
        ),
{
    if lists_of_type(topology, connection_type, edges) {
        a_fit_list_has_no_fault(topology, connection_type, edges, place, 0);
    }
    if listed_fault(topology, connection_type, edges, place, 0) is None {
        crate::edge_replace::faultless_list_is_sound(topology, connection_type, edges, place);
        assert forall|i: int| 0 <= i < edges.len() implies typed_at(
            topology.edges@,
            (#[trigger] edges[i]).slot as int,
            connection_type,
        ) by {
            assert(topology.live_of_type(edges[i], connection_type));
        }
    }
}

/// Every action of a write is on a relationship of the pass and no two are on the
/// same one, and every vector is of numbers and of the dimension.
pub open spec fn actions_apart(write: WriteModel) -> bool {
    &&& forall|i: int|
        0 <= i < write.generated.len() ==> write.affected.contains((#[trigger] write.generated[i]).0)
            && write.generated[i].1.len() == write.dimension && all_numeric(write.generated[i].1)
    &&& forall|i: int|
        0 <= i < write.removed.len() ==> write.affected.contains(#[trigger] write.removed[i])
    &&& forall|i: int, j: int|
        0 <= i < j < write.generated.len() ==> (#[trigger] write.generated[i]).0 != (
        #[trigger] write.generated[j]).0
    &&& forall|i: int, j: int|
        0 <= i < j < write.removed.len() ==> #[trigger] write.removed[i]
            != #[trigger] write.removed[j]
    &&& forall|i: int, j: int|
        0 <= i < write.generated.len() && 0 <= j < write.removed.len() ==> (
        #[trigger] write.generated[i]).0 != #[trigger] write.removed[j]
}

proof fn a_slot_is_listed(edges: Seq<EdgeIndex>, edge: EdgeIndex)
    requires
        edges.contains(edge),
    ensures
        edge_slots(edges, edges.len() as int).contains(edge.slot),
{
    let i = edges.index_of(edge);
    assert(edges[i].slot == edge.slot);
}

proof fn fit_members_have_no_fault(write: WriteModel, position: int)
    requires
        0 <= position <= write.generated.len(),
        actions_apart(write),
    ensures
        members_fault(write, position) is None,
    decreases write.generated.len() - position,
{
    if position < write.generated.len() {
        fit_members_have_no_fault(write, position + 1);
        let made = write.generated[position];
        let edges = generated_edges(write.generated);
        a_slot_is_listed(write.affected, made.0);
        a_vector_of_numbers_has_no_fault(made.1);
        if edge_slots(edges, position).contains(made.0.slot) {
            let i = choose|i: int| 0 <= i < position && (#[trigger] edges[i]).slot == made.0.slot;
            assert(write.generated[i].0 == write.generated[position].0);
        }
    }
}

proof fn fit_removals_have_no_fault(write: WriteModel, position: int)
    requires
        0 <= position <= write.removed.len(),
        actions_apart(write),
    ensures
        removals_fault(write, position) is None,
    decreases write.removed.len() - position,
{
    if position < write.removed.len() {
        fit_removals_have_no_fault(write, position + 1);
        let edge = write.removed[position];
        let edges = generated_edges(write.generated);
        a_slot_is_listed(write.affected, edge);
        if edge_slots(edges, edges.len() as int).contains(edge.slot) {
            let i = choose|i: int| 0 <= i < edges.len() && (#[trigger] edges[i]).slot == edge.slot;
            assert(write.generated[i].0 == write.removed[position]);
        }
        if edge_slots(write.removed, position).contains(edge.slot) {
            let i = choose|i: int|
                0 <= i < position && (#[trigger] write.removed[i]).slot == edge.slot;
            assert(write.removed[i] == write.removed[position]);
        }
    }
}

/// Vectors that a model made are written exactly where there is a dimension, the
/// metric is one of the four, the pass lists live relationships of the type, its
/// actions fit, and a store of another dimension is rebuilt whole: the pass reaches
/// every vector that is there, and acts on every relationship of its list.
pub proof fn generated_vectors_are_written_where_they_fit(
    topology: Topology,
    connection_type: Text,
    existing: Option<StoreModel>,
    write: WriteModel,
)
    ensures
        install_fault(topology, connection_type, existing, write) is None <==> {
            &&& write.dimension > 0
            &&& write.metric is None || metric_named(write.metric->0) is Some
            &&& lists_of_type(topology, connection_type, write.affected)
            &&& actions_apart(write)
            &&& existing is None || existing->0.dimension == write.dimension || {
                &&& forall|i: int|
                    0 <= i < existing->0.nodes.len() ==> write.affected.contains(
                        EdgeIndex { slot: #[trigger] existing->0.nodes[i] },
                    )
                &&& write.generated.len() + write.removed.len() == write.affected.len()
            }
        },
{
    a_list_is_taken_where_it_fits(
        topology,
        connection_type,
        write.affected,
        "the affected batch"@,
    );
    if actions_apart(write) {
        fit_members_have_no_fault(write, 0);
        fit_removals_have_no_fault(write, 0);
    }
    if generated_fault(topology, connection_type, write) is None {
        crate::edge_generated::faultless_write_is_sound(topology, connection_type, write);
        assert(write_sound(topology, connection_type, write));
        let both = generated_edges(write.generated) + write.removed;
        let n = write.generated.len() as int;
        assert forall|i: int| 0 <= i < n implies write.affected.contains(
            (#[trigger] write.generated[i]).0,
        ) && write.generated[i].1.len() == write.dimension && all_numeric(
            write.generated[i].1,
        ) by {
            a_vector_of_numbers_has_no_fault(write.generated[i].1);
        }
        assert forall|i: int, j: int| 0 <= i < j < n implies (#[trigger] write.generated[i]).0 != (
        #[trigger] write.generated[j]).0 by {
            assert(both[i] != both[j]);
        }
        assert forall|i: int, j: int| 0 <= i < j < write.removed.len() implies
            #[trigger] write.removed[i] != #[trigger] write.removed[j] by {
            assert(both[n + i] != both[n + j]);
        }
        assert forall|i: int, j: int| 0 <= i < n && 0 <= j < write.removed.len() implies (
        #[trigger] write.generated[i]).0 != #[trigger] write.removed[j] by {
            assert(both[i] != both[n + j]);
        }
        assert(actions_apart(write));
    }
    if existing is Some {
        let store = existing->0;
        assert(owners_covered(store, write.affected) <==> forall|i: int|
            0 <= i < store.nodes.len() ==> write.affected.contains(
                EdgeIndex { slot: #[trigger] store.nodes[i] },
            )) by {
            if owners_covered(store, write.affected) {
                assert forall|i: int| 0 <= i < store.nodes.len() implies write.affected.contains(
                    EdgeIndex { slot: #[trigger] store.nodes[i] },
                ) by {
                    let slot = store.nodes[i];
                    let k = choose|k: int|
                        0 <= k < write.affected.len() && (#[trigger] write.affected[k]).slot
                            == slot;
                    assert(write.affected[k] == EdgeIndex { slot });
                }
            }
            if forall|i: int|
                0 <= i < store.nodes.len() ==> write.affected.contains(
                    EdgeIndex { slot: #[trigger] store.nodes[i] },
                ) {
                assert forall|i: int| 0 <= i < store.nodes.len() implies edge_slots(
                    write.affected,
                    write.affected.len() as int,
                ).contains(#[trigger] store.nodes[i]) by {
                    a_slot_is_listed(write.affected, EdgeIndex { slot: store.nodes[i] });
                }
            }
        }
    }
}

/// A generated vector is new: its relationship has no vector of the same numbers, or
/// not one that was made from the same text.
pub open spec fn made_anew(existing: Option<StoreModel>, made: (EdgeIndex, Seq<u32>, u64)) -> bool {
    !(owned(existing, made.0.slot) && same_numbers(
        vector_of(existing->0, made.0.slot)->0,
        made.1,
    ) && existing->0.hashes.contains_key(made.0.slot) && existing->0.hashes[made.0.slot] == made.2)
}

proof fn new_vectors_are_counted(
    existing: Option<StoreModel>,
    generated: Seq<(EdgeIndex, Seq<u32>, u64)>,
    count: nat,
)
    requires
        count <= generated.len(),
        existing is Some ==> coherent(existing->0) && holds_numbers(existing->0),
        forall|i: int| 0 <= i < generated.len() ==> all_numeric((#[trigger] generated[i]).1),
    ensures
        vectors_differing(existing, generated, count) == generated.take(count as int).filter_map(
            |made: (EdgeIndex, Seq<u32>, u64)|
                if made_anew(existing, made) {
                    Some(made.0)
                } else {
                    None
                },
        ).len(),
    decreases count,
{
    let head = generated.take(count as int);
    if count > 0 {
        let k = count - 1;
        new_vectors_are_counted(existing, generated, k as nat);
        assert(head.drop_last() =~= generated.take(k));
        assert(head.last() == generated[k]);
        let made = generated[k];
        if owned(existing, made.0.slot) {
            let p = existing->0.nodes.index_of(made.0.slot);
            assert(all_numeric(existing->0.rows[p]));
            vectors_are_the_same_as_numbers(existing->0.rows[p], made.1);
        }
        assert(vector_differs(existing, made.0, made.1, made.2) <==> made_anew(existing, made));
    }
}

proof fn held_vectors_are_counted(existing: Option<StoreModel>, edges: Seq<EdgeIndex>, count: nat)
    requires
        count <= edges.len(),
    ensures
        vectors_held(existing, edges, count) == edges.take(count as int).filter_map(
            |edge: EdgeIndex|
                if owned(existing, edge.slot) {
                    Some(edge)
                } else {
                    None
                },
        ).len(),
    decreases count,
{
    let head = edges.take(count as int);
    if count > 0 {
        held_vectors_are_counted(existing, edges, (count - 1) as nat);
        assert(head.drop_last() =~= edges.take(count - 1));
        assert(head.last() == edges[count - 1]);
    }
}

/// What counts as changed by a write: the vectors that are new, and those taken away
/// that were there.
pub proof fn only_what_is_new_counts_as_changed(existing: Option<StoreModel>, write: WriteModel)
    requires
        existing is Some ==> coherent(existing->0) && holds_numbers(existing->0),
        forall|i: int|
            0 <= i < write.generated.len() ==> all_numeric((#[trigger] write.generated[i]).1),
    ensures
        cells_changed(existing, write) == write.generated.filter_map(
            |made: (EdgeIndex, Seq<u32>, u64)|
                if made_anew(existing, made) {
                    Some(made.0)
                } else {
                    None
                },
        ).len() + write.removed.filter_map(
            |edge: EdgeIndex|
                if owned(existing, edge.slot) {
                    Some(edge)
                } else {
                    None
                },
        ).len(),
{
    new_vectors_are_counted(existing, write.generated, write.generated.len());
    held_vectors_are_counted(existing, write.removed, write.removed.len());
    assert(write.generated.take(write.generated.len() as int) =~= write.generated);
    assert(write.removed.take(write.removed.len() as int) =~= write.removed);
}

/// The owners of a store that is packed are those that moved, in order, each as the
/// slot that it moved to.
pub proof fn owners_move_in_order(nodes: Seq<usize>, slots: Seq<u32>, count: nat)
    requires
        count <= nodes.len(),
    ensures
        new_owners(nodes, slots, count) == nodes.take(count as int).filter_map(
            |owner: usize|
                if owner < slots.len() && slots[owner as int] != u32::MAX {
                    Some(slots[owner as int] as usize)
                } else {
                    None
                },
        ),
    decreases count,
{
    let head = nodes.take(count as int);
    if count > 0 {
        owners_move_in_order(nodes, slots, (count - 1) as nat);
        assert(head.drop_last() =~= nodes.take(count - 1));
        assert(head.last() == nodes[count - 1]);
    }
}

} // verus!
