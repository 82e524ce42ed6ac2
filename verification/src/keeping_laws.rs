//! What is kept when a store is written, read back or packed.

use crate::batch_laws::{a_vector_of_numbers_has_no_fault, all_numeric};
use crate::document_laws::typed_at;
use crate::edge_replace::edge_slots;
use crate::edge_store::moved_to;
use crate::edge_text_indexes::{
    delta_slots, slot_matters, text_build_fault, text_refreshed, text_seen,
};
use crate::freshness::outstanding;
use crate::graph::DirGraph;
use crate::names::column_of;
use crate::snapshot::{owner_fault, owners_fault, read_store, repeated_slot, taken, PersistedModel};
use crate::store::{
    coherent, delta_of, empty_store, rows_of, with_hash, with_vector, without_vector, StoreModel,
};
use crate::text::Text;
use crate::text_documents::{all_documents, members_upto};
use crate::text_index::TextStoreModel;
use crate::topology::{typed_edges, EdgeRecord, Topology};
use crate::vacuum::{moved_members, moved_record, packed};
use crate::value::NodeIndex;
use vstd::prelude::*;

verus! {

/// A store with an index has something outstanding once a vector is written, so
/// that the index does not answer for it as it stands; the index itself, the limit
/// and what the store declares stay.
pub proof fn a_written_vector_is_outstanding(store: StoreModel, node: usize, vector: Seq<u32>)
    requires
        coherent(store),
        store.nodes.len() < usize::MAX,
        store.index is Some,
    ensures
        ({
            let after = with_vector(store, node, vector);
            &&& after.index == store.index
            &&& after.freshness.limit == store.freshness.limit
            &&& after.metric == store.metric
            &&& after.dimension == store.dimension
            &&& delta_of(after) > 0
            &&& delta_of(after) >= delta_of(store)
            &&& delta_of(after) <= delta_of(store) + 1
        }),
{
    let after = with_vector(store, node, vector);
    if store.nodes.contains(node) {
        let place = store.nodes.index_of(node);
        assert(store.nodes[place] == node);
        if place < store.freshness.covered {
            assert(after.freshness.changed == store.freshness.changed.insert(place as usize));
            assert(after.freshness.changed.contains(place as usize));
            assert(after.freshness.changed.len() > 0) by {
                if after.freshness.changed.len() == 0 {
                    assert(after.freshness.changed =~= Set::empty());
                }
            }
        }
    }
}

/// A text hash says nothing of the vectors, and a removed vector takes the index
/// with it.
pub proof fn a_hash_changes_no_vector(store: StoreModel, node: usize, hash: Option<u64>)
    ensures
        with_hash(store, node, hash).nodes == store.nodes,
        with_hash(store, node, hash).rows == store.rows,
        with_hash(store, node, hash).index == store.index,
        with_hash(store, node, hash).freshness == store.freshness,
        hash is Some ==> with_hash(store, node, hash).hashes == store.hashes.insert(node, hash->0),
        hash is None ==> with_hash(store, node, hash).hashes == store.hashes.remove(node),
        store.nodes.contains(node) ==> without_vector(store, node).index is None,
{
}

/// A new store has no vectors, no hashes, no index and no model, and the dimension
/// and the metric that it was made with.
pub proof fn a_new_store_is_empty(dimension: usize, metric: Option<Text>)
    ensures
        ({
            let store = empty_store(dimension, metric);
            &&& store.dimension == dimension
            &&& store.metric == metric
            &&& store.nodes.len() == 0
            &&& store.rows.len() == 0
            &&& store.model_id is None
            &&& store.hashes == Map::<usize, u64>::empty()
            &&& store.index is None
            &&& store.freshness.limit == 1000
            &&& coherent(store)
        }),
{
}

/// The numbers of a store lie one vector after the other.
pub proof fn numbers_lie_row_by_row(data: Seq<u32>, dimension: nat, count: nat, i: int, j: int)
    requires
        0 <= i < count,
        0 <= j < dimension,
        data.len() == count * dimension,
    ensures
        rows_of(data, dimension, count).len() == count,
        rows_of(data, dimension, count)[i].len() == dimension,
        rows_of(data, dimension, count)[i][j] == data[i * dimension + j],
{
    crate::store::row_fits(i, count, dimension);
}

/// A store that was kept is read back with its owners, its numbers in order, what
/// it declared and its hashes; an index is not kept.
pub proof fn what_was_kept_is_read(kept: PersistedModel, i: int, j: int)
    requires
        0 <= i < kept.edge_slots.len(),
        0 <= j < kept.dimension,
        kept.data.len() == kept.edge_slots.len() * kept.dimension,
    ensures
        ({
            let store = read_store(kept);
            &&& store.dimension == kept.dimension
            &&& store.metric == kept.metric
            &&& store.model_id == kept.model_id
            &&& store.nodes == kept.edge_slots
            &&& store.hashes == kept.hashes
            &&& store.index is None
            &&& store.rows[i][j] == kept.data[i * kept.dimension + j]
        }),
{
    numbers_lie_row_by_row(kept.data, kept.dimension as nat, kept.edge_slots.len(), i, j);
}

proof fn a_repeat_is_found(slots: Seq<usize>, count: nat)
    requires
        count <= slots.len(),
    ensures
        repeated_slot(slots, count) is None <==> slots.take(count as int).no_duplicates(),
    decreases count,
{
    if count > 0 {
        let k = (count - 1) as nat;
        a_repeat_is_found(slots, k);
        let head = slots.take(count as int);
        let less = slots.take(k as int);
        assert(head =~= less.push(slots[k as int]));
        if less.no_duplicates() && !less.contains(slots[k as int]) {
            assert forall|i: int, j: int|
                0 <= i < head.len() && 0 <= j < head.len() && i != j implies head[i]
                != head[j] by {
                if i < k && j < k {
                    assert(less[i] != less[j]);
                } else if i < k {
                    assert(less.contains(less[i]));
                } else {
                    assert(less.contains(less[j]));
                }
            }
        }
        if head.no_duplicates() {
            assert forall|i: int, j: int|
                0 <= i < less.len() && 0 <= j < less.len() && i != j implies less[i]
                != less[j] by {
                assert(head[i] != head[j]);
            }
            if less.contains(slots[k as int]) {
                let i = less.index_of(slots[k as int]);
                assert(head[i] != head[k as int]);
            }
        }
    }
}

proof fn owners_are_checked(
    topology: Topology,
    connection_type: Text,
    slots: Seq<usize>,
    count: nat,
)
    requires
        count <= slots.len(),
    ensures
        owners_fault(topology, connection_type, slots, count) is None <==> forall|i: int|
            0 <= i < count ==> owner_fault(topology, connection_type, #[trigger] slots[i]) is None,
    decreases count,
{
    if count > 0 {
        owners_are_checked(topology, connection_type, slots, (count - 1) as nat);
    }
}

/// A kept store is taken exactly where the type has a name, the store's name is one
/// of a column, it has a dimension and numbers for just its owners, every number is
/// one, no owner comes twice, every hash is of an owner, and every owner is a live
/// relationship of the type between nodes that live.
pub proof fn a_kept_store_is_taken_where_it_fits(
    topology: Topology,
    connection_type: Text,
    property: Text,
    kept: PersistedModel,
)
    requires
        kept.data.len() <= usize::MAX,
    ensures
        taken(topology, connection_type, property, kept) <==> {
            &&& connection_type != Seq::<char>::empty()
            &&& column_of(property) is Some
            &&& kept.dimension > 0
            &&& kept.data.len() == kept.edge_slots.len() * kept.dimension
            &&& all_numeric(kept.data)
            &&& kept.edge_slots.no_duplicates()
            &&& forall|slot: usize| #[trigger]
                kept.hashes.contains_key(slot) ==> kept.edge_slots.contains(slot)
            &&& forall|i: int|
                0 <= i < kept.edge_slots.len() ==> {
                    let slot = #[trigger] kept.edge_slots[i];
                    &&& typed_at(topology.edges@, slot as int, connection_type)
                    &&& topology.node_lives(topology.edges@[slot as int]->0.source)
                    &&& topology.node_lives(topology.edges@[slot as int]->0.target)
                }
        },
{
    a_vector_of_numbers_has_no_fault(kept.data);
    a_repeat_is_found(kept.edge_slots, kept.edge_slots.len());
    owners_are_checked(topology, connection_type, kept.edge_slots, kept.edge_slots.len());
    assert(kept.edge_slots.take(kept.edge_slots.len() as int) =~= kept.edge_slots);
    assert(connection_type.len() == 0 <==> connection_type =~= Seq::empty());
    assert forall|slot: usize|
        owner_fault(topology, connection_type, slot) is None <==> {
            &&& #[trigger] typed_at(topology.edges@, slot as int, connection_type)
            &&& topology.node_lives(topology.edges@[slot as int]->0.source)
            &&& topology.node_lives(topology.edges@[slot as int]->0.target)
        } by {}
    if taken(topology, connection_type, property, kept) {
        assert forall|i: int| 0 <= i < kept.edge_slots.len() implies {
            let slot = #[trigger] kept.edge_slots[i];
            &&& typed_at(topology.edges@, slot as int, connection_type)
            &&& topology.node_lives(topology.edges@[slot as int]->0.source)
            &&& topology.node_lives(topology.edges@[slot as int]->0.target)
        } by {
            let slot = kept.edge_slots[i];
            assert(owner_fault(topology, connection_type, slot) is None);
            assert(typed_at(topology.edges@, slot as int, connection_type));
        }
    }
}

/// What is packed is what stands in slots, in order.
pub proof fn packing_keeps_what_stands<A>(slots: Seq<Option<A>>, count: nat)
    requires
        count <= slots.len(),
    ensures
        packed(slots, count) == slots.take(count as int).filter_map(
            |slot: Option<A>|
                if slot is Some {
                    Some(slot)
                } else {
                    None
                },
        ),
    decreases count,
{
    let head = slots.take(count as int);
    if count > 0 {
        packing_keeps_what_stands(slots, (count - 1) as nat);
        assert(head.drop_last() =~= slots.take(count - 1));
        assert(head.last() == slots[count - 1]);
    }
}

/// The members of a type keep their order when they are packed, each as the slot
/// that it moved to; those that moved nowhere are gone.
pub proof fn members_move_in_order(table: Seq<u32>, members: Seq<NodeIndex>, count: nat)
    requires
        count <= members.len(),
    ensures
        moved_members(table, members, count) == members.take(count as int).filter_map(
            |node: NodeIndex|
                match moved_to(table, node.slot) {
                    Some(to) => Some(NodeIndex { slot: to.slot }),
                    None => None,
                },
        ),
    decreases count,
{
    let head = members.take(count as int);
    if count > 0 {
        members_move_in_order(table, members, (count - 1) as nat);
        assert(head.drop_last() =~= members.take(count - 1));
        assert(head.last() == members[count - 1]);
    }
}

/// A relationship that is packed runs between the nodes that its own moved to, and
/// has its type and its properties.
pub proof fn a_packed_relationship_follows_its_nodes(table: Seq<u32>, record: EdgeRecord)
    ensures
        moved_record(table, record).data == record.data,
        moved_to(table, record.source.slot) is Some ==> moved_record(table, record).source.slot
            == moved_to(table, record.source.slot)->0.slot,
        moved_to(table, record.target.slot) is Some ==> moved_record(table, record).target.slot
            == moved_to(table, record.target.slot)->0.slot,
{
}

/// A text index can be built exactly where the type is known and one of its
/// relationships has a document, or it has no relationship at all.
pub proof fn a_text_index_is_built_where_there_is_text(
    graph: DirGraph,
    rel_type: Text,
    property: Text,
)
    requires
        graph.topology.edges@.len() <= usize::MAX,
    ensures
        text_build_fault(graph, rel_type, property) is None <==> {
            &&& crate::graph::type_registered(graph, rel_type)
            &&& typed_edges(graph.topology.edges@, rel_type).len() == 0 || exists|slot: usize|
                #[trigger] all_documents(
                    graph.topology.edges@,
                    rel_type,
                    property,
                ).contains_key(slot)
        },
{
    let edges = graph.topology.edges@;
    let docs = all_documents(edges, rel_type, property);
    crate::document_laws::documents_are_counted_upto(edges, rel_type, property, edges.len());
    assert(edges.take(edges.len() as int) =~= edges);
    if exists|slot: usize| #[trigger] docs.contains_key(slot) {
        let slot = choose|slot: usize| #[trigger] docs.contains_key(slot);
        assert(docs.dom().contains(slot));
        assert(docs.dom().len() > 0) by {
            if docs.dom().len() == 0 {
                assert(docs.dom() =~= Set::empty());
            }
        }
    } else {
        assert(docs.dom() =~= Set::empty()) by {
            assert forall|s: usize| !docs.dom().contains(s) by {
                assert(!docs.contains_key(s));
            }
        }
    }
}

/// A refresh reads what is outstanding, or every relationship of the type where at
/// least sixty-four slots that matter changed and they are at least half as many as
/// the documents.
pub proof fn a_refresh_reads_what_is_outstanding(
    store: TextStoreModel,
    edges: Seq<Option<EdgeRecord>>,
    rel_type: Text,
)
    ensures
        ({
            let changed = delta_slots(store.freshness, edges.len()).filter(
                |s: usize| slot_matters(store.docs, edges, rel_type, s),
            ).len();
            let all = changed >= 64 && changed >= store.docs.dom().len() / 2;
            let waiting = outstanding(store.freshness, edges.len());
            &&& waiting == 0 ==> text_refreshed(store, edges, rel_type) == store && text_seen(
                store,
                edges,
                rel_type,
            ) == 0
            &&& waiting > 0 && all ==> text_seen(store, edges, rel_type) == members_upto(
                edges,
                rel_type,
                edges.len(),
            )
            &&& waiting > 0 && !all ==> text_seen(store, edges, rel_type) == waiting
                && text_refreshed(store, edges, rel_type).skipped == store.skipped
            &&& text_refreshed(store, edges, rel_type).field == store.field
            &&& text_refreshed(store, edges, rel_type).freshness.limit == store.freshness.limit
        }),
{
}

/// A slot matters to a text index where a relationship of the type lives there, or
/// the index has a document for it.
pub proof fn a_slot_matters_where_there_is_or_was_text(
    docs: Map<usize, Text>,
    edges: Seq<Option<EdgeRecord>>,
    rel_type: Text,
    slot: usize,
)
    ensures
        slot_matters(docs, edges, rel_type, slot) <==> typed_at(edges, slot as int, rel_type)
            || docs.contains_key(slot),
{
}

} // verus!
