//! What is read of a relationship store can be written back.

use crate::address::{an_address_finds_its_relationship, row_resolved, RowModel};
use crate::carry_laws::addressable;
use crate::edge_read::{
    live_owners, read_fault, row_order, row_order_is_total, store_rows, ReadModel,
};
use crate::graph::{group_of, DirGraph};
use crate::groups::keys_fault;
use crate::ingest::{row_prefix, rows_resolved};
use crate::store::{coherent, StoreModel};
use crate::text::{str_option, Text};
use crate::topology::Topology;
use crate::value::EdgeIndex;
use vstd::prelude::*;

verus! {

/// A row that was read, as a row to write.
pub open spec fn row_again(row: ReadModel) -> RowModel {
    RowModel {
        source_type: Some(row.place.source_type),
        source_id: row.place.source_id,
        target_type: Some(row.place.target_type),
        target_id: row.place.target_id,
        key: row.place.key,
        vector: row.vector,
    }
}

/// Rows that were read, as rows to write.
pub open spec fn rows_again(rows: Seq<ReadModel>) -> Seq<RowModel> {
    Seq::new(rows.len(), |i: int| row_again(rows[i]))
}

/// The relationships of a store, in the order its rows are read.
pub open spec fn read_order(topology: Topology, property: Option<Text>, store: StoreModel) -> Seq<
    EdgeIndex,
> {
    let order = live_owners(topology, store.nodes, store.nodes.len()).sort_by(
        row_order(topology, property),
    );
    Seq::new(order.len(), |i: int| EdgeIndex { slot: order[i] })
}

pub(crate) proof fn all_owners_live(topology: Topology, nodes: Seq<usize>, count: nat)
    requires
        count <= nodes.len(),
        forall|i: int|
            0 <= i < nodes.len() ==> topology.live(EdgeIndex { slot: #[trigger] nodes[i] }),
    ensures
        live_owners(topology, nodes, count) == nodes.take(count as int),
    decreases count,
{
    if count > 0 {
        all_owners_live(topology, nodes, (count - 1) as nat);
        assert(nodes.take(count as int) =~= nodes.take(count - 1).push(nodes[count - 1]));
        assert(topology.live(EdgeIndex { slot: nodes[count - 1] }));
    }
}

pub(crate) proof fn no_read_fault_at(
    topology: Topology,
    relationship_type: Text,
    text_column: Text,
    property: Option<Text>,
    nodes: Seq<usize>,
    from: int,
    at: int,
)
    requires
        property is Some,
        0 <= from <= at < nodes.len(),
        read_fault(topology, relationship_type, text_column, property, nodes, from) is None,
        topology.live_of_type(EdgeIndex { slot: nodes[at] }, relationship_type),
    ensures
        ({
            let members = group_of(topology, EdgeIndex { slot: nodes[at] });
            members.len() <= 1 || keys_fault(topology, members, property->0, 0) is None
        }),
    decreases at - from,
{
    if from < at {
        no_read_fault_at(
            topology,
            relationship_type,
            text_column,
            property,
            nodes,
            from + 1,
            at,
        );
    }
}

pub(crate) proof fn read_rows_resolve(
    graph: DirGraph,
    relationship_type: Text,
    property: Option<Text>,
    edges: Seq<EdgeIndex>,
    rows: Seq<RowModel>,
    count: nat,
)
    requires
        graph.topology.edges@.len() <= usize::MAX,
        edges.no_duplicates(),
        rows.len() == edges.len(),
        count <= rows.len(),
        forall|i: int|
            0 <= i < edges.len() ==> row_resolved(
                graph,
                relationship_type,
                property,
                #[trigger] rows[i],
                row_prefix(i as nat),
            ) == Ok::<EdgeIndex, Text>(edges[i]),
    ensures
        rows_resolved(graph, relationship_type, property, rows, count) == Ok::<
            Seq<EdgeIndex>,
            Text,
        >(edges.take(count as int)),
    decreases count,
{
    if count > 0 {
        read_rows_resolve(graph, relationship_type, property, edges, rows, (count - 1) as nat);
        let earlier = edges.take(count - 1);
        let last = edges[count - 1];
        assert(row_resolved(
            graph,
            relationship_type,
            property,
            rows[count - 1],
            row_prefix((count - 1) as nat),
        ) == Ok::<EdgeIndex, Text>(last));
        if earlier.contains(last) {
            let k = earlier.index_of(last);
            assert(earlier[k] == last);
            assert(edges[k] == last);
        }
        assert(edges.take(count as int) =~= earlier.push(last));
    } else {
        assert(edges.take(0) =~= Seq::empty());
    }
}

/// What is read of a store names the store's relationships: written back, row by
/// row, it resolves to each relationship that was read, in the order that it was
/// read. A parallel group is told apart by a key property, so one has to be
/// named where a relationship of the store has parallels; and a relationship is
/// found by its endpoints' ids, so those have to name its endpoints.
pub proof fn what_is_read_can_be_written(
    graph: DirGraph,
    relationship_type: Text,
    text_column: Text,
    property: Option<&str>,
    store: StoreModel,
)
    requires
        graph.topology.edges@.len() <= usize::MAX,
        coherent(store),
        addressable(graph, relationship_type, store.nodes),
        read_fault(
            graph.topology,
            relationship_type,
            text_column,
            str_option(property),
            store.nodes,
            0,
        ) is None,
        property is None ==> forall|i: int|
            0 <= i < store.nodes.len() ==> group_of(
                graph.topology,
                EdgeIndex { slot: #[trigger] store.nodes[i] },
            ).len() <= 1,
    ensures
        rows_resolved(
            graph,
            relationship_type,
            str_option(property),
            rows_again(store_rows(graph.topology, str_option(property), store)),
            store.nodes.len(),
        ) == Ok::<Seq<EdgeIndex>, Text>(
            read_order(graph.topology, str_option(property), store),
        ),
        read_order(graph.topology, str_option(property), store).len() == store.nodes.len(),
{
    let key = str_option(property);
    let topology = graph.topology;
    let nodes = store.nodes;
    assert forall|i: int| 0 <= i < nodes.len() implies topology.live(
        EdgeIndex { slot: #[trigger] nodes[i] },
    ) by {
        assert(topology.live_of_type(EdgeIndex { slot: nodes[i] }, relationship_type));
    }
    all_owners_live(topology, nodes, nodes.len());
    assert(nodes.take(nodes.len() as int) =~= nodes);
    let order = nodes.sort_by(row_order(topology, key));
    let edges = read_order(topology, key, store);
    let rows = rows_again(store_rows(topology, key, store));
    row_order_is_total(graph, property);
    nodes.lemma_sort_by_ensures(row_order(topology, key));
    broadcast use vstd::seq_lib::group_to_multiset_ensures;

    assert(order.len() == nodes.len()) by {
        assert(order.to_multiset().len() == nodes.to_multiset().len());
    }
    nodes.lemma_multiset_has_no_duplicates();
    order.lemma_multiset_has_no_duplicates_conv();
    assert forall|i: int, j: int|
        0 <= i < edges.len() && 0 <= j < edges.len() && i != j implies edges[i] != edges[j] by {
        assert(order[i] != order[j]);
    }
    assert forall|i: int| 0 <= i < edges.len() implies row_resolved(
        graph,
        relationship_type,
        key,
        #[trigger] rows[i],
        row_prefix(i as nat),
    ) == Ok::<EdgeIndex, Text>(edges[i]) by {
        let edge = edges[i];
        assert(order.to_multiset().count(order[i]) > 0);
        assert(nodes.to_multiset().count(order[i]) > 0);
        assert(nodes.contains(order[i]));
        let at = nodes.index_of(order[i]);
        assert(nodes[at] == order[i]);
        assert(edge == EdgeIndex { slot: nodes[at] });
        assert(topology.live_of_type(edge, relationship_type));
        if property is Some {
            no_read_fault_at(topology, relationship_type, text_column, key, nodes, 0, at);
        }
        an_address_finds_its_relationship(
            graph,
            relationship_type,
            key,
            edge,
            row_prefix(i as nat),
        );
    }
    read_rows_resolve(graph, relationship_type, key, edges, rows, rows.len());
    assert(edges.take(edges.len() as int) =~= edges);
}

} // verus!
