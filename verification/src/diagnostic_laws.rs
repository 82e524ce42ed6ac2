//! What a diagnosis counts.

use crate::catalog::lookup;
use crate::diagnostics::{
    bytes_in, coverage_row, edge_row, edge_signals, edge_texts, most_bytes, node_row, node_signals,
    node_texts, total_bytes, EmbeddingCoverage,
};
use crate::graph::{members_or_none, DirGraph};
use crate::inventory::EmbeddingEntity;
use crate::names::store_name_of;
use crate::store::StoreModel;
use crate::text::Text;
use crate::topology::{property_in, EdgeRecord, Topology};
use crate::value::NodeIndex;
use vstd::prelude::*;

verus! {

/// The text of a living node in a property, where it is a text.
pub open spec fn text_at_node(topology: Topology, node: NodeIndex, column: Text) -> Option<Text> {
    if node.slot < topology.nodes@.len() && topology.nodes@[node.slot as int] is Some {
        match property_in(topology.nodes@[node.slot as int]->0.properties@, column) {
            Some(value) => if value is String {
                Some(value->String_0)
            } else {
                None
            },
            None => None,
        }
    } else {
        None
    }
}

/// The text of a live relationship of a type in a property, where it is a text.
pub open spec fn text_at_edge(
    record: Option<EdgeRecord>,
    connection_type: Text,
    column: Text,
) -> Option<Text> {
    if record is Some && record->0.data.connection_type@ == connection_type {
        match property_in(record->0.data.properties@, column) {
            Some(value) => if value is String {
                Some(value->String_0)
            } else {
                None
            },
            None => None,
        }
    } else {
        None
    }
}

/// The texts that a diagnosis counts are those of the living members, as they come:
/// every property that is a text, the empty one too.
pub proof fn every_node_text_is_counted(
    topology: Topology,
    members: Seq<NodeIndex>,
    column: Text,
    count: nat,
)
    requires
        count <= members.len(),
    ensures
        node_texts(topology, members, column, count) == members.take(count as int).filter_map(
            |node: NodeIndex| text_at_node(topology, node, column),
        ),
    decreases count,
{
    let head = members.take(count as int);
    if count > 0 {
        every_node_text_is_counted(topology, members, column, (count - 1) as nat);
        assert(head.drop_last() =~= members.take(count - 1));
        assert(head.last() == members[count - 1]);
    }
}

/// So are the texts of the live relationships of a type.
pub proof fn every_relationship_text_is_counted(
    edges: Seq<Option<EdgeRecord>>,
    connection_type: Text,
    column: Text,
    count: nat,
)
    requires
        count <= edges.len(),
    ensures
        edge_texts(edges, connection_type, column, count) == edges.take(count as int).filter_map(
            |record: Option<EdgeRecord>| text_at_edge(record, connection_type, column),
        ),
    decreases count,
{
    let head = edges.take(count as int);
    if count > 0 {
        every_relationship_text_is_counted(edges, connection_type, column, (count - 1) as nat);
        assert(head.drop_last() =~= edges.take(count - 1));
        assert(head.last() == edges[count - 1]);
    }
}

/// No text is longer than the longest, one is as long where there is one, and all
/// together are as long as each with the rest.
pub proof fn lengths_are_the_most_and_the_sum(values: Seq<Text>, more: Seq<Text>)
    ensures
        forall|i: int| 0 <= i < values.len() ==> bytes_in(#[trigger] values[i]) <= most_bytes(
            values,
        ),
        values.len() > 0 ==> exists|i: int|
            0 <= i < values.len() && bytes_in(#[trigger] values[i]) == most_bytes(values),
        values.len() == 0 ==> most_bytes(values) == 0 && total_bytes(values) == 0,
        values.len() == 1 ==> total_bytes(values) == bytes_in(values[0]),
        total_bytes(values + more) == total_bytes(values) + total_bytes(more),
    decreases values.len() + more.len(),
{
    if values.len() > 0 {
        let rest = values.drop_last();
        lengths_are_the_most_and_the_sum(rest, Seq::empty());
        assert forall|i: int| 0 <= i < values.len() implies bytes_in(#[trigger] values[i])
            <= most_bytes(values) by {
            if i < rest.len() {
                assert(rest[i] == values[i]);
            }
        }
        if bytes_in(values.last()) > most_bytes(rest) || rest.len() == 0 {
            assert(bytes_in(values[values.len() - 1]) == most_bytes(values));
        } else {
            let i = choose|i: int|
                0 <= i < rest.len() && bytes_in(#[trigger] rest[i]) == most_bytes(rest);
            assert(bytes_in(values[i]) == most_bytes(values));
        }
        if values.len() == 1 {
            assert(total_bytes(rest) == 0);
        }
    }
    if more.len() > 0 {
        lengths_are_the_most_and_the_sum(values, more.drop_last());
        assert((values + more).drop_last() =~= values + more.drop_last());
        assert((values + more).last() == more.last());
    } else {
        assert(values + more =~= values);
    }
}

/// What is said of a type and a column: it can be embedded where it has no store;
/// a store is an orphan where nothing carries the text, and else the column is
/// embedded. What is counted are the vectors, the texts, their lengths and how
/// many differ.
pub proof fn a_row_says_what_is_covered(
    entity: EmbeddingEntity,
    owner_type: Text,
    column: Text,
    values: Seq<Text>,
    carriers: nat,
    store: Option<StoreModel>,
)
    ensures
        ({
            let row = coverage_row(entity, owner_type, column, values, carriers, store);
            &&& row.entity == entity
            &&& row.owner_type == owner_type
            &&& row.text_column == column
            &&& row.embedding_key == store_name_of(column)
            &&& row.with_property == carriers
            &&& store is None ==> row.status == EmbeddingCoverage::Embeddable && row.embedded == 0
                && row.dimension is None && row.metric is None
            &&& store is Some ==> row.embedded == store->0.nodes.len() && row.dimension == Some(
                store->0.dimension,
            ) && row.metric == Some(
                if store->0.metric is Some {
                    store->0.metric->0
                } else {
                    "cosine"@
                },
            )
            &&& store is Some && carriers == 0 ==> row.status == EmbeddingCoverage::StoreOrphan
            &&& store is Some && carriers > 0 ==> row.status == EmbeddingCoverage::Embedded
            &&& row.total_length == total_bytes(values)
            &&& row.max_length == most_bytes(values)
            &&& row.distinct_count == values.to_set().len()
        }),
{
}

/// A diagnosis counts the texts of the type that it is about. An embedded column
/// that every node has of its own, and that no property is a text of, counts as
/// carried by every member.
pub proof fn a_row_is_about_its_type(graph: DirGraph, owner_type: Text, column: Text)
    ensures
        ({
            let members = members_or_none(graph.node_types@, owner_type);
            let texts = members.filter_map(
                |node: NodeIndex| text_at_node(graph.topology, node, column),
            );
            let store = lookup(graph.embeddings@, owner_type, store_name_of(column));
            let own = column == "id"@ || column == "title"@ || column == "type"@;
            node_row(graph, owner_type, column) == coverage_row(
                EmbeddingEntity::Node,
                owner_type,
                column,
                texts,
                if store is Some && texts.len() == 0 && own {
                    members.len()
                } else {
                    texts.len()
                },
                store,
            )
        }),
        ({
            let texts = graph.topology.edges@.filter_map(
                |record: Option<EdgeRecord>| text_at_edge(record, owner_type, column),
            );
            edge_row(graph, owner_type, column) == coverage_row(
                EmbeddingEntity::Relationship,
                owner_type,
                column,
                texts,
                texts.len(),
                lookup(graph.edge_embeddings@, owner_type, store_name_of(column)),
            )
        }),
{
    let members = members_or_none(graph.node_types@, owner_type);
    let edges = graph.topology.edges@;
    every_node_text_is_counted(graph.topology, members, column, members.len());
    every_relationship_text_is_counted(edges, owner_type, column, edges.len());
    assert(members.take(members.len() as int) =~= members);
    assert(edges.take(edges.len() as int) =~= edges);
}

/// A type and a column are diagnosed exactly where they are asked about and there
/// is a text or a store.
pub proof fn what_has_text_or_a_store_is_diagnosed(
    graph: DirGraph,
    only: Option<Text>,
    owner_type: Text,
    column: Text,
)
    ensures
        node_signals(graph, only).contains((owner_type, column)) <==> {
            &&& only is None || only == Some(owner_type)
            &&& lookup(graph.embeddings@, owner_type, store_name_of(column)) is Some
                || members_or_none(graph.node_types@, owner_type).filter_map(
                |node: NodeIndex| text_at_node(graph.topology, node, column),
            ).len() > 0
        },
        edge_signals(graph, only).contains((owner_type, column)) <==> {
            &&& only is None || only == Some(owner_type)
            &&& lookup(graph.edge_embeddings@, owner_type, store_name_of(column)) is Some
                || graph.topology.edges@.filter_map(
                |record: Option<EdgeRecord>| text_at_edge(record, owner_type, column),
            ).len() > 0
        },
{
    let members = members_or_none(graph.node_types@, owner_type);
    let edges = graph.topology.edges@;
    every_node_text_is_counted(graph.topology, members, column, members.len());
    every_relationship_text_is_counted(edges, owner_type, column, edges.len());
    assert(members.take(members.len() as int) =~= members);
    assert(edges.take(edges.len() as int) =~= edges);
}

} // verus!
