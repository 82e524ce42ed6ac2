//! Reading `r.<key>`: a relationship's own value first, then what it is.

use kglite::graph::DirGraph;
use kglite::relationship_property::{
    edge_ref_property, relationship_property, relationship_value_property, GraphEdgeRef, RelValue,
    RelationshipEnvelope,
};
use kglite::topology::{EdgeData, NodeData, Property};
use kglite::value::{EdgeIndex, NodeIndex, Value};

fn text(value: &str) -> Value {
    Value::String(value.into())
}

fn graph() -> (DirGraph, NodeIndex, NodeIndex, EdgeIndex) {
    let mut graph = DirGraph::new();
    let a = graph.add_node(NodeData::new(Value::Int64(10), Value::Null, "Doc", Vec::new()));
    let b = graph.add_node(NodeData::new(text("b"), Value::Null, "Doc", Vec::new()));
    let edge = graph.add_relationship(
        a,
        b,
        EdgeData::new(
            "CITES",
            vec![
                Property { name: "type".into(), value: text("own") },
                Property { name: "id".into(), value: Value::Null },
            ],
        ),
    );
    (graph, a, b, edge)
}

#[test]
fn a_stored_value_wins_over_the_envelope_and_null_does_not() {
    let (graph, source, target, _) = graph();
    let read = |stored: Option<Value>, key: &str| {
        relationship_property(
            &graph,
            stored,
            key,
            RelationshipEnvelope { id: 3, rel_type: "CITES", source, target },
        )
    };
    assert_eq!(read(Some(text("own")), "type"), text("own"));
    assert_eq!(read(Some(Value::Null), "type"), text("CITES"));
    assert_eq!(read(None, "connection_type"), text("CITES"));
    assert_eq!(read(None, "id"), Value::Int64(3));
    assert_eq!(read(None, "start"), Value::Int64(10));
    assert_eq!(read(None, "start_id"), Value::Int64(10));
    assert_eq!(read(None, "end"), text("b"));
    assert_eq!(read(None, "end_id"), text("b"));
    assert_eq!(read(None, "weight"), Value::Null);
}

#[test]
fn a_relationship_value_and_a_relationship_in_the_graph_read_alike() {
    let (graph, source, target, edge) = graph();
    let data = graph.topology.edge_weight(edge).unwrap();
    let met = GraphEdgeRef { id: edge, connection_type: "CITES", source, target };
    let value = RelValue {
        id: edge.index(),
        rel_type: "CITES".into(),
        start_id: source.index(),
        end_id: target.index(),
        properties: data.properties.clone(),
    };
    for (key, expected) in [
        ("type", text("own")),
        ("connection_type", text("CITES")),
        ("id", Value::Int64(edge.index() as i64)),
        ("start", Value::Int64(10)),
        ("end", text("b")),
        ("missing", Value::Null),
    ] {
        assert_eq!(edge_ref_property(&graph, &met, data, key), Some(expected.clone()), "{key}");
        assert_eq!(relationship_value_property(&graph, &value, key), expected, "{key}");
    }
}

#[test]
fn an_endpoint_that_is_gone_has_a_null_id() {
    let (graph, source, _, _) = graph();
    let gone = NodeIndex::new(99);
    let envelope = RelationshipEnvelope { id: 0, rel_type: "CITES", source, target: gone };
    assert_eq!(relationship_property(&graph, None, "end_id", envelope), Value::Null);
}
