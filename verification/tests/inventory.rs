//! Inventory over node and relationship stores, including a node type and a
//! relationship type that share a name.

use kglite::coordinate::validate_finite_vector;
use kglite::diagnostics::{embedding_diagnostics, EmbeddingCoverage, EmbeddingDiagnostic};
use kglite::edge_writes::upsert_edge_embeddings;
use kglite::graph::DirGraph;
use kglite::inventory::{
    embedding_info, list_edge_embeddings, EdgeEmbeddingStoreInfo, EmbeddingEntity,
};
use kglite::node_ingest::set_embeddings;
use kglite::node_inventory::list_embeddings;
use kglite::topology::{EdgeData, NodeData, Property};
use kglite::value::{EdgeIndex, NodeIndex, Value};

fn bits(numbers: &[f32]) -> Vec<u32> {
    numbers.iter().map(|n| n.to_bits()).collect()
}

fn text(value: &str) -> Value {
    Value::String(value.to_string())
}

fn prop(name: &str, value: Value) -> Property {
    Property { name: name.to_string(), value }
}

fn add_node(graph: &mut DirGraph, id: i64, node_type: &str, body: Option<&str>) -> NodeIndex {
    let properties = match body {
        Some(b) => vec![prop("body", text(b))],
        None => Vec::new(),
    };
    graph.add_node(NodeData::new(
        Value::Int64(id),
        text(&format!("n{id}")),
        node_type,
        properties,
    ))
}

/// Node type `SUPPORTS` (two nodes, `body` store of dimension 3) and
/// relationship type `SUPPORTS` (one relationship with `body` and `note`, `body`
/// store of dimension 2, dot product), plus an unembedded `LINKS` relationship.
fn same_name_graph() -> DirGraph {
    let mut graph = DirGraph::new();
    let a = add_node(&mut graph, 1, "SUPPORTS", Some("node text one"));
    let b = add_node(&mut graph, 2, "SUPPORTS", Some("node text two"));
    let c = add_node(&mut graph, 3, "Doc", None);
    for conn in ["SUPPORTS", "LINKS"] {
        graph.register_connection_type(conn);
    }
    let supports = graph.add_relationship(
        a,
        b,
        EdgeData::new(
            "SUPPORTS",
            vec![prop("body", text("edge text")), prop("note", text("aside"))],
        ),
    );
    graph.add_relationship(
        b,
        c,
        EdgeData::new("LINKS", vec![prop("caption", text("a caption"))]),
    );
    set_embeddings(
        &mut graph,
        "SUPPORTS",
        "body",
        None,
        &vec![
            (Value::Int64(1), bits(&[1.0, 0.0, 0.0])),
            (Value::Int64(2), bits(&[0.0, 1.0, 0.0])),
        ],
    )
    .unwrap();
    upsert_edge_embeddings(
        &mut graph,
        "SUPPORTS",
        "body",
        &vec![(supports, bits(&[0.6, 0.8]))],
        Some("dot_product"),
    )
    .unwrap();
    graph
}

#[test]
fn relationship_listing_is_separate_from_the_node_listing() {
    let graph = same_name_graph();
    let nodes = list_embeddings(&graph);
    assert_eq!(nodes.len(), 1);
    assert_eq!(nodes[0].dimension, 3);

    let edges = list_edge_embeddings(&graph);
    assert_eq!(
        edges,
        vec![EdgeEmbeddingStoreInfo {
            relationship_type: "SUPPORTS".into(),
            text_column: "body".into(),
            store_name: "body_emb".into(),
            dimension: 2,
            count: 1,
            metric: "dot_product".into(),
        }]
    );
}

#[test]
fn info_resolves_the_requested_entity_on_a_same_name_pair() {
    let graph = same_name_graph();
    let node = embedding_info(&graph, EmbeddingEntity::Node, "SUPPORTS", "body").unwrap();
    assert_eq!(
        (node.entity, node.dimension, node.count),
        (EmbeddingEntity::Node, 3, 2)
    );
    assert_eq!(node.metric, "cosine");

    let edge = embedding_info(&graph, EmbeddingEntity::Relationship, "SUPPORTS", "body").unwrap();
    assert_eq!(
        (edge.entity, edge.dimension, edge.count, edge.hashed),
        (EmbeddingEntity::Relationship, 2, 1, 0)
    );
    assert_eq!(
        (edge.metric.as_str(), edge.model.as_deref()),
        ("dot_product", None)
    );

    assert!(embedding_info(&graph, EmbeddingEntity::Relationship, "SUPPORTS", "note").is_none());
    assert!(embedding_info(&graph, EmbeddingEntity::Relationship, "LINKS", "caption").is_none());
}

#[test]
fn entity_parse_accepts_only_the_two_spellings() {
    assert_eq!(EmbeddingEntity::parse("node"), Ok(EmbeddingEntity::Node));
    assert_eq!(
        EmbeddingEntity::parse("relationship"),
        Ok(EmbeddingEntity::Relationship)
    );
    assert!(EmbeddingEntity::parse("edge")
        .unwrap_err()
        .contains("entity"));
}

fn summary(rows: &[EmbeddingDiagnostic]) -> Vec<(EmbeddingEntity, &str, &str, &str, usize, usize)> {
    rows.iter()
        .map(|row| {
            (
                row.entity,
                row.owner_type.as_str(),
                row.text_column.as_str(),
                row.status.as_str(),
                row.with_property,
                row.embedded,
            )
        })
        .collect()
}

#[test]
fn diagnostics_scan_every_node_and_relationship_type_by_default() {
    let graph = same_name_graph();
    let rows = embedding_diagnostics(&graph, None, None).unwrap();
    let node = EmbeddingEntity::Node;
    let relationship = EmbeddingEntity::Relationship;
    assert_eq!(
        summary(&rows),
        vec![
            (node, "SUPPORTS", "body", "embedded", 2, 2),
            (relationship, "LINKS", "caption", "embeddable", 1, 0),
            (relationship, "SUPPORTS", "body", "embedded", 1, 1),
            (relationship, "SUPPORTS", "note", "embeddable", 1, 0),
        ],
        "LINKS carries no store, but its string property is a candidate like a node column"
    );
    let body = &rows[2];
    assert_eq!(body.embedding_key, "body_emb");
    assert_eq!(
        (body.dimension, body.metric.as_deref()),
        (Some(2), Some("dot_product"))
    );
    assert_eq!(body.length_stats.max_length, "edge text".len());
    let distinct_ratio = body.length_stats.distinct_count as f64 / body.with_property as f64;
    assert_eq!(distinct_ratio, 1.0);
}

#[test]
fn diagnostics_scopes_select_entities_and_reject_unknown_types() {
    let graph = same_name_graph();
    assert_eq!(
        summary(&embedding_diagnostics(&graph, None, Some("LINKS")).unwrap()),
        vec![(EmbeddingEntity::Relationship, "LINKS", "caption", "embeddable", 1, 0)]
    );
    assert_eq!(
        summary(&embedding_diagnostics(&graph, Some("SUPPORTS"), None).unwrap()),
        vec![(EmbeddingEntity::Node, "SUPPORTS", "body", "embedded", 2, 2)]
    );
    assert!(embedding_diagnostics(&graph, Some("NOPE"), None)
        .unwrap_err()
        .contains("Node type 'NOPE'"));
    assert!(embedding_diagnostics(&graph, None, Some("NOPE"))
        .unwrap_err()
        .contains("Relationship type 'NOPE'"));
}

#[test]
fn a_relationship_store_whose_property_is_gone_is_an_orphan() {
    let mut graph = same_name_graph();
    let supports = EdgeIndex::new(0);
    assert!(graph.set_relationship_properties(supports, vec![prop("note", text("aside"))], None));
    let rows = embedding_diagnostics(&graph, None, None).unwrap();
    let body = rows
        .iter()
        .find(|row| row.entity == EmbeddingEntity::Relationship && row.text_column == "body")
        .unwrap();
    assert_eq!(body.status, EmbeddingCoverage::StoreOrphan);
    assert_eq!((body.with_property, body.embedded), (0, 1));
}

#[test]
fn identifies_the_first_nonfinite_coordinate() {
    let error = validate_finite_vector(&bits(&[1.0, f32::INFINITY, f32::NAN])).unwrap_err();
    assert_eq!(error.index, 1);
    assert_eq!(f32::from_bits(error.value), f32::INFINITY);
    assert_eq!(
        error.message(),
        "vector coordinate 1 must be finite (got inf)"
    );
}
