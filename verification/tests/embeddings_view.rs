//! What a description says of embedding stores.

use kglite::edge_writes::upsert_edge_embeddings;
use kglite::embeddings_view::{conn_embeddings_attr, semantic_hint, write_conn_embeddings};
use kglite::graph::DirGraph;
use kglite::node_ingest::set_embeddings;
use kglite::node_inventory::list_embeddings;
use kglite::topology::{EdgeData, NodeData, Property};
use kglite::value::{NodeIndex, Value};

fn bits(numbers: &[f32]) -> Vec<u32> {
    numbers.iter().map(|n| n.to_bits()).collect()
}

fn body(value: &str) -> Vec<Property> {
    vec![Property { name: "body".to_string(), value: Value::String(value.to_string()) }]
}

fn node(graph: &mut DirGraph, id: i64, title: &str, text: &str) -> NodeIndex {
    graph.add_node(NodeData::new(
        Value::Int64(id),
        Value::String(title.to_string()),
        "SUPPORTS",
        body(text),
    ))
}

/// Node type and relationship type both named `SUPPORTS`; `node_store` and
/// `edge_store` choose which carries a `body_emb` store (dim 3 on the node
/// side, dim 2 on the relationship side, so the two are distinguishable).
fn graph(node_store: bool, edge_store: bool) -> DirGraph {
    let mut graph = DirGraph::new();
    let a = node(&mut graph, 1, "a", "node one");
    let b = node(&mut graph, 2, "b", "node two");
    let first = graph.add_relationship(a, b, EdgeData::new("SUPPORTS", body("edge text")));
    graph.add_relationship(a, b, EdgeData::new("SUPPORTS", body("more")));
    if node_store {
        set_embeddings(
            &mut graph,
            "SUPPORTS",
            "body",
            None,
            &vec![
                (Value::Int64(1), bits(&[1.0, 0.0, 0.0])),
                (Value::Int64(2), bits(&[0.0, 1.0, 0.0])),
            ],
        )
        .unwrap();
    }
    if edge_store {
        upsert_edge_embeddings(
            &mut graph,
            "SUPPORTS",
            "body",
            &vec![(first, bits(&[0.6, 0.8]))],
            None,
        )
        .unwrap();
    }
    graph
}

/// The line of the `SUPPORTS` connection.
fn conn_line(graph: &DirGraph) -> String {
    format!(
        "<conn type=\"SUPPORTS\" count=\"2\" from=\"SUPPORTS\" to=\"SUPPORTS\" \
         properties=\"body:String\"{}/>",
        conn_embeddings_attr(graph, "SUPPORTS")
    )
}

/// The semantic line, where there is one.
fn semantic_line(graph: &DirGraph) -> Option<String> {
    semantic_hint(graph).map(|line| line.trim_end_matches('\n').to_string())
}

const CONN_LINE: &str = "<conn type=\"SUPPORTS\" count=\"2\" from=\"SUPPORTS\" to=\"SUPPORTS\" \
    properties=\"body:String\" embeddings=\"body(dim=2,count=1)\"/>";

/// The node-only hint, pinned byte-for-byte (`embedding_norm` takes the store
/// name, `'col_emb'`).
const NODE_SEMANTIC_LINE: &str = "    <semantic hint=\"text_score(n, 'col', 'query'|[0.1,0.2,...], metric) — similarity; a list query is scored as your query vector, a string query is embedded via set_embedder() (metric: 'cosine'|'poincare'|'dot_product'|'euclidean'); embedding_norm(n, 'col_emb') — L2 norm (hierarchy depth in Poincaré space)\"/>";

#[test]
fn the_inventory_map_names_the_relationship_store_on_its_conn_line() {
    let graph = graph(true, true);
    assert_eq!(conn_line(&graph), CONN_LINE);
    // The node store keeps its own element and dimension: the same-name pair
    // is never merged.
    let stores = list_embeddings(&graph);
    assert_eq!(stores.len(), 1);
    assert_eq!(
        (stores[0].text_column.as_str(), stores[0].dimension, stores[0].count),
        ("body", 3, 2)
    );
}

#[test]
fn the_connections_overview_carries_the_same_attribute() {
    assert_eq!(conn_line(&graph(false, true)), CONN_LINE);
}

#[test]
fn the_connection_detail_view_lists_each_store_as_a_child() {
    let mut xml = String::new();
    write_conn_embeddings(&mut xml, &graph(false, true), "SUPPORTS");
    assert_eq!(
        xml.lines().collect::<Vec<_>>(),
        vec!["    <embeddings text_col=\"body\" dim=\"2\" count=\"1\"/>"]
    );
    let mut without = String::new();
    write_conn_embeddings(&mut without, &graph(true, false), "SUPPORTS");
    assert!(
        !without.contains("<embeddings "),
        "a node store is not a relationship store:\n{without}"
    );
}

#[test]
fn a_graph_with_only_relationship_stores_gets_the_semantic_hint() {
    let semantic = semantic_line(&graph(false, true)).unwrap();
    assert!(semantic.contains("vector_score(r, 'col_emb'"), "{semantic}");
    assert!(semantic.contains("db.edge_embeddings.query"), "{semantic}");
    assert!(
        semantic.contains("deleting an embedded relationship or an endpoint drops that index"),
        "the delete contract: {semantic}"
    );
    assert!(
        !semantic.contains("text_score(n,"),
        "no node store, so no node spelling: {semantic}"
    );
}

#[test]
fn a_graph_with_both_entities_names_both_spellings() {
    let semantic = semantic_line(&graph(true, true)).unwrap();
    assert!(semantic.contains("text_score(n, 'col'"), "{semantic}");
    assert!(semantic.contains("db.edge_embeddings.query"), "{semantic}");
}

#[test]
fn graphs_without_relationship_stores_render_only_the_node_hints() {
    let node_only = graph(true, false);
    assert_eq!(semantic_line(&node_only).unwrap(), NODE_SEMANTIC_LINE);
    assert!(!conn_line(&node_only).contains("embeddings=\""));

    let neither = graph(false, false);
    assert_eq!(semantic_line(&neither), None);
    assert_eq!(
        conn_line(&neither),
        "<conn type=\"SUPPORTS\" count=\"2\" from=\"SUPPORTS\" to=\"SUPPORTS\" properties=\"body:String\"/>"
    );
}
