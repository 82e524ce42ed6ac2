//! Relationship text indexes: build, freshness at every hooked write, rollback
//! and vacuum. What a refreshed index is held to throughout is an index built
//! anew over the same graph.

use kglite::edge_delete::{copy_properties, remove_edge_with_embeddings};
use kglite::edge_text_indexes::{
    build_edge_text_index, drop_edge_text_index, edge_text_index_store, list_edge_text_indexes,
    refresh_edge_text_index, TextIndexRead,
};
use kglite::graph::DirGraph;
use kglite::statement::StatementCheckpoint;
use kglite::text_documents::build_over_type;
use kglite::text_index::{TextIndex, TextIndexStore};
use kglite::topology::{EdgeData, NodeData, Property};
use kglite::value::{EdgeIndex, NodeIndex, Value};

fn text(value: &str) -> Value {
    Value::String(value.to_string())
}

fn prop(name: &str, value: Value) -> Property {
    Property { name: name.to_string(), value }
}

fn doc(graph: &mut DirGraph, id: i64) -> NodeIndex {
    graph.add_node(NodeData::new(Value::Int64(id), Value::Null, "Doc", Vec::new()))
}

fn relate(graph: &mut DirGraph, rel_type: &str, k: i64, value: Value) -> EdgeIndex {
    graph.add_relationship(
        NodeIndex::new(0),
        NodeIndex::new(1),
        EdgeData::new(rel_type, vec![prop("k", Value::Int64(k)), prop("text", value)]),
    )
}

/// Three documents on `CLAIMS` (k = 0, 1, 2 between the same two nodes, a
/// parallel group) plus one `TAG` relationship that is never indexed.
fn claims_graph() -> DirGraph {
    let mut graph = DirGraph::new();
    doc(&mut graph, 1);
    doc(&mut graph, 2);
    relate(&mut graph, "CLAIMS", 0, text("the quick brown fox"));
    relate(&mut graph, "CLAIMS", 1, text("a quick brown marmoset appears"));
    relate(&mut graph, "CLAIMS", 2, text("slow green turtles"));
    graph.add_relationship(
        NodeIndex::new(0),
        NodeIndex::new(1),
        EdgeData::new("TAG", vec![prop("text", text("quick"))]),
    );
    build_edge_text_index(&mut graph, "CLAIMS", "text", None).unwrap();
    graph
}

fn store(graph: &DirGraph) -> &TextIndexStore {
    edge_text_index_store(graph, "CLAIMS", "text").expect("index built")
}

fn words(text: &str) -> Vec<String> {
    text.split(|c: char| !c.is_alphanumeric())
        .filter(|word| !word.is_empty())
        .map(|word| word.to_lowercase())
        .collect()
}

/// The BM25 score of the document at a slot.
fn bm25(index: &TextIndex, slot: usize, query: &str) -> f64 {
    let total = index.docs.len() as f64;
    let mean = index.docs.values().map(|d| words(d).len()).sum::<usize>() as f64 / total;
    let document = match index.document(slot) {
        Some(document) => words(document),
        None => return 0.0,
    };
    let mut score = 0.0;
    for word in words(query) {
        let holding = index.docs.values().filter(|d| words(d).contains(&word)).count() as f64;
        let times = document.iter().filter(|w| **w == word).count() as f64;
        let idf = (1.0 + (total - holding + 0.5) / (holding + 0.5)).ln();
        let length = document.len() as f64;
        score += idf * times * 2.2 / (times + 1.2 * (0.25 + 0.75 * length / mean));
    }
    score
}

fn key_of(graph: &DirGraph, edge: EdgeIndex) -> i64 {
    match graph.topology.edge_weight(edge).and_then(|data| data.get_property("k")) {
        Some(Value::Int64(k)) => *k,
        other => panic!("every CLAIMS relationship has an integer k, got {other:?}"),
    }
}

fn edge_with(graph: &DirGraph, k: i64) -> EdgeIndex {
    graph
        .topology
        .edges_of_type("CLAIMS")
        .into_iter()
        .find(|edge| key_of(graph, *edge) == k)
        .unwrap()
}

fn scored(graph: &DirGraph, index: &TextIndex, query: &str) -> Vec<(i64, Option<f64>)> {
    let mut rows: Vec<(i64, Option<f64>)> = graph
        .topology
        .edges_of_type("CLAIMS")
        .into_iter()
        .map(|edge| {
            let bits = bm25(index, edge.index(), query).to_bits();
            let score = TextIndexRead(index).score_edge(edge, bits).map(f64::from_bits);
            (key_of(graph, edge), score)
        })
        .collect();
    rows.sort_by_key(|row| row.0);
    rows
}

/// `(k, score)` for every live `CLAIMS` relationship, after the refresh a query
/// does first.
fn scores(graph: &mut DirGraph, query: &str) -> Vec<(i64, Option<f64>)> {
    assert!(store(graph).edge_can_auto_refresh(graph));
    refresh_edge_text_index(graph, "CLAIMS", "text");
    scored(graph, &store(graph).index, query)
}

fn rebuilt_scores(graph: &DirGraph, query: &str) -> Vec<(i64, Option<f64>)> {
    scored(graph, &build_over_type(graph, "CLAIMS", "text").index, query)
}

fn assert_matches_rebuild(graph: &mut DirGraph, query: &str) {
    let refreshed = scores(graph, query);
    assert_eq!(
        refreshed,
        rebuilt_scores(graph, query),
        "a refreshed relationship index must equal a rebuilt one ({query})"
    );
    assert_eq!(store(graph).index.docs, build_over_type(graph, "CLAIMS", "text").index.docs);
}

fn score_of(rows: &[(i64, Option<f64>)], k: i64) -> Option<f64> {
    rows.iter()
        .find(|(key, _)| *key == k)
        .map(|(_, score)| *score)
        .unwrap_or_else(|| panic!("no row for k={k}: {rows:?}"))
}

fn write(graph: &mut DirGraph, edge: EdgeIndex, name: &str, value: Option<Value>) {
    let data = graph.topology.edge_weight(edge).unwrap();
    let mut properties = copy_properties(&data.properties);
    properties.retain(|property| property.name != name);
    if let Some(value) = value {
        properties.push(prop(name, value));
    }
    assert!(graph.set_relationship_properties(edge, properties, Some(name)));
}

#[test]
fn build_reports_and_scores_like_the_node_lane() {
    let mut graph = DirGraph::new();
    doc(&mut graph, 1);
    doc(&mut graph, 2);
    relate(&mut graph, "CLAIMS", 0, text("quick fox"));
    relate(
        &mut graph,
        "CLAIMS",
        1,
        Value::List(vec![text("quick"), Value::Null, text("marmoset")]),
    );
    relate(&mut graph, "CLAIMS", 2, Value::Int64(7));
    let report = build_edge_text_index(&mut graph, "CLAIMS", "text", None).unwrap();
    assert_eq!((report.indexed, report.skipped, report.terms), (2, 1, 3));
    let rows = scores(&mut graph, "marmoset");
    assert_eq!(score_of(&rows, 0), Some(0.0));
    assert!(matches!(score_of(&rows, 1), Some(s) if s > 0.0));
    assert_eq!(score_of(&rows, 2), None, "no document scores null");
}

#[test]
fn build_refuses_unknown_type_and_all_absent_property() {
    let mut graph = claims_graph();
    let error = build_edge_text_index(&mut graph, "NOPE", "text", None).unwrap_err();
    assert!(
        error.contains("Unknown relationship type 'NOPE'"),
        "{error}"
    );
    let error = build_edge_text_index(&mut graph, "CLAIMS", "missing", None).unwrap_err();
    assert!(
        error.contains("No 'CLAIMS' relationship carries text"),
        "{error}"
    );
}

#[test]
fn set_and_remove_are_folded_in_at_query_entry() {
    let mut graph = claims_graph();
    let last = edge_with(&graph, 2);
    write(&mut graph, last, "text", Some(text("zebra quick")));
    assert!(store(&graph).edge_is_stale(&graph));
    assert_matches_rebuild(&mut graph, "zebra");
    assert!(
        !store(&graph).edge_is_stale(&graph),
        "the read refreshed it"
    );

    let first = edge_with(&graph, 0);
    write(&mut graph, first, "text", None);
    assert_eq!(score_of(&scores(&mut graph, "quick"), 0), None);
    assert_matches_rebuild(&mut graph, "quick");
}

#[test]
fn a_write_to_another_property_leaves_the_index_current() {
    let mut graph = claims_graph();
    let edge = edge_with(&graph, 1);
    write(&mut graph, edge, "weight", Some(Value::Int64(3)));
    assert!(!store(&graph).edge_is_stale(&graph));
}

#[test]
fn delete_prunes_and_a_parallel_member_in_the_reused_slot_is_indexed() {
    let mut graph = claims_graph();
    let before = store(&graph).documents();
    let edge = edge_with(&graph, 1);
    remove_edge_with_embeddings(&mut graph, edge).unwrap();
    assert_eq!(store(&graph).documents(), before - 1);
    assert!(
        !store(&graph).edge_is_stale(&graph),
        "deletion is not staleness"
    );
    // The next relationship takes the freed slot: below the watermark, so only
    // the creation hook can make it visible.
    assert_eq!(relate(&mut graph, "CLAIMS", 9, text("zebra zebra")), edge);
    assert!(store(&graph).edge_is_stale(&graph));
    assert!(matches!(score_of(&scores(&mut graph, "zebra"), 9), Some(s) if s > 0.0));
    assert_matches_rebuild(&mut graph, "zebra");
}

#[test]
fn merge_creation_is_indexed() {
    let mut graph = claims_graph();
    relate(&mut graph, "CLAIMS", 5, text("merged zebra"));
    assert!(matches!(score_of(&scores(&mut graph, "zebra"), 5), Some(s) if s > 0.0));
    assert_matches_rebuild(&mut graph, "zebra");
}

#[test]
fn a_failed_statement_leaves_pre_statement_scores() {
    let mut graph = claims_graph();
    let before = scores(&mut graph, "zebra");
    let checkpoint = StatementCheckpoint::open(&mut graph);
    let edge = edge_with(&graph, 0);
    write(&mut graph, edge, "text", Some(text("zebra stripes")));
    assert!(matches!(score_of(&scores(&mut graph, "zebra"), 0), Some(s) if s > 0.0));
    checkpoint.rollback(&mut graph);
    assert!(
        store(&graph).edge_is_stale(&graph),
        "the refresh the failed statement did must be re-done"
    );
    assert_eq!(scores(&mut graph, "zebra"), before);
    assert_matches_rebuild(&mut graph, "zebra");
}

#[test]
fn a_rolled_back_delete_restores_the_document() {
    let mut graph = claims_graph();
    let before = scores(&mut graph, "marmoset");
    let checkpoint = StatementCheckpoint::open(&mut graph);
    let edge = edge_with(&graph, 1);
    remove_edge_with_embeddings(&mut graph, edge).unwrap();
    checkpoint.rollback(&mut graph);
    assert!(store(&graph).edge_is_stale(&graph));
    assert_eq!(scores(&mut graph, "marmoset"), before);
}

#[test]
fn build_and_drop_inside_a_failed_statement_are_undone() {
    let mut graph = claims_graph();
    let checkpoint = StatementCheckpoint::open(&mut graph);
    assert!(drop_edge_text_index(&mut graph, "CLAIMS", "text"));
    checkpoint.rollback(&mut graph);
    assert!(edge_text_index_store(&graph, "CLAIMS", "text").is_some());
    let checkpoint = StatementCheckpoint::open(&mut graph);
    build_edge_text_index(&mut graph, "TAG", "text", None).unwrap();
    checkpoint.rollback(&mut graph);
    assert!(edge_text_index_store(&graph, "TAG", "text").is_none());
}

#[test]
fn drop_and_list() {
    let mut graph = claims_graph();
    let rows = list_edge_text_indexes(&graph);
    assert_eq!(rows.len(), 1);
    assert_eq!(
        (
            rows[0].rel_type.as_str(),
            rows[0].property.as_str(),
            rows[0].documents,
            rows[0].delta,
        ),
        ("CLAIMS", "text", 3, 0)
    );
    assert!(drop_edge_text_index(&mut graph, "CLAIMS", "text"));
    assert!(!drop_edge_text_index(&mut graph, "CLAIMS", "text"));
}

#[test]
fn vacuum_drops_the_index() {
    let mut graph = claims_graph();
    let edge = edge_with(&graph, 0);
    remove_edge_with_embeddings(&mut graph, edge).unwrap();
    graph.vacuum();
    assert!(graph.edge_text_indexes.is_empty());
}

#[test]
fn a_large_delta_is_not_refreshed_by_a_query() {
    let mut graph = claims_graph();
    build_edge_text_index(&mut graph, "CLAIMS", "text", Some(1)).unwrap();
    relate(&mut graph, "CLAIMS", 3, text("one"));
    assert_eq!(store(&graph).edge_delta_size(&graph), 1);
    assert!(store(&graph).edge_can_auto_refresh(&graph));
    relate(&mut graph, "CLAIMS", 4, text("two"));
    assert_eq!(store(&graph).edge_delta_size(&graph), 2);
    assert!(!store(&graph).edge_can_auto_refresh(&graph));
}
