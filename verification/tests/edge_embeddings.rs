//! Relationship embedding stores: writes, removals, deletes and rollback.

use kglite::carried::require_carried_text_property;
use kglite::edge_delete::remove_edge_with_embeddings;
use kglite::edge_log::describe_relationship;
use kglite::edge_replace::remove_edge_embeddings;
use kglite::edge_store::{edge_store_key, EdgeEmbeddingStore};
use kglite::edge_writes::upsert_edge_embeddings;
use kglite::graph::DirGraph;
use kglite::recording::{RawOp, Recording};
use kglite::statement::StatementCheckpoint;
use kglite::topology::{EdgeData, NodeData, Property};
use kglite::value::{EdgeIndex, Value};

fn bits(numbers: &[f32]) -> Vec<u32> {
    numbers.iter().map(|n| n.to_bits()).collect()
}

fn store_of<'a>(graph: &'a DirGraph, ty: &str, column: &str) -> &'a EdgeEmbeddingStore {
    let (ty, name) = edge_store_key(ty, column);
    graph.edge_embeddings.get(&ty, &name).expect("store")
}

fn graph_with_parallel_edges() -> (DirGraph, EdgeIndex, EdgeIndex, EdgeIndex) {
    let mut graph = DirGraph::new();
    let a = graph.add_node(NodeData::new(
        Value::Int64(1),
        Value::String("a".into()),
        "Doc",
        Vec::new(),
    ));
    let b = graph.add_node(NodeData::new(
        Value::Int64(2),
        Value::String("b".into()),
        "Doc",
        Vec::new(),
    ));
    let r1 = graph.add_relationship(a, b, EdgeData::new("ASSERTS", Vec::new()));
    let r2 = graph.add_relationship(a, b, EdgeData::new("ASSERTS", Vec::new()));
    let other = graph.add_relationship(a, a, EdgeData::new("MENTIONS", Vec::new()));
    (graph, r1, r2, other)
}

#[test]
fn parallel_edges_keep_distinct_vectors_and_bump_once() {
    let (mut graph, r1, r2, _) = graph_with_parallel_edges();
    let before = graph.version();
    let report = upsert_edge_embeddings(
        &mut graph,
        "ASSERTS",
        "description",
        &vec![(r1, bits(&[1.0, 0.0])), (r2, bits(&[0.0, 1.0]))],
        Some("cosine"),
    )
    .unwrap();
    assert_eq!(report.changed, 2);
    assert_eq!(graph.version(), before + 1);
    let store = store_of(&graph, "ASSERTS", "description");
    assert_eq!(store.get(r1), Some(&bits(&[1.0, 0.0])[..]));
    assert_eq!(store.get(r2), Some(&bits(&[0.0, 1.0])[..]));
}

#[test]
fn identical_upsert_is_a_true_no_op() {
    let (mut graph, r1, _, _) = graph_with_parallel_edges();
    upsert_edge_embeddings(
        &mut graph,
        "ASSERTS",
        "description",
        &vec![(r1, bits(&[1.0, 0.0]))],
        None,
    )
    .unwrap();
    let before = graph.version();
    let report = upsert_edge_embeddings(
        &mut graph,
        "ASSERTS",
        "description",
        &vec![(r1, bits(&[1.0, 0.0]))],
        None,
    )
    .unwrap();
    assert_eq!(report.changed, 0);
    assert_eq!(graph.version(), before);
}

#[test]
fn invalid_batch_is_atomic() {
    let (mut graph, r1, r2, other) = graph_with_parallel_edges();
    upsert_edge_embeddings(
        &mut graph,
        "ASSERTS",
        "description",
        &vec![(r1, bits(&[1.0, 0.0]))],
        None,
    )
    .unwrap();
    let before = graph.version();
    for bad in [
        vec![(r2, bits(&[0.0, 1.0])), (other, bits(&[1.0, 1.0]))],
        vec![(r2, bits(&[0.0, 1.0])), (r2, bits(&[1.0, 1.0]))],
        vec![(r2, bits(&[f32::NAN, 1.0]))],
        vec![(r2, bits(&[1.0]))],
    ] {
        assert!(upsert_edge_embeddings(&mut graph, "ASSERTS", "description", &bad, None).is_err());
        assert_eq!(graph.version(), before);
        let store = store_of(&graph, "ASSERTS", "description");
        assert_eq!(store.len(), 1);
        assert_eq!(store.get(r1), Some(&bits(&[1.0, 0.0])[..]));
        assert_eq!(store.get(r2), None);
    }
}

#[test]
fn removal_validates_every_edge_before_mutating() {
    let (mut graph, r1, r2, other) = graph_with_parallel_edges();
    upsert_edge_embeddings(
        &mut graph,
        "ASSERTS",
        "description",
        &vec![(r1, bits(&[1.0, 0.0])), (r2, bits(&[0.0, 1.0]))],
        None,
    )
    .unwrap();
    let before = graph.version();
    assert!(remove_edge_embeddings(&mut graph, "ASSERTS", "description", &vec![r1, other],).is_err());
    assert_eq!(graph.version(), before);
    let store = store_of(&graph, "ASSERTS", "description");
    assert!(store.get(r1).is_some());
    assert!(store.get(r2).is_some());
}

#[test]
fn vacuum_remaps_vectors_to_their_surviving_parallel_edges() {
    let (mut graph, r1, r2, other) = graph_with_parallel_edges();
    upsert_edge_embeddings(
        &mut graph,
        "ASSERTS",
        "description",
        &vec![(r2, bits(&[0.0, 1.0]))],
        None,
    )
    .unwrap();
    remove_edge_with_embeddings(&mut graph, r1).unwrap();

    graph.vacuum();

    let asserted = graph.topology.edges_of_type("ASSERTS");
    assert_eq!(asserted.len(), 1);
    let store = store_of(&graph, "ASSERTS", "description");
    assert_eq!(store.get(asserted[0]), Some(&bits(&[0.0, 1.0])[..]));
    assert_eq!(
        store.get(other),
        None,
        "a different edge never inherits the vector"
    );
}

#[test]
fn reused_edge_slot_never_inherits_the_deleted_vector() {
    let (mut graph, removed, survivor, _) = graph_with_parallel_edges();
    upsert_edge_embeddings(
        &mut graph,
        "ASSERTS",
        "description",
        &vec![(removed, bits(&[1.0, 0.0])), (survivor, bits(&[0.0, 1.0]))],
        None,
    )
    .unwrap();
    let endpoints = graph.topology.edge_endpoints(removed).unwrap();
    remove_edge_with_embeddings(&mut graph, removed).unwrap();
    let replacement = graph.add_relationship(
        endpoints.0,
        endpoints.1,
        EdgeData::new("ASSERTS", Vec::new()),
    );

    assert_eq!(replacement, removed, "the fixture must reuse the slot");
    let store = store_of(&graph, "ASSERTS", "description");
    assert_eq!(store.get(replacement), None);
    assert_eq!(store.get(survivor), Some(&bits(&[0.0, 1.0])[..]));
}

#[test]
fn rollback_restores_the_exact_edge_vector_slot() {
    let (mut graph, r1, r2, _) = graph_with_parallel_edges();
    upsert_edge_embeddings(
        &mut graph,
        "ASSERTS",
        "description",
        &vec![(r1, bits(&[1.0, 0.0])), (r2, bits(&[0.0, 1.0]))],
        None,
    )
    .unwrap();
    let checkpoint = StatementCheckpoint::open(&mut graph);
    remove_edge_with_embeddings(&mut graph, r1).unwrap();
    checkpoint.rollback(&mut graph);

    let store = store_of(&graph, "ASSERTS", "description");
    assert_eq!(store.edges(), vec![r1, r2]);
    assert_eq!(store.get(r1), Some(&bits(&[1.0, 0.0])[..]));
    assert_eq!(store.get(r2), Some(&bits(&[0.0, 1.0])[..]));
}

#[test]
fn cloned_graphs_own_independent_edge_stores() {
    let (mut graph, r1, _, _) = graph_with_parallel_edges();
    upsert_edge_embeddings(
        &mut graph,
        "ASSERTS",
        "description",
        &vec![(r1, bits(&[1.0, 0.0]))],
        None,
    )
    .unwrap();
    let mut child = graph.clone();

    assert_eq!(
        remove_edge_embeddings(&mut child, "ASSERTS", "description", &vec![r1]).unwrap(),
        1
    );
    assert!(store_of(&child, "ASSERTS", "description").is_empty());
    assert_eq!(
        store_of(&graph, "ASSERTS", "description").get(r1),
        Some(&bits(&[1.0, 0.0])[..])
    );
}

#[test]
fn held_frozen_view_keeps_its_edge_vectors_after_writer_mutation() {
    let (mut writer, r1, _, _) = graph_with_parallel_edges();
    upsert_edge_embeddings(
        &mut writer,
        "ASSERTS",
        "description",
        &vec![(r1, bits(&[1.0, 0.0]))],
        None,
    )
    .unwrap();
    let frozen = writer.clone();

    remove_edge_with_embeddings(&mut writer, r1).unwrap();

    assert!(store_of(&writer, "ASSERTS", "description").is_empty());
    assert_eq!(
        store_of(&frozen, "ASSERTS", "description").get(r1),
        Some(&bits(&[1.0, 0.0])[..])
    );
}

#[test]
fn durable_private_writes_capture_group_touches() {
    let (mut graph, r1, _, _) = graph_with_parallel_edges();
    upsert_edge_embeddings(
        &mut graph,
        "ASSERTS",
        "description",
        &vec![(r1, bits(&[1.0, 0.0]))],
        None,
    )
    .unwrap();
    graph.recording = Some(Recording::new(true));
    upsert_edge_embeddings(
        &mut graph,
        "ASSERTS",
        "description",
        &vec![(r1, bits(&[0.0, 1.0]))],
        None,
    )
    .unwrap();
    assert_eq!(
        remove_edge_embeddings(&mut graph, "ASSERTS", "description", &vec![r1]).unwrap(),
        1
    );
    let raw = &graph.recording.as_ref().unwrap().ops;
    assert!(raw
        .iter()
        .any(|op| matches!(op, RawOp::WalGroup { .. })));
    assert!(store_of(&graph, "ASSERTS", "description").is_empty());
}

#[test]
fn a_store_for_a_property_no_relationship_carries_is_refused_until_one_does() {
    let (mut graph, r1, _, _) = graph_with_parallel_edges();
    let error = require_carried_text_property(&graph, "ASSERTS", "description").unwrap_err();
    assert!(
        error.starts_with("Text property 'description' not found on any 'ASSERTS' relationship."),
        "{error}"
    );
    let claim = Property {
        name: "description".to_string(),
        value: Value::String("a claim".into()),
    };
    assert!(graph.set_relationship_properties(r1, vec![claim], Some("description")));
    require_carried_text_property(&graph, "ASSERTS", "description").unwrap();
    // Another type carrying the property does not admit this one.
    assert!(require_carried_text_property(&graph, "MENTIONS", "description").is_err());
}

#[test]
fn an_existing_store_is_accepted_without_a_carrier() {
    let (mut graph, r1, _, _) = graph_with_parallel_edges();
    upsert_edge_embeddings(
        &mut graph,
        "ASSERTS",
        "description",
        &vec![(r1, bits(&[1.0]))],
        None,
    )
    .unwrap();
    require_carried_text_property(&graph, "ASSERTS", "description").unwrap();
}

#[test]
fn a_relationship_is_described_by_type_and_endpoint_ids() {
    let (graph, r1, _, other) = graph_with_parallel_edges();
    assert_eq!(
        describe_relationship(&graph, r1),
        "(Doc id=1)-[:ASSERTS]->(Doc id=2)"
    );
    assert_eq!(
        describe_relationship(&graph, other),
        "(Doc id=1)-[:MENTIONS]->(Doc id=1)"
    );
}
