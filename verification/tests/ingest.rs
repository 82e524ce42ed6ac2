//! Endpoint-addressed relationship writes: row resolution and its refusals,
//! the shared store rules (dimension, metric, provenance, index freshness),
//! and the embed pass against the selection path.

use kglite::address::RelationshipVector;
use kglite::edge_delete::{copy_properties, remove_edge_with_embeddings};
use kglite::edge_read::relationship_embeddings;
use kglite::edge_search::{
    relationship_embedding, relationship_embedding_dim, remove_relationship_embeddings,
    search_relationship_embeddings, RelationshipSearchOptions,
};
use kglite::edge_vector_index::{
    build_edge_vector_index, list_edge_vector_indexes, refresh_edge_vector_index,
    EdgeVectorIndexOptions,
};
use kglite::embed::{EmbedCalls, EmbedError, EmbedHooks, EmbedMode, Embedder, NeverInterrupted};
use kglite::generation::{
    embed_relationship_texts, embed_selected_relationships, relationship_texts,
    EdgeGenerationRequest, EmbeddingExecutionService,
};
use kglite::graph::DirGraph;
use kglite::groups::RelationshipKeys;
use kglite::hints::Surface;
use kglite::ingest::{
    add_relationship_embeddings, set_relationship_embeddings, RelationshipIngestReport,
};
use kglite::inventory::{embedding_info, EmbeddingEntity};
use kglite::model_calls::ModelCalls;
use kglite::ranking::StoreAnswer;
use kglite::topology::{EdgeData, NodeData, Property};
use kglite::value::{EdgeIndex, NodeIndex, Value};
use std::cell::Cell;

fn bits(numbers: &[f32]) -> Vec<u32> {
    numbers.iter().map(|n| n.to_bits()).collect()
}

fn node(graph: &mut DirGraph, node_type: &str, id: i64) -> NodeIndex {
    graph.add_node(NodeData::new(Value::Int64(id), Value::Null, node_type, Vec::new()))
}

fn found(graph: &DirGraph, node_type: &str, id: i64) -> NodeIndex {
    graph.lookup_by_id(node_type, &Value::Int64(id)).unwrap()
}

fn text(name: &str, value: &str) -> Property {
    Property { name: name.to_string(), value: Value::String(value.to_string()) }
}

fn claim(
    graph: &mut DirGraph,
    source: NodeIndex,
    target: NodeIndex,
    uid: &str,
    value: &str,
) -> EdgeIndex {
    graph.add_relationship(
        source,
        target,
        EdgeData::new("CLAIMS", vec![text("uid", uid), text("text", value)]),
    )
}

fn edge_by_uid(graph: &DirGraph, uid: &str) -> EdgeIndex {
    graph
        .topology
        .edges_of_type("CLAIMS")
        .into_iter()
        .find(|edge| {
            graph.topology.edge_weight(*edge).and_then(|w| w.get_property("uid"))
                == Some(&Value::String(uid.into()))
        })
        .unwrap()
}

/// Writes or removes a property of the relationship with a uid.
fn set(graph: &mut DirGraph, uid: &str, name: &str, value: Option<&str>) {
    let edge = edge_by_uid(graph, uid);
    let mut properties = copy_properties(&graph.topology.edge_weight(edge).unwrap().properties);
    properties.retain(|property| property.name != name);
    if let Some(value) = value {
        properties.push(text(name, value));
    }
    assert!(graph.set_relationship_properties(edge, properties, Some(name)));
}

/// Docs 1, 2, 3 and an Author 7; `CLAIMS` 1→2 (uid 's') and a parallel group
/// of two `CLAIMS` 1→3 (uids 'p1', 'p2'), every one carrying `text`.
fn graph() -> DirGraph {
    let mut graph = DirGraph::new();
    let a = node(&mut graph, "Doc", 1);
    let b = node(&mut graph, "Doc", 2);
    let c = node(&mut graph, "Doc", 3);
    node(&mut graph, "Author", 7);
    claim(&mut graph, a, b, "s", "single");
    claim(&mut graph, a, c, "p1", "first");
    claim(&mut graph, a, c, "p2", "second");
    graph
}

fn keys() -> RelationshipKeys {
    let mut keys = RelationshipKeys::new();
    keys.insert("CLAIMS", "uid");
    keys
}

fn row(source: i64, target: i64, key: Option<&str>, vector: [f32; 2]) -> RelationshipVector {
    RelationshipVector {
        source_type: Some("Doc".into()),
        source_id: Value::Int64(source),
        target_type: Some("Doc".into()),
        target_id: Value::Int64(target),
        key: key.map(|key| Value::String(key.into())),
        vector: bits(&vector),
    }
}

fn untyped(mut row: RelationshipVector) -> RelationshipVector {
    row.source_type = None;
    row.target_type = None;
    row
}

fn all_three() -> Vec<RelationshipVector> {
    vec![
        row(1, 2, Some("s"), [1.0, 0.0]),
        row(1, 3, Some("p1"), [0.0, 1.0]),
        row(1, 3, Some("p2"), [0.6, 0.8]),
    ]
}

/// `(uid, vector)` for every stored vector, sorted by uid.
fn by_uid(graph: &DirGraph) -> Vec<(String, Vec<u32>)> {
    let mut rows: Vec<_> = relationship_embeddings(graph, "CLAIMS", "text", &keys())
        .unwrap()
        .into_iter()
        .map(|row| match row.key {
            Some(Value::String(uid)) => (uid, row.vector),
            other => panic!("uid: {other:?}"),
        })
        .collect();
    rows.sort_by(|a, b| a.0.cmp(&b.0));
    rows
}

fn uid(value: &str) -> String {
    value.to_string()
}

/// A store holding every relationship's vector, then an index over it.
fn full_indexed_store() -> DirGraph {
    let mut graph = graph();
    set_relationship_embeddings(
        &mut graph,
        "CLAIMS",
        "text",
        &all_three(),
        &keys(),
        Some("euclidean"),
    )
    .unwrap();
    build_edge_vector_index(
        &mut graph,
        "CLAIMS",
        "text",
        &EdgeVectorIndexOptions::default(),
    )
    .unwrap();
    graph
}

struct Stub {
    model_id: &'static str,
}

impl Stub {
    fn vector(text: &str) -> Vec<u32> {
        bits(&[text.len() as f32, 1.0])
    }
}

impl Embedder for Stub {
    fn dimension(&self) -> usize {
        2
    }

    fn embed(&self, texts: &Vec<String>) -> Result<Vec<Vec<u32>>, String> {
        Ok(texts.iter().map(|text| Stub::vector(text)).collect())
    }

    fn model_id(&self) -> Option<String> {
        Some(self.model_id.into())
    }
}

#[test]
fn keyed_rows_land_on_the_member_their_key_names() {
    let mut graph = graph();
    let report =
        set_relationship_embeddings(&mut graph, "CLAIMS", "text", &all_three(), &keys(), None)
            .unwrap();
    assert_eq!(
        report,
        RelationshipIngestReport {
            stored: 3,
            dimension: 2,
            changed: 3,
            store_created: true,
        }
    );
    assert_eq!(
        by_uid(&graph),
        vec![
            (uid("p1"), bits(&[0.0, 1.0])),
            (uid("p2"), bits(&[0.6, 0.8])),
            (uid("s"), bits(&[1.0, 0.0])),
        ]
    );
}

#[test]
fn set_replaces_the_store_leaving_only_the_written_rows() {
    let mut graph = full_indexed_store();
    let report = set_relationship_embeddings(
        &mut graph,
        "CLAIMS",
        "text",
        &vec![row(1, 3, Some("p2"), [0.5, 0.5])],
        &keys(),
        None,
    )
    .unwrap();
    assert_eq!(
        report,
        RelationshipIngestReport {
            stored: 1,
            dimension: 2,
            changed: 1,
            store_created: true,
        }
    );
    assert_eq!(by_uid(&graph), vec![(uid("p2"), bits(&[0.5, 0.5]))]);
    // As a replaced node store: the old metric and index go with the old store.
    let info = embedding_info(&graph, EmbeddingEntity::Relationship, "CLAIMS", "text").unwrap();
    assert_eq!((info.metric.as_str(), info.model), ("cosine", None));
    assert!(!list_edge_vector_indexes(&graph)[0].built);
}

#[test]
fn add_upserts_keeping_the_rows_it_does_not_name() {
    let mut graph = full_indexed_store();
    let report = add_relationship_embeddings(
        &mut graph,
        "CLAIMS",
        "text",
        &vec![row(1, 3, Some("p2"), [0.5, 0.5])],
        &keys(),
        None,
    )
    .unwrap();
    assert_eq!(
        report,
        RelationshipIngestReport {
            stored: 3,
            dimension: 2,
            changed: 1,
            store_created: false,
        }
    );
    assert_eq!(
        by_uid(&graph),
        vec![
            (uid("p1"), bits(&[0.0, 1.0])),
            (uid("p2"), bits(&[0.5, 0.5])),
            (uid("s"), bits(&[1.0, 0.0])),
        ]
    );
    let status = &list_edge_vector_indexes(&graph)[0];
    assert_eq!((status.built, status.delta), (true, 1));
}

#[test]
fn a_parallel_group_without_a_key_property_is_refused_by_name() {
    let mut graph = graph();
    let before = graph.version();
    let error = set_relationship_embeddings(
        &mut graph,
        "CLAIMS",
        "text",
        &vec![row(1, 3, None, [0.0, 1.0])],
        &RelationshipKeys::new(),
        None,
    )
    .unwrap_err();
    assert!(
        error.contains("rows[0] (Doc id=1)-[:CLAIMS]->(Doc id=3) is ambiguous")
            && error.contains("2 'CLAIMS' relationships connect")
            && error.contains("relationship_keys names no key property for 'CLAIMS'")
            && error.contains("relationship_keys={'CLAIMS': '<property>'}"),
        "{error}"
    );
    assert_eq!(graph.version(), before);
    assert!(graph.edge_embeddings.is_empty());
}

#[test]
fn a_parallel_row_without_a_key_or_with_an_unknown_one_is_refused() {
    let mut graph = graph();
    let missing = set_relationship_embeddings(
        &mut graph,
        "CLAIMS",
        "text",
        &vec![
            row(1, 2, Some("s"), [1.0, 0.0]),
            row(1, 3, None, [0.0, 1.0]),
        ],
        &keys(),
        None,
    )
    .unwrap_err();
    assert!(
        missing.contains("rows[1]") && missing.contains("the row gives no key value"),
        "{missing}"
    );
    let unknown = set_relationship_embeddings(
        &mut graph,
        "CLAIMS",
        "text",
        &vec![row(1, 3, Some("p9"), [0.0, 1.0])],
        &keys(),
        None,
    )
    .unwrap_err();
    assert_eq!(
        unknown,
        "rows[0] (Doc id=1)-[:CLAIMS]->(Doc id=3): 2 'CLAIMS' relationships connect (Doc id=1) \
         to (Doc id=3), and none has uid=\"p9\""
    );
    assert!(
        graph.edge_embeddings.is_empty(),
        "a refused batch writes nothing"
    );
}

#[test]
fn a_key_that_does_not_tell_members_apart_is_refused() {
    let mut graph = graph();
    set(&mut graph, "p2", "uid", Some("p1"));
    let error = set_relationship_embeddings(
        &mut graph,
        "CLAIMS",
        "text",
        &vec![row(1, 3, Some("p1"), [0.0, 1.0])],
        &keys(),
        None,
    )
    .unwrap_err();
    assert!(error.contains("repeats the value"), "{error}");
}

#[test]
fn an_unknown_endpoint_or_an_unconnected_pair_is_refused() {
    let mut graph = graph();
    let unknown = set_relationship_embeddings(
        &mut graph,
        "CLAIMS",
        "text",
        &vec![row(1, 2, None, [1.0, 0.0]), row(9, 2, None, [1.0, 0.0])],
        &keys(),
        None,
    )
    .unwrap_err();
    assert_eq!(
        unknown,
        "rows[1] (Doc id=9)-[:CLAIMS]->(Doc id=2): no 'Doc' node has id 9"
    );
    let unconnected = set_relationship_embeddings(
        &mut graph,
        "CLAIMS",
        "text",
        &vec![row(2, 3, None, [1.0, 0.0])],
        &keys(),
        None,
    )
    .unwrap_err();
    assert_eq!(
        unconnected,
        "rows[0] (Doc id=2)-[:CLAIMS]->(Doc id=3): no 'CLAIMS' relationship connects those nodes"
    );
    assert!(graph.edge_embeddings.is_empty());
}

#[test]
fn a_singleton_row_with_a_foreign_key_is_refused() {
    let mut graph = graph();
    let error = set_relationship_embeddings(
        &mut graph,
        "CLAIMS",
        "text",
        &vec![row(1, 2, Some("p1"), [1.0, 0.0])],
        &keys(),
        None,
    )
    .unwrap_err();
    assert!(error.contains(r#"has uid="s", not "p1""#), "{error}");
    let unnamed = set_relationship_embeddings(
        &mut graph,
        "CLAIMS",
        "text",
        &vec![row(1, 2, Some("s"), [1.0, 0.0])],
        &RelationshipKeys::new(),
        None,
    )
    .unwrap_err();
    assert!(
        unnamed.contains("relationship_keys names no key property"),
        "{unnamed}"
    );
}

#[test]
fn two_rows_naming_one_relationship_are_refused() {
    let mut graph = graph();
    let error = set_relationship_embeddings(
        &mut graph,
        "CLAIMS",
        "text",
        &vec![
            row(1, 2, None, [1.0, 0.0]),
            row(1, 2, Some("s"), [0.0, 1.0]),
        ],
        &keys(),
        None,
    )
    .unwrap_err();
    assert_eq!(
        error,
        "rows[0] and rows[1] both name relationship (Doc id=1)-[:CLAIMS]->(Doc id=2); give \
         each relationship one row"
    );
}

#[test]
fn endpoint_types_may_be_left_out_only_when_the_type_has_one_of_each() {
    let mut graph = graph();
    set_relationship_embeddings(
        &mut graph,
        "CLAIMS",
        "text",
        &all_three().into_iter().map(untyped).collect(),
        &keys(),
        None,
    )
    .unwrap();
    assert_eq!(by_uid(&graph).len(), 3);

    let (author, target) = (found(&graph, "Author", 7), found(&graph, "Doc", 2));
    claim(&mut graph, author, target, "x", "y");
    let error = set_relationship_embeddings(
        &mut graph,
        "CLAIMS",
        "text",
        &vec![untyped(row(1, 2, None, [1.0, 0.0]))],
        &keys(),
        None,
    )
    .unwrap_err();
    assert_eq!(
        error,
        "rows[0] names no source node type, and 'CLAIMS' relationships have source nodes of \
         types Author, Doc; address it by (source_type, source_id, target_type, target_id)"
    );
}

#[test]
fn a_wrong_dimension_names_the_relationship_and_its_row() {
    let mut graph = graph();
    set_relationship_embeddings(
        &mut graph,
        "CLAIMS",
        "text",
        &vec![row(1, 2, None, [1.0, 0.0])],
        &keys(),
        None,
    )
    .unwrap();
    let before = graph.version();
    let mut wide = row(1, 3, Some("p1"), [0.0, 1.0]);
    wide.vector.push(0.5f32.to_bits());
    let error = set_relationship_embeddings(
        &mut graph,
        "CLAIMS",
        "text",
        &vec![row(1, 3, Some("p2"), [0.0, 1.0]), wide],
        &keys(),
        None,
    )
    .unwrap_err();
    assert_eq!(
        error,
        "Embedding for relationship (Doc id=1)-[:CLAIMS]->(Doc id=3) (rows[1]) has dimension 3, \
         expected 2"
    );
    assert_eq!(graph.version(), before);
    assert_eq!(by_uid(&graph).len(), 1);
}

#[test]
fn a_metric_that_contradicts_the_store_is_refused() {
    let mut graph = graph();
    set_relationship_embeddings(
        &mut graph,
        "CLAIMS",
        "text",
        &vec![row(1, 2, None, [1.0, 0.0])],
        &keys(),
        Some("euclidean"),
    )
    .unwrap();
    let error = add_relationship_embeddings(
        &mut graph,
        "CLAIMS",
        "text",
        &vec![row(1, 3, Some("p1"), [0.0, 1.0])],
        &keys(),
        Some("cosine"),
    )
    .unwrap_err();
    assert_eq!(
        error,
        "Store metric is 'euclidean', but this batch requested 'cosine'"
    );
}

#[test]
fn a_text_property_no_relationship_carries_is_refused() {
    let mut graph = graph();
    let error = set_relationship_embeddings(
        &mut graph,
        "CLAIMS",
        "txet",
        &vec![row(1, 2, None, [1.0, 0.0])],
        &keys(),
        None,
    )
    .unwrap_err();
    assert!(
        error.starts_with("Text column 'txet' not found on any 'CLAIMS' relationship"),
        "{error}"
    );
    let empty =
        set_relationship_embeddings(&mut graph, "CLAIMS", "txet", &Vec::new(), &keys(), None)
            .unwrap();
    assert_eq!(empty, RelationshipIngestReport::default());
    assert!(graph.edge_embeddings.is_empty());
}

#[test]
fn a_manual_upsert_keeps_the_metric_and_clears_generated_provenance() {
    let mut graph = graph();
    let model = Stub { model_id: "stub/a" };
    embed_relationship_texts(
        &mut graph,
        "CLAIMS",
        "text",
        EmbedMode::Missing,
        &mut ModelCalls::new(&model),
        &EmbedHooks::default(),
        Some("dot_product"),
    )
    .unwrap();
    let generated =
        embedding_info(&graph, EmbeddingEntity::Relationship, "CLAIMS", "text").unwrap();
    assert_eq!(
        (generated.model.as_deref(), generated.hashed),
        (Some("stub/a"), 3)
    );
    assert_eq!(generated.metric, "dot_product");

    add_relationship_embeddings(
        &mut graph,
        "CLAIMS",
        "text",
        &vec![row(1, 2, None, [9.0, 9.0])],
        &keys(),
        None,
    )
    .unwrap();
    let manual = embedding_info(&graph, EmbeddingEntity::Relationship, "CLAIMS", "text").unwrap();
    assert_eq!((manual.model, manual.hashed), (None, 2));
    assert_eq!(manual.metric, "dot_product");
}

#[test]
fn a_write_after_an_index_build_is_the_index_delta() {
    let mut graph = graph();
    set_relationship_embeddings(
        &mut graph,
        "CLAIMS",
        "text",
        &vec![row(1, 2, None, [1.0, 0.0])],
        &keys(),
        None,
    )
    .unwrap();
    build_edge_vector_index(
        &mut graph,
        "CLAIMS",
        "text",
        &EdgeVectorIndexOptions::default(),
    )
    .unwrap();
    add_relationship_embeddings(
        &mut graph,
        "CLAIMS",
        "text",
        &vec![
            row(1, 3, Some("p1"), [0.0, 1.0]),
            row(1, 3, Some("p2"), [0.6, 0.8]),
        ],
        &keys(),
        None,
    )
    .unwrap();
    let status = &list_edge_vector_indexes(&graph)[0];
    assert_eq!((status.built, status.stale, status.delta), (true, true, 2));
    assert_eq!(
        refresh_edge_vector_index(&mut graph, "CLAIMS", "text", Surface::Cypher).unwrap(),
        2
    );
    let status = &list_edge_vector_indexes(&graph)[0];
    assert_eq!((status.stale, status.delta), (false, 0));
}

#[test]
fn modes_select_missing_changed_and_all() {
    let model = Stub { model_id: "stub/a" };
    let mut graph = graph();
    let hooks = EmbedHooks::default();
    let embed = |graph: &mut DirGraph, mode| {
        let mut called = ModelCalls::new(&model);
        embed_relationship_texts(graph, "CLAIMS", "text", mode, &mut called, &hooks, None).unwrap()
    };
    assert_eq!(embed(&mut graph, EmbedMode::Missing).embedded, 3);
    let again = embed(&mut graph, EmbedMode::Missing);
    assert_eq!((again.embedded, again.skipped_existing), (0, 3));

    set(&mut graph, "s", "text", Some("rewritten"));
    let changed = embed(&mut graph, EmbedMode::Changed);
    assert_eq!(
        (
            changed.embedded,
            changed.reembedded_changed,
            changed.skipped_existing
        ),
        (1, 1, 2)
    );
    assert_eq!(by_uid(&graph)[2], (uid("s"), Stub::vector("rewritten")));

    set(&mut graph, "p1", "text", None);
    let all = embed(&mut graph, EmbedMode::All);
    assert_eq!((all.embedded, all.skipped), (2, 1));
    assert_eq!(
        by_uid(&graph)
            .into_iter()
            .map(|(k, _)| k)
            .collect::<Vec<_>>(),
        vec![uid("p2"), uid("s")],
        "mode all removes the vector of a relationship whose text is gone"
    );
}

#[test]
fn embedding_refuses_by_kind() {
    let mut graph = graph();
    let hooks = EmbedHooks::default();
    let column = embed_relationship_texts(
        &mut graph,
        "CLAIMS",
        "txet",
        EmbedMode::Missing,
        &mut ModelCalls::new(&Stub { model_id: "stub/a" }),
        &hooks,
        None,
    )
    .unwrap_err();
    assert!(matches!(column, EmbedError::Column(_)), "{column:?}");
    let unknown_type = embed_relationship_texts(
        &mut graph,
        "CITES",
        "text",
        EmbedMode::Missing,
        &mut ModelCalls::new(&Stub { model_id: "stub/a" }),
        &hooks,
        None,
    )
    .unwrap_err();
    assert!(
        matches!(&unknown_type, EmbedError::Column(message) if message.contains("'CITES'")),
        "{unknown_type:?}"
    );

    embed_relationship_texts(
        &mut graph,
        "CLAIMS",
        "text",
        EmbedMode::Missing,
        &mut ModelCalls::new(&Stub { model_id: "stub/a" }),
        &hooks,
        None,
    )
    .unwrap();
    set(&mut graph, "s", "text", Some("rewritten"));
    let foreign = embed_relationship_texts(
        &mut graph,
        "CLAIMS",
        "text",
        EmbedMode::Changed,
        &mut ModelCalls::new(&Stub { model_id: "stub/b" }),
        &hooks,
        None,
    )
    .unwrap_err();
    assert!(
        matches!(&foreign, EmbedError::Output(message) if message.contains("model 'stub/a'")),
        "{foreign:?}"
    );

    // Same model id, so the width check is what refuses.
    struct Wide;
    impl Embedder for Wide {
        fn dimension(&self) -> usize {
            3
        }
        fn embed(&self, texts: &Vec<String>) -> Result<Vec<Vec<u32>>, String> {
            Ok(texts.iter().map(|_| bits(&[1.0; 3])).collect())
        }
        fn model_id(&self) -> Option<String> {
            Some("stub/a".into())
        }
    }
    let dimension = embed_relationship_texts(
        &mut graph,
        "CLAIMS",
        "text",
        EmbedMode::Changed,
        &mut ModelCalls::new(&Wide),
        &hooks,
        None,
    )
    .unwrap_err();
    assert_eq!(dimension, EmbedError::Dimension { store: 2, model: 3 });

    struct Failing;
    impl Embedder for Failing {
        fn dimension(&self) -> usize {
            2
        }
        fn embed(&self, _: &Vec<String>) -> Result<Vec<Vec<u32>>, String> {
            Err("model offline".into())
        }
    }
    let failed = embed_relationship_texts(
        &mut graph,
        "CLAIMS",
        "text",
        EmbedMode::All,
        &mut ModelCalls::new(&Failing),
        &hooks,
        None,
    )
    .unwrap_err();
    assert_eq!(failed, EmbedError::Model("model offline".into()));
}

#[test]
fn rows_read_back_write_into_another_graph_unchanged() {
    let mut source = graph();
    set_relationship_embeddings(&mut source, "CLAIMS", "text", &all_three(), &keys(), None)
        .unwrap();
    // The target builds the parallel group in the opposite order, so slot order
    // disagrees with the source's and only the key can pair them.
    let mut target = DirGraph::new();
    for id in [1, 2, 3] {
        node(&mut target, "Doc", id);
    }
    for (from, to, uid) in [(1, 3, "p2"), (1, 3, "p1"), (1, 2, "s")] {
        let (a, b) = (found(&target, "Doc", from), found(&target, "Doc", to));
        claim(&mut target, a, b, uid, "t");
    }
    let rows = relationship_embeddings(&source, "CLAIMS", "text", &keys()).unwrap();
    set_relationship_embeddings(
        &mut target,
        "CLAIMS",
        "text",
        &rows.into_iter().map(RelationshipVector::from).collect(),
        &keys(),
        None,
    )
    .unwrap();
    assert_eq!(by_uid(&target), by_uid(&source));
}

/// The same pass through the selection path, over every relationship.
fn embed_by_selection(graph: &mut DirGraph, model: &Stub, mode: EmbedMode) {
    let selected = relationship_texts(graph, "CLAIMS", "text");
    let mut service = EmbeddingExecutionService {
        model: ModelCalls::new(model),
        interrupt: NeverInterrupted,
    };
    embed_selected_relationships(
        graph,
        EdgeGenerationRequest {
            connection_type: "CLAIMS".into(),
            text_property: "text".into(),
            selected,
            mode,
            batch_size: 256,
            metric: None,
        },
        Some(&mut service),
    )
    .unwrap();
}

struct Counted<'a> {
    model: &'a Stub,
    calls: Cell<usize>,
    started: Cell<usize>,
    batched: Cell<usize>,
}

impl EmbedCalls for Counted<'_> {
    fn embed_batch(&self, texts: &Vec<String>) -> Option<Result<Vec<Vec<u32>>, String>> {
        self.calls.set(self.calls.get() + 1);
        Some(self.model.embed(texts))
    }
    fn on_start(&self, texts: usize) {
        self.started.set(texts);
    }
    fn on_batch(&self, texts: usize) {
        self.batched.set(self.batched.get() + texts);
    }
}

#[test]
fn embedding_every_relationship_equals_the_selection_pass() {
    let model = Stub { model_id: "stub/a" };
    let mut direct = graph();
    let hooks = EmbedHooks {
        batch_size: 2,
        load_when_idle: false,
        calls: Counted {
            model: &model,
            calls: Cell::new(0),
            started: Cell::new(0),
            batched: Cell::new(0),
        },
    };
    let outcome = embed_relationship_texts(
        &mut direct,
        "CLAIMS",
        "text",
        EmbedMode::Missing,
        &mut ModelCalls::new(&model),
        &hooks,
        None,
    )
    .unwrap();
    assert_eq!(
        (outcome.embedded, outcome.skipped, outcome.dimension),
        (3, 0, 2)
    );
    let calls = &hooks.calls;
    assert_eq!(
        (calls.calls.get(), calls.started.get(), calls.batched.get()),
        (2, 3, 3)
    );

    let mut selection = graph();
    embed_by_selection(&mut selection, &model, EmbedMode::Missing);
    assert_eq!(by_uid(&direct), by_uid(&selection));
    assert_eq!(
        by_uid(&direct),
        vec![
            (uid("p1"), Stub::vector("first")),
            (uid("p2"), Stub::vector("second")),
            (uid("s"), Stub::vector("single")),
        ]
    );
    for graph in [&direct, &selection] {
        let info = embedding_info(graph, EmbeddingEntity::Relationship, "CLAIMS", "text").unwrap();
        assert_eq!((info.model.as_deref(), info.hashed), (Some("stub/a"), 3));
    }
}

#[test]
fn one_vector_can_be_read_and_a_store_removed() {
    let mut graph = graph();
    set_relationship_embeddings(&mut graph, "CLAIMS", "text", &all_three(), &keys(), None)
        .unwrap();
    assert_eq!(relationship_embedding_dim(&graph, "CLAIMS", "text"), Some(2));
    let address = row(1, 3, Some("p2"), [0.0, 0.0]);
    assert_eq!(
        relationship_embedding(&graph, "CLAIMS", "text", &address, &keys()),
        Ok(Some(bits(&[0.6, 0.8])))
    );
    remove_relationship_embeddings(&mut graph, "CLAIMS", "text").unwrap();
    assert_eq!(relationship_embedding_dim(&graph, "CLAIMS", "text"), None);
    assert!(remove_relationship_embeddings(&mut graph, "CLAIMS", "text").is_err());
}

#[test]
fn a_search_names_its_hits_by_their_endpoints() {
    let mut graph = graph();
    set_relationship_embeddings(&mut graph, "CLAIMS", "text", &all_three(), &keys(), None)
        .unwrap();
    let scores = [0.5f64, 0.25, 1.0].map(f64::to_bits).to_vec();
    let hits = search_relationship_embeddings(
        &mut graph,
        None,
        "text",
        &bits(&[1.0, 0.0]),
        &RelationshipSearchOptions::new(2).with_exact(true),
        &keys(),
        &vec![StoreAnswer::Scan(scores)],
    )
    .unwrap();
    assert_eq!(hits.len(), 2);
    assert_eq!(hits[0].key, Some(Value::String("p2".into())));
    assert_eq!(f64::from_bits(hits[0].score), 1.0);
    assert_eq!(hits[1].key, Some(Value::String("s".into())));
    assert_eq!(hits[1].target_id, Value::Int64(2));
}

#[test]
fn an_added_batch_stamps_its_metric_on_a_store_without_one() {
    let mut graph = graph();
    set_relationship_embeddings(
        &mut graph,
        "CLAIMS",
        "text",
        &vec![row(1, 2, None, [1.0, 0.0])],
        &keys(),
        None,
    )
    .unwrap();
    let report = add_relationship_embeddings(
        &mut graph,
        "CLAIMS",
        "text",
        &vec![row(1, 3, Some("p1"), [0.0, 1.0])],
        &keys(),
        Some("euclidean"),
    )
    .unwrap();
    assert_eq!((report.stored, report.changed), (2, 1));
    let info = embedding_info(&graph, EmbeddingEntity::Relationship, "CLAIMS", "text").unwrap();
    assert_eq!(info.metric, "euclidean");
    assert_eq!(
        by_uid(&graph),
        vec![(uid("p1"), bits(&[0.0, 1.0])), (uid("s"), bits(&[1.0, 0.0]))]
    );
}

struct Unloaded;

impl Embedder for Unloaded {
    fn dimension(&self) -> usize {
        3
    }

    fn embed(&self, _texts: &Vec<String>) -> Result<Vec<Vec<u32>>, String> {
        Err("nothing is to be embedded".into())
    }

    fn model_id(&self) -> Option<String> {
        Some("unloaded".into())
    }

    fn load(&self) -> Result<(), String> {
        Err("nothing is to be loaded".into())
    }
}

#[test]
fn a_pass_without_texts_reports_the_models_dimension() {
    let mut graph = graph();
    for edge in graph.topology.edges_of_type("CLAIMS") {
        let empty = vec![Property { name: "text".into(), value: Value::Null }];
        assert!(graph.set_relationship_properties(edge, empty, Some("text")));
    }
    let outcome = embed_relationship_texts(
        &mut graph,
        "CLAIMS",
        "text",
        EmbedMode::All,
        &mut ModelCalls::new(&Unloaded),
        &EmbedHooks::default(),
        None,
    );
    match outcome {
        Ok(outcome) => assert_eq!((outcome.embedded, outcome.dimension), (0, 3)),
        Err(error) => panic!("{error:?}"),
    }
}

/// The same rows as `graph()`'s, made in another order.
fn reordered() -> DirGraph {
    let mut graph = DirGraph::new();
    for id in [3, 1, 2] {
        node(&mut graph, "Doc", id);
    }
    for (from, to, uid) in [(1, 3, "p2"), (1, 3, "p1"), (1, 2, "s")] {
        let (a, b) = (found(&graph, "Doc", from), found(&graph, "Doc", to));
        claim(&mut graph, a, b, uid, "t");
    }
    graph
}

#[test]
fn rows_written_elsewhere_read_the_same_in_the_same_order() {
    let mut source = graph();
    set_relationship_embeddings(&mut source, "CLAIMS", "text", &all_three(), &keys(), None)
        .unwrap();
    let mut target = reordered();
    let read = |graph: &DirGraph| relationship_embeddings(graph, "CLAIMS", "text", &keys()).unwrap();
    set_relationship_embeddings(
        &mut target,
        "CLAIMS",
        "text",
        &read(&source).into_iter().map(RelationshipVector::from).collect(),
        &keys(),
        None,
    )
    .unwrap();
    let said = |graph: &DirGraph| -> Vec<_> {
        read(graph)
            .into_iter()
            .map(|row| {
                (row.source_type, row.source_id, row.target_type, row.target_id, row.key, row.vector)
            })
            .collect()
    };
    assert_eq!(said(&target), said(&source));
    assert_eq!(said(&target).len(), 3);
}

#[test]
fn an_exact_search_over_two_stores_covers_every_vector() {
    let mut graph = graph();
    let (a, b) = (found(&graph, "Doc", 1), found(&graph, "Doc", 2));
    graph.add_relationship(a, b, EdgeData::new("BACKS", vec![text("text", "backing")]));
    set_relationship_embeddings(&mut graph, "CLAIMS", "text", &all_three(), &keys(), None)
        .unwrap();
    set_relationship_embeddings(
        &mut graph,
        "BACKS",
        "text",
        &vec![row(1, 2, None, [0.0, 1.0])],
        &keys(),
        None,
    )
    .unwrap();
    let scan = |scores: &[f64]| StoreAnswer::Scan(scores.iter().map(|s| s.to_bits()).collect());
    let answers = vec![scan(&[0.5]), scan(&[0.5, 0.25, 0.5])];
    for (top_k, expected) in [(9, 4), (3, 3)] {
        let hits = search_relationship_embeddings(
            &mut graph,
            None,
            "text",
            &bits(&[1.0, 0.0]),
            &RelationshipSearchOptions::new(top_k).with_exact(true),
            &keys(),
            &answers,
        )
        .unwrap();
        assert_eq!(hits.len(), expected);
        let named: Vec<_> = hits
            .iter()
            .map(|hit| (hit.relationship_type.as_str(), hit.key.clone(), f64::from_bits(hit.score)))
            .collect();
        let key = |uid: &str| Some(Value::String(uid.into()));
        let all = [
            ("BACKS", None, 0.5),
            ("CLAIMS", key("s"), 0.5),
            ("CLAIMS", key("p2"), 0.5),
            ("CLAIMS", key("p1"), 0.25),
        ];
        assert_eq!(named, all[..expected]);
    }
}

#[test]
fn a_type_given_twice_is_ranked_once() {
    let mut graph = graph();
    set_relationship_embeddings(&mut graph, "CLAIMS", "text", &all_three(), &keys(), None)
        .unwrap();
    let scores = [0.5f64, 0.25, 1.0].map(f64::to_bits).to_vec();
    let hits = search_relationship_embeddings(
        &mut graph,
        Some(&vec!["CLAIMS".to_string(), "CLAIMS".to_string()]),
        "text",
        &bits(&[1.0, 0.0]),
        &RelationshipSearchOptions::new(9),
        &keys(),
        &vec![StoreAnswer::Scan(scores)],
    )
    .unwrap();
    let found: Vec<_> = hits.into_iter().map(|hit| hit.key).collect();
    let key = |uid: &str| Some(Value::String(uid.into()));
    assert_eq!(found, vec![key("p2"), key("s"), key("p1")]);
}

#[test]
fn a_pass_over_a_type_without_relationships_loads_nothing() {
    let mut graph = DirGraph::new();
    let (a, b) = (node(&mut graph, "Doc", 1), node(&mut graph, "Doc", 2));
    let edge = claim(&mut graph, a, b, "s", "a");
    let keys = RelationshipKeys::new();
    let rows = vec![row(1, 2, None, [1.0, 0.0])];
    set_relationship_embeddings(&mut graph, "CLAIMS", "text", &rows, &keys, None).unwrap();
    remove_edge_with_embeddings(&mut graph, edge);
    let outcome = embed_relationship_texts(
        &mut graph,
        "CLAIMS",
        "text",
        EmbedMode::Missing,
        &mut ModelCalls::new(&Unloaded),
        &EmbedHooks::default(),
        None,
    )
    .unwrap();
    assert_eq!((outcome.embedded, outcome.dimension), (0, 3));
}
