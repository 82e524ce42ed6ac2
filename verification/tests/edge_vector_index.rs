//! Vector indexes over relationship stores.

use kglite::edge_search::query_edge_embeddings;
use kglite::edge_store::{edge_store_key, EdgeEmbeddingStore};
use kglite::edge_vector_index::{
    apply_edge_vector_index_declaration, build_edge_vector_index, drop_edge_vector_index,
    list_edge_vector_indexes, refresh_edge_vector_index, EdgeVectorIndexOptions,
    EdgeVectorIndexStatus,
};
use kglite::edge_writes::upsert_edge_embeddings;
use kglite::graph::DirGraph;
use kglite::hints::Surface;
use kglite::ranking::{route_query, EdgeVectorQueryOptions, SearchMethod, StoreAnswer};
use kglite::statement::StatementCheckpoint;
use kglite::topology::{EdgeData, NodeData};
use kglite::value::{EdgeIndex, Value};

fn bits(numbers: &[f32]) -> Vec<u32> {
    numbers.iter().map(|n| n.to_bits()).collect()
}

fn store_of<'a>(graph: &'a DirGraph, ty: &str, column: &str) -> &'a EdgeEmbeddingStore {
    let (ty, name) = edge_store_key(ty, column);
    graph.edge_embeddings.get(&ty, &name).expect("store")
}

/// The cosine of the query and each vector of a store, in slot order.
fn cosines(store: &EdgeEmbeddingStore, query: &[f32]) -> Vec<u64> {
    store
        .edges()
        .into_iter()
        .map(|edge| {
            let vector: Vec<f64> = store
                .get(edge)
                .unwrap()
                .iter()
                .map(|n| f32::from_bits(*n) as f64)
                .collect();
            let dot: f64 = vector.iter().zip(query).map(|(a, b)| a * *b as f64).sum();
            let norm: f64 = vector.iter().map(|a| a * a).sum::<f64>().sqrt();
            let other: f64 = query.iter().map(|b| (*b as f64) * (*b as f64)).sum::<f64>().sqrt();
            (dot / (norm * other)).to_bits()
        })
        .collect()
}

/// What a store answers a query with: by its index where that may answer.
fn answer(store: &EdgeEmbeddingStore, query: &[f32], exact: bool) -> StoreAnswer {
    let scores = cosines(store, query);
    match route_query(&store.numeric, exact, Some("cosine"), false) {
        SearchMethod::Exact => StoreAnswer::Scan(scores),
        SearchMethod::Hnsw => StoreAnswer::Found(scores.into_iter().enumerate().collect()),
    }
}

fn node(graph: &mut DirGraph, id: i64, title: &str) -> kglite::value::NodeIndex {
    graph.add_node(NodeData::new(
        Value::Int64(id),
        Value::String(title.to_string()),
        "Doc",
        Vec::new(),
    ))
}

fn fixture() -> (DirGraph, EdgeIndex, EdgeIndex, EdgeIndex) {
    let mut graph = DirGraph::new();
    let source = node(&mut graph, 1, "source");
    let mut edges = Vec::new();
    for ordinal in 0..3 {
        let target = node(&mut graph, ordinal + 2, &format!("target-{ordinal}"));
        edges.push(graph.add_relationship(source, target, EdgeData::new("CLAIMS", Vec::new())));
    }
    upsert_edge_embeddings(
        &mut graph,
        "CLAIMS",
        "text",
        &vec![
            (edges[0], bits(&[1.0, 0.0])),
            (edges[1], bits(&[0.0, 1.0])),
            (edges[2], bits(&[-1.0, 0.0])),
        ],
        Some("cosine"),
    )
    .unwrap();
    (graph, edges[0], edges[1], edges[2])
}

#[test]
fn explicit_index_query_matches_exact_and_status_uses_text_property() {
    let (mut graph, first, _, _) = fixture();
    let scores = answer(store_of(&graph, "CLAIMS", "text"), &[1.0, 0.0], true);
    let exact = query_edge_embeddings(
        &mut graph,
        "CLAIMS",
        "text",
        &bits(&[1.0, 0.0]),
        &EdgeVectorQueryOptions {
            top_k: 2,
            exact: true,
            metric: None,
        },
        &scores,
    )
    .unwrap();
    assert_eq!(EdgeIndex::new(exact.hits[0].target), first);
    assert_eq!(exact.search_method.as_str(), "exact");

    build_edge_vector_index(
        &mut graph,
        "CLAIMS",
        "text",
        &EdgeVectorIndexOptions::default(),
    )
    .unwrap();
    let scores = answer(store_of(&graph, "CLAIMS", "text"), &[1.0, 0.0], false);
    let approximate = query_edge_embeddings(
        &mut graph,
        "CLAIMS",
        "text",
        &bits(&[1.0, 0.0]),
        &EdgeVectorQueryOptions {
            top_k: 2,
            exact: false,
            metric: None,
        },
        &scores,
    )
    .unwrap();
    assert_eq!(approximate.hits, exact.hits);
    assert_eq!(approximate.search_method.as_str(), "hnsw");
    assert_eq!(
        list_edge_vector_indexes(&graph),
        vec![EdgeVectorIndexStatus {
            connection_type: "CLAIMS".into(),
            text_property: "text".into(),
            built: true,
            stale: false,
            delta: 0,
            unembedded: 0,
        }]
    );
}

#[test]
fn unsupported_build_is_atomic_and_metric_mismatch_falls_back() {
    let (mut graph, _, _, _) = fixture();
    let before = graph.version();
    let error = build_edge_vector_index(
        &mut graph,
        "CLAIMS",
        "text",
        &EdgeVectorIndexOptions {
            metric: Some("poincare".into()),
            ..Default::default()
        },
    )
    .unwrap_err();
    assert!(error.contains("not supported by HNSW"));
    assert_eq!(graph.version(), before);
    assert!(!list_edge_vector_indexes(&graph)[0].built);

    let error = build_edge_vector_index(
        &mut graph,
        "CLAIMS",
        "text",
        &EdgeVectorIndexOptions {
            m: Some(1),
            ..Default::default()
        },
    )
    .unwrap_err();
    assert!(error.contains("at least 2"));
    assert_eq!(graph.version(), before);
    assert!(!list_edge_vector_indexes(&graph)[0].built);
}

#[test]
fn build_and_drop_roll_back_without_rebuilding_vectors() {
    let (mut graph, _, _, _) = fixture();
    let checkpoint = StatementCheckpoint::open(&mut graph);
    build_edge_vector_index(
        &mut graph,
        "CLAIMS",
        "text",
        &EdgeVectorIndexOptions::default(),
    )
    .unwrap();
    assert!(list_edge_vector_indexes(&graph)[0].built);
    checkpoint.rollback(&mut graph);
    assert!(!list_edge_vector_indexes(&graph)[0].built);

    build_edge_vector_index(
        &mut graph,
        "CLAIMS",
        "text",
        &EdgeVectorIndexOptions::default(),
    )
    .unwrap();
    let checkpoint = StatementCheckpoint::open(&mut graph);
    assert!(drop_edge_vector_index(&mut graph, "CLAIMS", "text").unwrap());
    assert!(!list_edge_vector_indexes(&graph)[0].built);
    checkpoint.rollback(&mut graph);
    assert!(list_edge_vector_indexes(&graph)[0].built);
}

#[test]
fn vector_mutation_marks_index_stale_and_exact_fallback_remains_correct() {
    let (mut graph, first, second, _) = fixture();
    build_edge_vector_index(
        &mut graph,
        "CLAIMS",
        "text",
        &EdgeVectorIndexOptions {
            auto_refresh_limit: Some(0),
            ..Default::default()
        },
    )
    .unwrap();
    upsert_edge_embeddings(
        &mut graph,
        "CLAIMS",
        "text",
        &vec![(second, bits(&[1.0, 0.0]))],
        None,
    )
    .unwrap();
    let status = &list_edge_vector_indexes(&graph)[0];
    assert!(status.built);
    assert!(status.stale);
    assert_eq!(status.delta, 1);
    let scores = answer(store_of(&graph, "CLAIMS", "text"), &[1.0, 0.0], false);
    let result = query_edge_embeddings(
        &mut graph,
        "CLAIMS",
        "text",
        &bits(&[1.0, 0.0]),
        &EdgeVectorQueryOptions {
            top_k: 2,
            exact: false,
            metric: None,
        },
        &scores,
    )
    .unwrap();
    assert_eq!(result.search_method.as_str(), "exact");
    assert_eq!(
        result.hits.iter().map(|hit| EdgeIndex::new(hit.target)).collect::<Vec<_>>(),
        vec![first, second]
    );
}

#[test]
fn wal_declaration_rebuilds_and_drops_after_vectors_are_present() {
    let (mut recovered, _, _, _) = fixture();
    apply_edge_vector_index_declaration(
        &mut recovered,
        "CLAIMS",
        "text",
        &EdgeVectorIndexOptions {
            m: Some(8),
            ef_construction: Some(32),
            ef_search: Some(16),
            metric: Some("cosine".into()),
            auto_refresh_limit: Some(4),
        },
        true,
    )
    .unwrap();
    assert!(list_edge_vector_indexes(&recovered)[0].built);

    apply_edge_vector_index_declaration(
        &mut recovered,
        "CLAIMS",
        "text",
        &EdgeVectorIndexOptions::default(),
        false,
    )
    .unwrap();
    assert!(!list_edge_vector_indexes(&recovered)[0].built);
}

#[test]
fn malformed_wal_index_options_refuse_without_installing_an_index() {
    let (mut recovered, _, _, _) = fixture();
    let result = apply_edge_vector_index_declaration(
        &mut recovered,
        "CLAIMS",
        "text",
        &EdgeVectorIndexOptions {
            m: Some(8),
            ef_construction: Some(0),
            ef_search: Some(16),
            metric: Some("cosine".into()),
            auto_refresh_limit: Some(4),
        },
        true,
    );
    assert!(result.unwrap_err().contains("greater than 0"));
    assert!(!list_edge_vector_indexes(&recovered)[0].built);
}

#[test]
fn a_refresh_folds_the_outstanding_vectors_in() {
    let (mut graph, _, second, _) = fixture();
    let missing = refresh_edge_vector_index(&mut graph, "CLAIMS", "text", Surface::Method);
    assert!(missing.unwrap_err().contains("build_relationship_vector_index('CLAIMS', 'text')"));
    build_edge_vector_index(&mut graph, "CLAIMS", "text", &EdgeVectorIndexOptions::default())
        .unwrap();
    upsert_edge_embeddings(&mut graph, "CLAIMS", "text", &vec![(second, bits(&[1.0, 0.0]))], None)
        .unwrap();
    assert_eq!(
        refresh_edge_vector_index(&mut graph, "CLAIMS", "text", Surface::Method),
        Ok(1)
    );
    assert_eq!(
        refresh_edge_vector_index(&mut graph, "CLAIMS", "text", Surface::Method),
        Ok(0)
    );
}

/// A query folds in what is outstanding where the limit lets it, unless it scores
/// every vector or may not change the graph.
#[test]
fn a_query_catches_the_index_up() {
    let (mut graph, _, second, _) = fixture();
    build_edge_vector_index(&mut graph, "CLAIMS", "text", &EdgeVectorIndexOptions::default())
        .unwrap();
    upsert_edge_embeddings(
        &mut graph,
        "CLAIMS",
        "text",
        &vec![(second, bits(&[1.0, 0.0]))],
        None,
    )
    .unwrap();
    assert_eq!(list_edge_vector_indexes(&graph)[0].delta, 1);
    let version = graph.version();
    let query = |graph: &mut DirGraph, exact: bool, scan: bool| {
        let scores = answer(store_of(graph, "CLAIMS", "text"), &[1.0, 0.0], exact || scan);
        let report = query_edge_embeddings(
            graph,
            "CLAIMS",
            "text",
            &bits(&[1.0, 0.0]),
            &EdgeVectorQueryOptions { top_k: 2, exact, metric: None },
            &scores,
        )
        .unwrap();
        (report.search_method.as_str(), list_edge_vector_indexes(graph)[0].delta)
    };
    assert_eq!(query(&mut graph, true, false), ("exact", 1));
    graph.read_only = true;
    assert_eq!(query(&mut graph, false, true), ("exact", 1));
    graph.read_only = false;
    assert_eq!(query(&mut graph, false, false), ("hnsw", 0));
    assert_eq!(graph.version(), version, "catching up is no write");
}
