//! What a snapshot keeps of relationship stores, and what is read back of it.

use kglite::edge_delete::remove_edge_with_embeddings;
use kglite::edge_store::{edge_store_key, EdgeEmbeddingStore};
use kglite::edge_writes::upsert_edge_embeddings;
use kglite::graph::DirGraph;
use kglite::snapshot::{
    has_persisted_edge_embeddings, persisted_edge_embedding_stores,
    validate_decoded_edge_embedding_stores, DecodedStore, PersistedEdgeEmbeddingStore,
};
use kglite::topology::{EdgeData, NodeData};
use kglite::value::{EdgeIndex, Value};
use std::collections::HashMap;

fn bits(numbers: &[f32]) -> Vec<u32> {
    numbers.iter().map(|n| n.to_bits()).collect()
}

/// Two parallel `ASSERTS` from the first node to the second, and a `MENTIONS`
/// from the first node to itself.
fn graph_with_relationships() -> (DirGraph, EdgeIndex, EdgeIndex, EdgeIndex) {
    let mut graph = DirGraph::new();
    let node = |graph: &mut DirGraph, id: i64, title: &str| {
        graph.add_node(NodeData::new(
            Value::Int64(id),
            Value::String(title.into()),
            "Doc",
            Vec::new(),
        ))
    };
    let a = node(&mut graph, 1, "a");
    let b = node(&mut graph, 2, "b");
    let first = graph.add_relationship(a, b, EdgeData::new("ASSERTS", Vec::new()));
    let parallel = graph.add_relationship(a, b, EdgeData::new("ASSERTS", Vec::new()));
    let self_loop = graph.add_relationship(a, a, EdgeData::new("MENTIONS", Vec::new()));
    (graph, first, parallel, self_loop)
}

fn store_of<'a>(graph: &'a DirGraph, ty: &str, column: &str) -> &'a EdgeEmbeddingStore {
    let (ty, name) = edge_store_key(ty, column);
    graph.edge_embeddings.get(&ty, &name).expect("store")
}

/// A kept store as a snapshot hands it back.
fn kept(
    ty: &str,
    column: &str,
    data: Vec<u32>,
    edge_slots: Vec<usize>,
    metric: Option<&str>,
    model_id: Option<&str>,
    text_hashes: HashMap<usize, u64>,
) -> DecodedStore {
    let (relationship_type, property) = edge_store_key(ty, column);
    DecodedStore {
        relationship_type,
        property,
        store: PersistedEdgeEmbeddingStore {
            dimension: 2,
            data,
            edge_slots,
            metric: metric.map(str::to_string),
            model_id: model_id.map(str::to_string),
            text_hashes,
        },
    }
}

/// What is written of a graph's stores, as it is read back.
fn written(graph: &DirGraph) -> Vec<DecodedStore> {
    persisted_edge_embedding_stores(graph)
        .into_iter()
        .map(|entry| DecodedStore {
            relationship_type: entry.relationship_type.to_string(),
            property: entry.property.to_string(),
            store: PersistedEdgeEmbeddingStore {
                dimension: entry.store.dimension,
                data: entry.store.data.clone(),
                edge_slots: entry.store.edge_slots.clone(),
                metric: entry.store.metric.map(str::to_string),
                model_id: entry.store.model_id.map(str::to_string),
                text_hashes: entry.store.text_hashes.clone(),
            },
        })
        .collect()
}

/// The graph with its stores read back from what is written of them.
fn reopened(mut graph: DirGraph) -> DirGraph {
    assert!(has_persisted_edge_embeddings(&graph));
    let stores = validate_decoded_edge_embedding_stores(&graph, written(&graph)).unwrap();
    graph.edge_embeddings = stores;
    graph
}

#[test]
fn disk_round_trip_preserves_parallel_and_self_loop_vectors() {
    let (mut graph, first, parallel, self_loop) = graph_with_relationships();
    upsert_edge_embeddings(
        &mut graph,
        "ASSERTS",
        "description",
        &vec![(first, bits(&[1.0, 0.0])), (parallel, bits(&[0.0, 1.0]))],
        Some("cosine"),
    )
    .unwrap();
    upsert_edge_embeddings(
        &mut graph,
        "MENTIONS",
        "description",
        &vec![(self_loop, bits(&[0.5, 0.5]))],
        Some("cosine"),
    )
    .unwrap();

    let loaded = reopened(graph);

    let assertions = store_of(&loaded, "ASSERTS", "description");
    assert_eq!(assertions.get(first), Some(bits(&[1.0, 0.0]).as_slice()));
    assert_eq!(assertions.get(parallel), Some(bits(&[0.0, 1.0]).as_slice()));
    let mentions = store_of(&loaded, "MENTIONS", "description");
    assert_eq!(mentions.get(self_loop), Some(bits(&[0.5, 0.5]).as_slice()));
}

#[test]
fn a_graph_without_relationship_stores_has_nothing_to_write() {
    let (graph, _, _, _) = graph_with_relationships();
    assert!(!has_persisted_edge_embeddings(&graph));
    assert!(persisted_edge_embedding_stores(&graph).is_empty());
}

#[test]
fn stores_are_written_by_relationship_type_and_name() {
    let (mut graph, first, _, self_loop) = graph_with_relationships();
    for (ty, column, edge) in [
        ("MENTIONS", "summary", self_loop),
        ("ASSERTS", "summary", first),
        ("ASSERTS", "description", first),
    ] {
        upsert_edge_embeddings(&mut graph, ty, column, &vec![(edge, bits(&[1.0, 0.0]))], None)
            .unwrap();
    }
    let keys: Vec<_> = persisted_edge_embedding_stores(&graph)
        .into_iter()
        .map(|entry| (entry.relationship_type.to_string(), entry.property.to_string()))
        .collect();
    assert_eq!(
        keys,
        vec![
            edge_store_key("ASSERTS", "description"),
            edge_store_key("ASSERTS", "summary"),
            edge_store_key("MENTIONS", "summary"),
        ]
    );
}

#[test]
fn an_empty_declared_store_is_written_and_read_back() {
    let (mut graph, first, _, _) = graph_with_relationships();
    upsert_edge_embeddings(
        &mut graph,
        "ASSERTS",
        "description",
        &vec![(first, bits(&[1.0, 0.0]))],
        None,
    )
    .unwrap();
    remove_edge_with_embeddings(&mut graph, first).unwrap();
    let loaded = reopened(graph);
    let store = store_of(&loaded, "ASSERTS", "description");
    assert_eq!((store.len(), store.dimension()), (0, 2));
}

#[test]
fn disk_round_trip_preserves_model_metric_and_text_hash() {
    let (mut graph, first, _, _) = graph_with_relationships();
    let decoded = vec![kept(
        "ASSERTS",
        "description",
        bits(&[1.0, 0.0]),
        vec![first.index()],
        Some("dot_product"),
        Some("model-v1"),
        HashMap::from([(first.index(), 42)]),
    )];
    graph.edge_embeddings = validate_decoded_edge_embedding_stores(&graph, decoded).unwrap();

    let loaded = reopened(graph);
    let store = store_of(&loaded, "ASSERTS", "description");
    assert_eq!(store.metric(), Some("dot_product"));
    assert_eq!(store.model_id(), Some("model-v1"));
    assert_eq!(store.text_hash(first), Some(42));
}

#[test]
fn corrupt_disk_edge_store_payloads_are_rejected() {
    let (graph, first, _, _) = graph_with_relationships();
    let empty_error = validate_decoded_edge_embedding_stores(&graph, Vec::new())
        .err()
        .expect("no store at all must fail");
    assert!(empty_error.contains("contains no stores"), "{empty_error}");

    let cases = [
        (
            "non-finite",
            ("ASSERTS", vec![f32::NAN, 0.0], vec![first.index()]),
            "finite",
        ),
        (
            "wrong width",
            ("ASSERTS", vec![1.0], vec![first.index()]),
            "cardinality",
        ),
        (
            "dead slot",
            ("ASSERTS", vec![1.0, 0.0], vec![9999]),
            "not live",
        ),
        (
            "wrong type",
            ("MENTIONS", vec![1.0, 0.0], vec![first.index()]),
            "expected 'MENTIONS'",
        ),
    ];
    for (name, (relationship_type, data, edge_slots), expected) in cases {
        let payload = vec![kept(
            relationship_type,
            "description",
            bits(&data),
            edge_slots,
            Some("cosine"),
            Some("test-model"),
            HashMap::new(),
        )];
        let message = validate_decoded_edge_embedding_stores(&graph, payload)
            .err()
            .unwrap_or_else(|| panic!("{name} payload must fail"));
        assert!(message.contains(expected), "{name}: {message}");
    }
}

#[test]
fn a_kept_store_is_refused_for_what_no_graph_could_hold() {
    let (graph, first, parallel, _) = graph_with_relationships();
    let cases = [
        (
            "repeated slot",
            kept(
                "ASSERTS",
                "description",
                bits(&[1.0, 0.0, 0.0, 1.0]),
                vec![first.index(), first.index()],
                None,
                None,
                HashMap::new(),
            ),
        ),
        (
            "hash without a vector",
            kept(
                "ASSERTS",
                "description",
                bits(&[1.0, 0.0]),
                vec![first.index()],
                None,
                None,
                HashMap::from([(parallel.index(), 7)]),
            ),
        ),
    ];
    for (name, payload) in cases {
        let message = validate_decoded_edge_embedding_stores(&graph, vec![payload])
            .err()
            .unwrap_or_else(|| panic!("{name} must fail"));
        assert!(
            message.starts_with("store 'ASSERTS.description_emb' is invalid: "),
            "{name}: {message}"
        );
    }
}

#[test]
fn a_kept_store_is_refused_under_a_name_no_store_has() {
    let (graph, first, _, _) = graph_with_relationships();
    let plain = || {
        kept(
            "ASSERTS",
            "description",
            bits(&[1.0, 0.0]),
            vec![first.index()],
            None,
            None,
            HashMap::new(),
        )
    };
    let mut misnamed = plain();
    misnamed.property = "description".into();
    let mut untyped = plain();
    untyped.relationship_type = String::new();
    let mut flat = plain();
    flat.store.dimension = 0;
    for (payload, expected) in [
        (misnamed, "embedding property 'description' is not a canonical *_emb store name"),
        (untyped, "relationship type is empty"),
        (flat, "embedding dimension is zero"),
    ] {
        let message =
            validate_decoded_edge_embedding_stores(&graph, vec![payload]).err().unwrap();
        assert!(message.ends_with(expected), "{message}");
    }
}

#[test]
fn decoded_store_validation_is_atomic_before_disk_install() {
    let (graph, first, parallel, _) = graph_with_relationships();
    let valid = kept(
        "ASSERTS",
        "description",
        bits(&[1.0, 0.0]),
        vec![first.index()],
        None,
        None,
        HashMap::new(),
    );
    let invalid = kept(
        "ASSERTS",
        "summary",
        bits(&[f32::NAN, 0.0]),
        vec![parallel.index()],
        None,
        None,
        HashMap::new(),
    );

    assert!(validate_decoded_edge_embedding_stores(&graph, vec![valid, invalid]).is_err());
    assert!(graph.edge_embeddings.is_empty());
}
