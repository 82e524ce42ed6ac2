//! Generated and manual writes of relationship vectors, and their rollback.

use kglite::edge_delete::remove_edge_with_embeddings;
use kglite::edge_generated::{install_generated_edge_embeddings, GeneratedEdgeEmbeddingWrite};
use kglite::edge_log::capture_wal_edge_embedding_bases;
use kglite::edge_replace::{drop_edge_embedding_store, remove_edge_embeddings};
use kglite::edge_search::{query_edge_embeddings, EdgeVectorQueryReport};
use kglite::edge_store::{edge_store_key, EdgeEmbeddingStore};
use kglite::edge_vector_index::{
    build_edge_vector_index, list_edge_vector_indexes, EdgeVectorIndexOptions,
    EdgeVectorIndexStatus,
};
use kglite::edge_writes::upsert_edge_embeddings;
use kglite::graph::DirGraph;
use kglite::ranking::{route_query, EdgeVectorQueryOptions, SearchMethod, StoreAnswer};
use kglite::recording::{RawOp, Recording};
use kglite::statement::StatementCheckpoint;
use kglite::topology::{EdgeData, NodeData, Property};
use kglite::value::{EdgeIndex, Value};

fn bits(numbers: &[f32]) -> Vec<u32> {
    numbers.iter().map(|n| n.to_bits()).collect()
}

fn store_of<'a>(graph: &'a DirGraph, ty: &str, column: &str) -> &'a EdgeEmbeddingStore {
    let (ty, name) = edge_store_key(ty, column);
    graph.edge_embeddings.get(&ty, &name).expect("store")
}

/// The cosine of the query and each vector of a store, in slot order.
fn cosines(store: &EdgeEmbeddingStore, query: &[f32]) -> Vec<u64> {
    store
        .edges()
        .into_iter()
        .map(|edge| {
            let vector: Vec<f64> = store
                .get(edge)
                .unwrap()
                .iter()
                .map(|n| f32::from_bits(*n) as f64)
                .collect();
            let dot: f64 = vector.iter().zip(query).map(|(a, b)| a * *b as f64).sum();
            let norm: f64 = vector.iter().map(|a| a * a).sum::<f64>().sqrt();
            let other: f64 = query.iter().map(|b| (*b as f64) * (*b as f64)).sum::<f64>().sqrt();
            (dot / (norm * other)).to_bits()
        })
        .collect()
}

/// What a store answers a query with: by its index where that may answer.
fn answer(store: &EdgeEmbeddingStore, query: &[f32], exact: bool) -> StoreAnswer {
    let scores = cosines(store, query);
    match route_query(&store.numeric, exact, Some("cosine"), false) {
        SearchMethod::Exact => StoreAnswer::Scan(scores),
        SearchMethod::Hnsw => StoreAnswer::Found(scores.into_iter().enumerate().collect()),
    }
}

fn graph() -> (DirGraph, EdgeIndex, EdgeIndex) {
    let mut graph = DirGraph::new();
    let a = graph.add_node(NodeData::new(
        Value::Int64(1),
        Value::String("a".into()),
        "Doc",
        Vec::new(),
    ));
    let b = graph.add_node(NodeData::new(
        Value::Int64(2),
        Value::String("b".into()),
        "Doc",
        Vec::new(),
    ));
    let r1 = graph.add_relationship(a, b, EdgeData::new("ASSERTS", Vec::new()));
    let r2 = graph.add_relationship(a, b, EdgeData::new("ASSERTS", Vec::new()));
    (graph, r1, r2)
}

fn write(
    dimension: usize,
    generated: Vec<(EdgeIndex, Vec<u32>, u64)>,
    remove_selected: Vec<EdgeIndex>,
    affected: Vec<EdgeIndex>,
) -> GeneratedEdgeEmbeddingWrite {
    GeneratedEdgeEmbeddingWrite {
        dimension,
        metric: Some("cosine".into()),
        final_model_id: Some("model-b".into()),
        generated,
        remove_selected,
        affected,
    }
}

/// Every observable property of the `ASSERTS.description` store, in dense slot
/// order: slot order is scan order, and scan order decides score ties.
#[derive(Debug, PartialEq)]
struct EdgeStoreFacts {
    dimension: usize,
    metric: Option<String>,
    model_id: Option<String>,
    cells: Vec<(usize, Vec<u32>, Option<u64>)>,
}

fn store_facts(graph: &DirGraph) -> Option<EdgeStoreFacts> {
    let (ty, name) = edge_store_key("ASSERTS", "description");
    let store = graph.edge_embeddings.get(&ty, &name)?;
    Some(EdgeStoreFacts {
        dimension: store.dimension(),
        metric: store.metric().map(str::to_owned),
        model_id: store.model_id().map(str::to_owned),
        cells: store
            .edges()
            .into_iter()
            .map(|edge| {
                (
                    edge.index(),
                    store
                        .get(edge)
                        .expect("a listed edge holds a vector")
                        .to_vec(),
                    store.text_hash(edge),
                )
            })
            .collect(),
    })
}

fn index_facts(graph: &DirGraph) -> Vec<EdgeVectorIndexStatus> {
    list_edge_vector_indexes(graph)
}

fn index_query(graph: &mut DirGraph) -> Option<EdgeVectorQueryReport> {
    let scores = answer(store_of(graph, "ASSERTS", "description"), &[1.0, 0.0], false);
    query_edge_embeddings(
        graph,
        "ASSERTS",
        "description",
        &bits(&[1.0, 0.0]),
        &EdgeVectorQueryOptions {
            top_k: 5,
            exact: false,
            metric: None,
        },
        &scores,
    )
    .ok()
}

fn three_graph() -> (DirGraph, [EdgeIndex; 3]) {
    let (mut graph, r1, r2) = graph();
    let (source, target) = graph.topology.edge_endpoints(r1).unwrap();
    let r3 = graph.add_relationship(source, target, EdgeData::new("ASSERTS", Vec::new()));
    (graph, [r1, r2, r3])
}

/// Two of the three relationships embedded with hashes and a model stamp, and
/// an index covering both.
fn seeded_graph() -> (DirGraph, [EdgeIndex; 3]) {
    let (mut graph, edges) = three_graph();
    install_generated_edge_embeddings(
        &mut graph,
        "ASSERTS",
        "description",
        &write(
            2,
            vec![
                (edges[0], bits(&[1.0, 0.0]), 11),
                (edges[1], bits(&[0.0, 1.0]), 22),
            ],
            vec![],
            vec![edges[0], edges[1]],
        ),
    )
    .unwrap();
    build_edge_vector_index(
        &mut graph,
        "ASSERTS",
        "description",
        &EdgeVectorIndexOptions::default(),
    )
    .unwrap();
    (graph, edges)
}

#[test]
fn generated_successor_installs_hashes_metadata_and_bumps_once() {
    let (mut graph, r1, r2) = graph();
    let before = graph.version();
    let report = install_generated_edge_embeddings(
        &mut graph,
        "ASSERTS",
        "description",
        &write(
            2,
            vec![(r1, bits(&[1.0, 0.0]), 11), (r2, bits(&[0.0, 1.0]), 22)],
            vec![],
            vec![r1, r2],
        ),
    )
    .unwrap();
    assert_eq!(graph.version(), before + 1);
    assert_eq!(report.changed, 2);
    let store = store_of(&graph, "ASSERTS", "description");
    assert_eq!(store.model_id(), Some("model-b"));
    assert_eq!(store.metric(), Some("cosine"));
    assert_eq!(store.text_hash(r1), Some(11));
    assert_eq!(store.text_hash(r2), Some(22));
}

#[test]
fn generated_invalid_batch_is_atomic() {
    let (mut graph, r1, r2) = graph();
    install_generated_edge_embeddings(
        &mut graph,
        "ASSERTS",
        "description",
        &write(2, vec![(r1, bits(&[1.0, 0.0]), 11)], vec![], vec![r1]),
    )
    .unwrap();
    let before = graph.clone();
    assert!(install_generated_edge_embeddings(
        &mut graph,
        "ASSERTS",
        "description",
        &write(2, vec![(r2, bits(&[f32::NAN, 0.0]), 22)], vec![], vec![r2]),
    )
    .is_err());
    assert_eq!(graph.version(), before.version());
    assert_eq!(
        store_of(&graph, "ASSERTS", "description").get(r1),
        Some(&bits(&[1.0, 0.0])[..])
    );
}

#[test]
fn width_change_requires_all_stored_vectors_but_not_unstored_edges() {
    let (mut graph, r1, r2) = graph();
    install_generated_edge_embeddings(
        &mut graph,
        "ASSERTS",
        "description",
        &write(2, vec![(r1, bits(&[1.0, 0.0]), 11)], vec![], vec![r1]),
    )
    .unwrap();
    install_generated_edge_embeddings(
        &mut graph,
        "ASSERTS",
        "description",
        &write(3, vec![(r1, bits(&[1.0, 0.0, 0.0]), 12)], vec![], vec![r1]),
    )
    .unwrap();
    let store = store_of(&graph, "ASSERTS", "description");
    assert_eq!(store.dimension(), 3);
    assert_eq!(store.get(r1), Some(&bits(&[1.0, 0.0, 0.0])[..]));
    assert_eq!(store.get(r2), None);

    assert!(install_generated_edge_embeddings(
        &mut graph,
        "ASSERTS",
        "description",
        &write(4, vec![(r2, bits(&[0.0; 4]), 22)], vec![], vec![r2]),
    )
    .is_err());
    assert_eq!(
        store_of(&graph, "ASSERTS", "description").dimension(),
        3
    );
}

#[test]
fn generated_all_removes_missing_text_cells_in_one_successor() {
    let (mut graph, r1, r2) = graph();
    install_generated_edge_embeddings(
        &mut graph,
        "ASSERTS",
        "description",
        &write(
            2,
            vec![(r1, bits(&[1.0, 0.0]), 11), (r2, bits(&[0.0, 1.0]), 22)],
            vec![],
            vec![r1, r2],
        ),
    )
    .unwrap();
    let before = graph.version();
    let report = install_generated_edge_embeddings(
        &mut graph,
        "ASSERTS",
        "description",
        &write(2, vec![(r1, bits(&[0.5, 0.5]), 33)], vec![r2], vec![r1, r2]),
    )
    .unwrap();
    let store = store_of(&graph, "ASSERTS", "description");
    assert_eq!(graph.version(), before + 1);
    assert_eq!(report.changed, 2);
    assert_eq!(store.get(r1), Some(&bits(&[0.5, 0.5])[..]));
    assert_eq!(store.text_hash(r1), Some(33));
    assert_eq!(store.get(r2), None);
}

#[test]
fn identical_generated_successor_is_a_true_no_op() {
    let (mut graph, r1, _) = graph();
    let batch = || write(2, vec![(r1, bits(&[1.0, 0.0]), 11)], vec![], vec![r1]);
    install_generated_edge_embeddings(&mut graph, "ASSERTS", "description", &batch()).unwrap();
    let before = graph.version();
    let report =
        install_generated_edge_embeddings(&mut graph, "ASSERTS", "description", &batch()).unwrap();
    assert_eq!(report.changed, 0);
    assert_eq!(graph.version(), before);
}

#[test]
fn manual_set_rolls_back_with_its_statement_in_every_storage_mode() {
    let (mut graph, [r1, _r2, r3]) = seeded_graph();
    let before_facts = store_facts(&graph);
    let before_index = index_facts(&graph);
    let before_query = index_query(&mut graph);
    let before_version = graph.version();

    let checkpoint = StatementCheckpoint::open(&mut graph);
    upsert_edge_embeddings(
        &mut graph,
        "ASSERTS",
        "description",
        // One overwrite of an indexed slot and one append past the
        // index's watermark: the two shapes `set_embedding` takes.
        &vec![(r1, bits(&[0.25, 0.75])), (r3, bits(&[0.6, 0.8]))],
        None,
    )
    .unwrap();
    checkpoint.rollback(&mut graph);

    assert_eq!(store_facts(&graph), before_facts);
    assert_eq!(index_facts(&graph), before_index);
    assert_eq!(index_query(&mut graph), before_query);
    assert_eq!(graph.version(), before_version);
}

#[test]
fn manual_set_that_creates_a_store_leaves_none_behind_after_rollback() {
    let (mut graph, [r1, ..]) = three_graph();
    let checkpoint = StatementCheckpoint::open(&mut graph);
    upsert_edge_embeddings(
        &mut graph,
        "ASSERTS",
        "description",
        &vec![(r1, bits(&[1.0, 0.0]))],
        Some("cosine"),
    )
    .unwrap();
    checkpoint.rollback(&mut graph);

    assert!(
        graph.edge_embeddings.is_empty(),
        "a rolled-back set must not leave the store it created"
    );
}

#[test]
fn manual_remove_rolls_back_with_its_statement_in_every_storage_mode() {
    let (mut graph, [r1, ..]) = seeded_graph();
    let before_facts = store_facts(&graph);
    let before_index = index_facts(&graph);
    let before_query = index_query(&mut graph);
    let before_version = graph.version();

    let checkpoint = StatementCheckpoint::open(&mut graph);
    // Slot 0, so the removal also tail-swaps slot 1 down; the restore has
    // to reverse the swap, not merely re-add the vector.
    assert_eq!(
        remove_edge_embeddings(&mut graph, "ASSERTS", "description", &vec![r1]).unwrap(),
        1
    );
    checkpoint.rollback(&mut graph);

    assert_eq!(store_facts(&graph), before_facts);
    assert_eq!(index_facts(&graph), before_index);
    assert_eq!(index_query(&mut graph), before_query);
    assert_eq!(graph.version(), before_version);
}

#[test]
fn a_manual_set_of_an_identical_vector_still_clears_the_generated_hash() {
    let (mut graph, [r1, r2, _]) = seeded_graph();
    let report = upsert_edge_embeddings(
        &mut graph,
        "ASSERTS",
        "description",
        &vec![(r1, bits(&[1.0, 0.0]))],
        None,
    )
    .unwrap();
    assert_eq!(report.changed, 1, "the hash clear is the change");

    let store = store_of(&graph, "ASSERTS", "description");
    assert_eq!(store.get(r1), Some(&bits(&[1.0, 0.0])[..]));
    assert_eq!(store.text_hash(r1), None, "the manual write owns this cell");
    assert_eq!(
        store.text_hash(r2),
        Some(22),
        "an unselected cell keeps its generated hash"
    );
    assert_eq!(store.model_id(), None);
}

#[test]
fn a_hash_only_manual_set_rolls_back_with_its_statement() {
    let (mut graph, [r1, ..]) = seeded_graph();
    let before_facts = store_facts(&graph);
    let before_index = index_facts(&graph);
    let before_query = index_query(&mut graph);
    let before_version = graph.version();

    let checkpoint = StatementCheckpoint::open(&mut graph);
    upsert_edge_embeddings(
        &mut graph,
        "ASSERTS",
        "description",
        &vec![(r1, bits(&[1.0, 0.0]))],
        None,
    )
    .unwrap();
    checkpoint.rollback(&mut graph);

    assert_eq!(store_facts(&graph), before_facts);
    assert_eq!(index_facts(&graph), before_index);
    assert_eq!(index_query(&mut graph), before_query);
    assert_eq!(graph.version(), before_version);
}

#[test]
fn a_rolled_back_relationship_delete_restores_the_vector_index_in_every_storage_mode() {
    let (mut graph, [r1, ..]) = seeded_graph();
    let before_facts = store_facts(&graph);
    let before_index = index_facts(&graph);
    let before_query = index_query(&mut graph);

    let checkpoint = StatementCheckpoint::open(&mut graph);
    assert!(
        remove_edge_with_embeddings(&mut graph, r1).is_some()
    );
    checkpoint.rollback(&mut graph);

    assert_eq!(store_facts(&graph), before_facts);
    assert_eq!(index_facts(&graph), before_index);
    assert_eq!(index_query(&mut graph), before_query);
}

#[test]
fn a_manual_set_with_an_explicit_metric_stamps_an_undeclared_store() {
    let (mut graph, r1, r2) = graph();
    upsert_edge_embeddings(
        &mut graph,
        "ASSERTS",
        "description",
        &vec![(r1, bits(&[1.0, 0.0]))],
        None,
    )
    .unwrap();
    assert_eq!(store_of(&graph, "ASSERTS", "description").metric(), None);

    let version = graph.version();
    let report = upsert_edge_embeddings(
        &mut graph,
        "ASSERTS",
        "description",
        &vec![(r1, bits(&[1.0, 0.0]))],
        Some("cosine"),
    )
    .unwrap();
    assert_eq!(store_of(&graph, "ASSERTS", "description").metric(), Some("cosine"));
    assert_eq!(report.changed, 0, "the vector itself did not move");
    assert!(graph.version() > version, "a metadata move is a mutation");

    // The declared metric now makes a contradicting build refuse.
    let error = build_edge_vector_index(
        &mut graph,
        "ASSERTS",
        "description",
        &EdgeVectorIndexOptions {
            metric: Some("euclidean".into()),
            ..Default::default()
        },
    )
    .unwrap_err();
    assert!(error.contains("declares metric 'cosine'"), "{error}");

    // A statement that stamps the metric and then fails restores the store.
    upsert_edge_embeddings(
        &mut graph,
        "ASSERTS",
        "note",
        &vec![(r2, bits(&[0.0, 1.0]))],
        None,
    )
    .unwrap();
    let checkpoint = StatementCheckpoint::open(&mut graph);
    upsert_edge_embeddings(
        &mut graph,
        "ASSERTS",
        "note",
        &vec![(r2, bits(&[0.0, 1.0]))],
        Some("cosine"),
    )
    .unwrap();
    assert_eq!(store_of(&graph, "ASSERTS", "note").metric(), Some("cosine"));
    checkpoint.rollback(&mut graph);
    assert_eq!(store_of(&graph, "ASSERTS", "note").metric(), None);
    assert_eq!(
        store_of(&graph, "ASSERTS", "note").get(r2),
        Some(&bits(&[0.0, 1.0])[..])
    );
}

#[test]
fn rollback_restores_a_dropped_store_and_embedding_base_capture() {
    let (mut graph, r1, _) = graph();
    install_generated_edge_embeddings(
        &mut graph,
        "ASSERTS",
        "description",
        &write(2, vec![(r1, bits(&[1.0, 0.0]), 11)], vec![], vec![r1]),
    )
    .unwrap();
    graph.recording = Some(Recording::new(true));

    let checkpoint = StatementCheckpoint::open(&mut graph);
    drop_edge_embedding_store(&mut graph, "ASSERTS", "description").unwrap();
    checkpoint.rollback(&mut graph);

    graph.note_wal_group(r1);
    graph.set_relationship_properties(
        r1,
        vec![Property { name: "revision".to_string(), value: Value::Int64(1) }],
        Some("revision"),
    );
    let raw = &graph.recording.as_ref().unwrap().ops;
    assert!(raw.iter().any(|op| matches!(
        op,
        RawOp::WalGroup { base_members, .. } if !base_members.is_empty()
    )));
    assert_eq!(
        store_of(&graph, "ASSERTS", "description").get(r1),
        Some(&bits(&[1.0, 0.0])[..])
    );
}

#[test]
fn drop_records_absence_and_disables_capture_after_last_store() {
    let (mut writer, r1, _) = graph();
    install_generated_edge_embeddings(
        &mut writer,
        "ASSERTS",
        "description",
        &write(2, vec![(r1, bits(&[1.0, 0.0]), 11)], vec![], vec![r1]),
    )
    .unwrap();
    writer.recording = Some(Recording::new(true));
    assert!(drop_edge_embedding_store(&mut writer, "ASSERTS", "description").unwrap());
    assert!(!drop_edge_embedding_store(&mut writer, "ASSERTS", "description").unwrap());
    let recording = writer.recording.as_ref().unwrap();
    assert!(recording.ops.iter().any(|op| matches!(
        op,
        RawOp::EdgeEmbeddingStore { conn_type, text_column }
            if conn_type == "ASSERTS" && text_column == "description"
    )));
    assert!(!recording.base_capture);
    assert!(writer.edge_embeddings.is_empty());
}

#[test]
fn vectorless_group_touch_retains_no_embedding_base_payload() {
    let (mut graph, edge, _) = graph();
    graph.recording = Some(Recording::new(!graph.edge_embeddings.is_empty()));
    graph.note_wal_group(edge);
    let raw = &graph.recording.as_ref().unwrap().ops;
    let bases: Vec<_> = raw
        .iter()
        .filter_map(|op| match op {
            RawOp::WalGroup { base_members, .. } => Some(base_members),
            _ => None,
        })
        .collect();
    assert_eq!(bases.len(), 1);
    assert!(
        bases[0].is_empty(),
        "no-vector capture must retain no group snapshot"
    );
}

/// The base of a touched cell is what it held when the recording began to
/// touch it, and each touched cell of a group has its own.
#[test]
fn a_recorded_write_keeps_the_prior_cells() {
    let (mut writer, first, second) = graph();
    upsert_edge_embeddings(
        &mut writer,
        "ASSERTS",
        "description",
        &vec![(first, bits(&[1.0, 0.0])), (second, bits(&[0.0, 1.0]))],
        None,
    )
    .unwrap();
    writer.recording = Some(Recording::new(true));
    for (edge, vector) in [(first, [0.8, 0.2]), (second, [0.3, 0.7])] {
        upsert_edge_embeddings(
            &mut writer,
            "ASSERTS",
            "description",
            &vec![(edge, bits(&vector))],
            None,
        )
        .unwrap();
    }
    let touches: Vec<_> = writer
        .recording
        .as_ref()
        .unwrap()
        .ops
        .iter()
        .filter_map(|op| match op {
            RawOp::EdgeEmbeddingBase(touch) => Some(touch),
            _ => None,
        })
        .collect();
    assert_eq!(touches.len(), 2);
    for touch in touches {
        assert_eq!(touch.base_stores, vec!["description".to_string()]);
        assert_eq!(touch.prior_cells.len(), 1);
    }
}

/// A relationship that is listed twice has one base.
#[test]
fn a_repeated_relationship_is_captured_once() {
    let (mut writer, first, second) = graph();
    upsert_edge_embeddings(
        &mut writer,
        "ASSERTS",
        "description",
        &vec![(first, bits(&[1.0, 0.0])), (second, bits(&[0.0, 1.0]))],
        None,
    )
    .unwrap();
    writer.recording = Some(Recording::new(true));
    capture_wal_edge_embedding_bases(
        &mut writer,
        "ASSERTS",
        "description",
        &vec![first, first, second, first],
    )
    .unwrap();
    let cells: usize = writer
        .recording
        .as_ref()
        .unwrap()
        .ops
        .iter()
        .map(|op| match op {
            RawOp::EdgeEmbeddingBase(touch) => touch.prior_cells.len(),
            _ => 0,
        })
        .sum();
    assert_eq!(cells, 2);
}
