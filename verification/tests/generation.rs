//! Passes that make relationship vectors with a model.

use kglite::edge_generated::{install_generated_edge_embeddings, GeneratedEdgeEmbeddingWrite};
use kglite::edge_store::{edge_store_key, EdgeEmbeddingStore};
use kglite::embed::{
    final_model_id, EmbedHooks, EmbedMode, Embedder, Interrupt, NeverInterrupted, PlainCalls,
};
use kglite::generation::{
    embed_selected_relationships, EdgeGenerationRequest, EmbeddingExecutionService,
};
use kglite::generation_plan::{Pending, SelectedEdgeText};
use kglite::graph::DirGraph;
use kglite::model_calls::ModelCalls;
use kglite::topology::{EdgeData, NodeData};
use kglite::value::{EdgeIndex, Value};
use std::sync::atomic::{AtomicUsize, Ordering};

fn bits(numbers: &[f32]) -> Vec<u32> {
    numbers.iter().map(|n| n.to_bits()).collect()
}

fn store_of(graph: &DirGraph) -> &EdgeEmbeddingStore {
    let (ty, name) = edge_store_key("ASSERTS", "description");
    graph.edge_embeddings.get(&ty, &name).expect("store")
}

/// Stops every pass that asks.
struct Cancelled;

impl Interrupt for Cancelled {
    fn deadline_expired(&self) -> bool {
        false
    }

    fn is_cancelled(&self) -> bool {
        true
    }
}

enum Reply {
    Echo,
    WrongCount,
    WrongWidth,
    NonFinite,
    Error,
}

struct FakeEmbedder {
    dimension: usize,
    model_id: Option<String>,
    reply: Reply,
    loads: AtomicUsize,
    embeds: AtomicUsize,
    unloads: AtomicUsize,
}

impl FakeEmbedder {
    fn new(dimension: usize, reply: Reply) -> Self {
        Self {
            dimension,
            model_id: None,
            reply,
            loads: AtomicUsize::new(0),
            embeds: AtomicUsize::new(0),
            unloads: AtomicUsize::new(0),
        }
    }

    fn named(dimension: usize, model_id: &str, reply: Reply) -> Self {
        Self {
            model_id: Some(model_id.into()),
            ..Self::new(dimension, reply)
        }
    }
}

impl Embedder for FakeEmbedder {
    fn dimension(&self) -> usize {
        self.dimension
    }

    fn model_id(&self) -> Option<String> {
        self.model_id.clone()
    }

    fn embed(&self, texts: &Vec<String>) -> Result<Vec<Vec<u32>>, String> {
        self.embeds.fetch_add(1, Ordering::Relaxed);
        let vector = |n: f32| vec![n.to_bits(); self.dimension];
        match self.reply {
            Reply::Echo => Ok(texts.iter().map(|_| vector(0.5)).collect()),
            Reply::WrongCount => Ok(Vec::new()),
            Reply::WrongWidth => Ok(texts.iter().map(|_| bits(&[0.5])).collect()),
            Reply::NonFinite => Ok(texts.iter().map(|_| vector(f32::NAN)).collect()),
            Reply::Error => Err("callback failed".into()),
        }
    }

    fn load(&self) -> Result<(), String> {
        self.loads.fetch_add(1, Ordering::Relaxed);
        Ok(())
    }

    fn unload(&self) {
        self.unloads.fetch_add(1, Ordering::Relaxed);
    }
}

fn no_service<'a>() -> Option<&'a mut EmbeddingExecutionService<'a, FakeEmbedder, NeverInterrupted>> {
    None
}

fn pending(count: usize) -> Vec<Pending> {
    (0..count)
        .map(|slot| Pending {
            edge: EdgeIndex::new(slot),
            text: format!("text-{slot}"),
            text_hash: slot as u64,
        })
        .collect()
}

fn graph_with_parallel_edges() -> (DirGraph, EdgeIndex, EdgeIndex) {
    let mut graph = DirGraph::new();
    let source = graph.add_node(NodeData::new(
        Value::Int64(1),
        Value::String("source".into()),
        "Doc",
        Vec::new(),
    ));
    let target = graph.add_node(NodeData::new(
        Value::Int64(2),
        Value::String("target".into()),
        "Doc",
        Vec::new(),
    ));
    let first = graph.add_relationship(source, target, EdgeData::new("ASSERTS", Vec::new()));
    let second = graph.add_relationship(source, target, EdgeData::new("ASSERTS", Vec::new()));
    (graph, first, second)
}

fn seed(
    graph: &mut DirGraph,
    dimension: usize,
    model_id: Option<&str>,
    generated: Vec<(EdgeIndex, Vec<u32>, u64)>,
) {
    let affected = generated.iter().map(|(edge, _, _)| *edge).collect();
    install_generated_edge_embeddings(
        graph,
        "ASSERTS",
        "description",
        &GeneratedEdgeEmbeddingWrite {
            dimension,
            metric: Some("cosine".into()),
            final_model_id: model_id.map(str::to_string),
            generated,
            remove_selected: Vec::new(),
            affected,
        },
    )
    .unwrap();
}

fn request(selected: Vec<SelectedEdgeText>, mode: EmbedMode) -> EdgeGenerationRequest {
    EdgeGenerationRequest {
        connection_type: "ASSERTS".into(),
        text_property: "description".into(),
        selected,
        mode,
        batch_size: 2,
        metric: Some("cosine".into()),
    }
}

#[test]
fn generation_batches_and_unloads_once_after_success() {
    let model = FakeEmbedder::new(2, Reply::Echo);
    let mut service = EmbeddingExecutionService {
        model: ModelCalls::new(&model),
        interrupt: NeverInterrupted,
    };
    let generated = service
        .generate(&DirGraph::new(), &pending(3), 2, None::<&EmbedHooks<PlainCalls>>)
        .unwrap();
    assert_eq!(generated.len(), 3);
    assert_eq!(model.loads.load(Ordering::Relaxed), 1);
    assert_eq!(model.embeds.load(Ordering::Relaxed), 2);
    assert_eq!(model.unloads.load(Ordering::Relaxed), 1);
}

#[test]
fn every_post_load_failure_unloads_without_returning_partial_vectors() {
    for reply in [
        Reply::WrongCount,
        Reply::WrongWidth,
        Reply::NonFinite,
        Reply::Error,
    ] {
        let model = FakeEmbedder::new(2, reply);
        let mut service = EmbeddingExecutionService {
            model: ModelCalls::new(&model),
            interrupt: NeverInterrupted,
        };
        assert!(service
            .generate(&DirGraph::new(), &pending(2), 2, None::<&EmbedHooks<PlainCalls>>)
            .is_err());
        assert_eq!(model.loads.load(Ordering::Relaxed), 1);
        assert_eq!(model.unloads.load(Ordering::Relaxed), 1);
    }
}

#[test]
fn cancellation_before_load_performs_no_model_lifecycle_call() {
        let model = FakeEmbedder::new(2, Reply::Echo);
    let mut service = EmbeddingExecutionService {
        model: ModelCalls::new(&model),
        interrupt: Cancelled,
    };
    assert!(service
        .generate(&DirGraph::new(), &pending(1), 1, None::<&EmbedHooks<PlainCalls>>)
        .is_err());
    assert_eq!(model.loads.load(Ordering::Relaxed), 0);
    assert_eq!(model.embeds.load(Ordering::Relaxed), 0);
    assert_eq!(model.unloads.load(Ordering::Relaxed), 0);
}

#[test]
fn empty_pending_does_not_load_even_when_already_cancelled() {
        let model = FakeEmbedder::new(2, Reply::Echo);
    let mut service = EmbeddingExecutionService {
        model: ModelCalls::new(&model),
        interrupt: Cancelled,
    };
    assert!(service
        .generate(&DirGraph::new(), &Vec::new(), 1, None::<&EmbedHooks<PlainCalls>>)
        .unwrap()
        .is_empty());
    assert_eq!(model.loads.load(Ordering::Relaxed), 0);
    assert_eq!(model.unloads.load(Ordering::Relaxed), 0);
}

#[test]
fn provenance_requires_matching_prior_or_full_all_coverage() {
    assert_eq!(
        final_model_id(Some("A"), Some("B"), EmbedMode::All, true, true),
        None
    );
    assert_eq!(
        final_model_id(Some("B"), Some("B"), EmbedMode::All, true, true),
        Some("B".into())
    );
    assert_eq!(
        final_model_id(None, Some("B"), EmbedMode::All, false, false),
        Some("B".into())
    );
    // A store that already holds vectors of unknown provenance stays
    // unknown under an incremental pass.
    assert_eq!(
        final_model_id(None, Some("B"), EmbedMode::Changed, false, true),
        None
    );
}

#[test]
fn a_fresh_store_records_its_model_in_every_mode() {
    for mode in [EmbedMode::Missing, EmbedMode::Changed, EmbedMode::All] {
        assert_eq!(
            final_model_id(None, Some("B"), mode, false, false),
            Some("B".into()),
            "{mode:?}"
        );
    }
}

#[test]
fn default_mode_generation_stamps_the_model_on_a_store_it_creates() {
    let (mut graph, first, _) = graph_with_parallel_edges();
    let model = FakeEmbedder::named(2, "A", Reply::Echo);
    let mut service = EmbeddingExecutionService {
        model: ModelCalls::new(&model),
        interrupt: NeverInterrupted,
    };
    let report = embed_selected_relationships(
        &mut graph,
        request(
            vec![SelectedEdgeText {
                edge: first,
                text: Some("claim".into()),
            }],
            EmbedMode::Missing,
        ),
        Some(&mut service),
    )
    .unwrap();
    assert_eq!(report.model_id.as_deref(), Some("A"));
    let store = store_of(&graph);
    assert_eq!(store.model_id(), Some("A"));
}

#[test]
fn a_stamped_fresh_store_refuses_a_later_model_under_every_incremental_mode() {
    for mode in [EmbedMode::Missing, EmbedMode::Changed] {
        let (mut graph, first, second) = graph_with_parallel_edges();
        let first_model = FakeEmbedder::named(2, "A", Reply::Echo);
        embed_selected_relationships(
            &mut graph,
            request(
                vec![SelectedEdgeText {
                    edge: first,
                    text: Some("claim".into()),
                }],
                EmbedMode::Missing,
            ),
            Some(&mut EmbeddingExecutionService {
                model: ModelCalls::new(&first_model),
                interrupt: NeverInterrupted,
            }),
        )
        .unwrap();

        let second_model = FakeEmbedder::named(2, "B", Reply::Echo);
        let error = embed_selected_relationships(
            &mut graph,
            request(
                vec![SelectedEdgeText {
                    edge: second,
                    text: Some("other".into()),
                }],
                mode,
            ),
            Some(&mut EmbeddingExecutionService {
                model: ModelCalls::new(&second_model),
                interrupt: NeverInterrupted,
            }),
        )
        .unwrap_err();
        assert!(
            error.contains("model 'A'") && error.contains("mode='all'"),
            "{mode:?}: {error}"
        );
        assert_eq!(second_model.loads.load(Ordering::Relaxed), 0);
    }
}

#[test]
fn empty_selection_is_a_noop_without_an_embedder() {
    let (mut graph, _, _) = graph_with_parallel_edges();
    let before = graph.version();
    let report =
        embed_selected_relationships(&mut graph, request(Vec::new(), EmbedMode::All), no_service())
            .unwrap();
    assert_eq!(report.stored, 0);
    assert_eq!(report.dimension, 0);
    assert_eq!(report.model_id, None);
    assert_eq!(graph.version(), before);
    assert!(graph.edge_embeddings.is_empty());
}

#[test]
fn empty_selection_still_validates_syntactic_options() {
    let (mut graph, _, _) = graph_with_parallel_edges();
    let mut invalid = request(Vec::new(), EmbedMode::All);
    invalid.metric = Some("not-a-metric".into());
    assert!(embed_selected_relationships(&mut graph, invalid, no_service())
        .unwrap_err()
        .contains("unknown distance metric"));
    assert!(graph.edge_embeddings.is_empty());
}

#[test]
fn nonempty_selection_requires_an_embedder_before_mutation() {
    let (mut graph, first, _) = graph_with_parallel_edges();
    let before = graph.version();
    let error = embed_selected_relationships(
        &mut graph,
        request(
            vec![SelectedEdgeText {
                edge: first,
                text: Some("claim".into()),
            }],
            EmbedMode::All,
        ),
        no_service(),
    )
    .unwrap_err();
    assert!(error.contains("registered embedder"));
    assert_eq!(graph.version(), before);
    assert!(graph.edge_embeddings.is_empty());
}

#[test]
fn partial_all_model_swap_preserves_unselected_and_clears_provenance() {
    let (mut graph, first, second) = graph_with_parallel_edges();
    seed(
        &mut graph,
        2,
        Some("A"),
        vec![(first, bits(&[1.0, 0.0]), 11), (second, bits(&[0.0, 1.0]), 22)],
    );
    let model = FakeEmbedder::named(2, "B", Reply::Echo);
    let mut service = EmbeddingExecutionService {
        model: ModelCalls::new(&model),
        interrupt: NeverInterrupted,
    };
    let report = embed_selected_relationships(
        &mut graph,
        request(
            vec![SelectedEdgeText {
                edge: first,
                text: Some("changed".into()),
            }],
            EmbedMode::All,
        ),
        Some(&mut service),
    )
    .unwrap();

    let store = store_of(&graph);
    assert_eq!(store.get(first), Some(bits(&[0.5, 0.5]).as_slice()));
    assert_eq!(store.get(second), Some(bits(&[0.0, 1.0]).as_slice()));
    assert_eq!(store.text_hash(second), Some(22));
    assert_eq!(store.model_id(), None);
    assert_eq!(report.model_id, None);
}

#[test]
fn incremental_known_model_mismatch_rejects_before_load() {
    let (mut graph, first, _) = graph_with_parallel_edges();
    seed(&mut graph, 2, Some("A"), vec![(first, bits(&[1.0, 0.0]), 11)]);
    let before = graph.version();
    let model = FakeEmbedder::named(2, "B", Reply::Echo);
    let mut service = EmbeddingExecutionService {
        model: ModelCalls::new(&model),
        interrupt: NeverInterrupted,
    };
    assert!(embed_selected_relationships(
        &mut graph,
        request(
            vec![SelectedEdgeText {
                edge: first,
                text: Some("changed".into()),
            }],
            EmbedMode::Changed,
        ),
        Some(&mut service),
    )
    .unwrap_err()
    .contains("model 'A'"));
    assert_eq!(model.loads.load(Ordering::Relaxed), 0);
    assert_eq!(graph.version(), before);
}

#[test]
fn incremental_unknown_store_stays_unknown_after_refresh() {
    let (mut graph, first, _) = graph_with_parallel_edges();
    seed(&mut graph, 2, None, vec![(first, bits(&[1.0, 0.0]), 11)]);
    let model = FakeEmbedder::named(2, "B", Reply::Echo);
    let mut service = EmbeddingExecutionService {
        model: ModelCalls::new(&model),
        interrupt: NeverInterrupted,
    };
    let report = embed_selected_relationships(
        &mut graph,
        request(
            vec![SelectedEdgeText {
                edge: first,
                text: Some("changed".into()),
            }],
            EmbedMode::Changed,
        ),
        Some(&mut service),
    )
    .unwrap();
    let store = store_of(&graph);
    assert_eq!(store.get(first), Some(bits(&[0.5, 0.5]).as_slice()));
    assert_eq!(store.model_id(), None);
    assert_eq!(report.model_id, None);
}

#[test]
fn dimension_change_needs_only_prior_vector_coverage() {
    let (mut graph, first, second) = graph_with_parallel_edges();
    seed(&mut graph, 2, Some("A"), vec![(first, bits(&[1.0, 0.0]), 11)]);
    let model = FakeEmbedder::named(3, "B", Reply::Echo);
    let mut service = EmbeddingExecutionService {
        model: ModelCalls::new(&model),
        interrupt: NeverInterrupted,
    };
    let report = embed_selected_relationships(
        &mut graph,
        request(
            vec![SelectedEdgeText {
                edge: first,
                text: Some("changed".into()),
            }],
            EmbedMode::All,
        ),
        Some(&mut service),
    )
    .unwrap();

    let store = store_of(&graph);
    assert_eq!(store.dimension(), 3);
    assert_eq!(store.get(first), Some(bits(&[0.5, 0.5, 0.5]).as_slice()));
    assert_eq!(store.get(second), None);
    assert_eq!(store.model_id(), Some("B"));
    assert_eq!(report.model_id.as_deref(), Some("B"));
}

#[test]
fn dimension_change_with_unselected_vector_rejects_before_load() {
    let (mut graph, first, second) = graph_with_parallel_edges();
    seed(
        &mut graph,
        2,
        Some("A"),
        vec![(first, bits(&[1.0, 0.0]), 11), (second, bits(&[0.0, 1.0]), 22)],
    );
    let before = graph.version();
    let model = FakeEmbedder::named(3, "B", Reply::Echo);
    let mut service = EmbeddingExecutionService {
        model: ModelCalls::new(&model),
        interrupt: NeverInterrupted,
    };
    assert!(embed_selected_relationships(
        &mut graph,
        request(
            vec![SelectedEdgeText {
                edge: first,
                text: Some("changed".into()),
            }],
            EmbedMode::All,
        ),
        Some(&mut service),
    )
    .unwrap_err()
    .contains("retained vectors"));
    assert_eq!(model.loads.load(Ordering::Relaxed), 0);
    assert_eq!(graph.version(), before);
}

#[test]
fn missing_source_is_retained_incrementally_and_removed_by_all() {
    let (mut graph, first, _) = graph_with_parallel_edges();
    seed(&mut graph, 2, Some("A"), vec![(first, bits(&[1.0, 0.0]), 11)]);
    let model = FakeEmbedder::named(2, "A", Reply::Echo);
    let mut service = EmbeddingExecutionService {
        model: ModelCalls::new(&model),
        interrupt: NeverInterrupted,
    };
    let selected = vec![SelectedEdgeText {
        edge: first,
        text: None,
    }];
    let incremental = embed_selected_relationships(
        &mut graph,
        request(selected.clone(), EmbedMode::Changed),
        Some(&mut service),
    )
    .unwrap();
    assert_eq!(incremental.skipped, 1);
    assert_eq!(
        store_of(&graph).get(first),
        Some(bits(&[1.0, 0.0]).as_slice())
    );

    let rebuilt = embed_selected_relationships(
        &mut graph,
        request(selected, EmbedMode::All),
        Some(&mut service),
    )
    .unwrap();
    assert_eq!(rebuilt.removed_missing, 1);
    assert_eq!(rebuilt.stored, 0);
    assert_eq!(
        store_of(&graph).get(first),
        None
    );
}

#[test]
fn callback_failure_preserves_store_and_version() {
    let (mut graph, first, _) = graph_with_parallel_edges();
    seed(&mut graph, 2, Some("A"), vec![(first, bits(&[1.0, 0.0]), 11)]);
    let before = graph.version();
    let model = FakeEmbedder::named(2, "A", Reply::Error);
    let mut service = EmbeddingExecutionService {
        model: ModelCalls::new(&model),
        interrupt: NeverInterrupted,
    };
    assert!(embed_selected_relationships(
        &mut graph,
        request(
            vec![SelectedEdgeText {
                edge: first,
                text: Some("changed".into()),
            }],
            EmbedMode::All,
        ),
        Some(&mut service),
    )
    .is_err());
    let store = store_of(&graph);
    assert_eq!(store.get(first), Some(bits(&[1.0, 0.0]).as_slice()));
    assert_eq!(store.text_hash(first), Some(11));
    assert_eq!(store.model_id(), Some("A"));
    assert_eq!(graph.version(), before);
    assert_eq!(model.unloads.load(Ordering::Relaxed), 1);
}
