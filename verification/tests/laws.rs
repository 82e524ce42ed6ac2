//! What holds of the library as a whole, on concrete graphs.

use kglite::edge_delete::remove_edge_with_embeddings;
use kglite::edge_generated::{install_generated_edge_embeddings, GeneratedEdgeEmbeddingWrite};
use kglite::edge_replace::{drop_edge_embedding_store, remove_edge_embeddings};
use kglite::edge_store::{edge_store_key, EdgeEmbeddingStore};
use kglite::edge_text_indexes::{
    build_edge_text_index, drop_edge_text_index, edge_text_index_store, refresh_edge_text_index,
};
use kglite::edge_vector_index::{build_edge_vector_index, EdgeVectorIndexOptions};
use kglite::edge_writes::upsert_edge_embeddings;
use kglite::embed::{EmbedHooks, EmbedMode, Embedder, PlainCalls};
use kglite::generation::embed_relationship_texts;
use kglite::graph::DirGraph;
use kglite::metric::VectorIndex;
use kglite::model_calls::ModelCalls;
use kglite::names::{store_name, text_column_of};
use kglite::node_embed::embed_property;
use kglite::statement::StatementCheckpoint;
use kglite::suggest::did_you_mean;
use kglite::text_documents::words;
use kglite::topology::{EdgeData, NodeData, Property};
use kglite::value::{EdgeIndex, Value};
use kglite::xml::xml_escape;
use std::cell::Cell;
use std::collections::HashMap;

fn bits(numbers: &[f32]) -> Vec<u32> {
    numbers.iter().map(|n| n.to_bits()).collect()
}

fn text(name: &str, value: &str) -> Property {
    Property { name: name.into(), value: Value::String(value.into()) }
}

/// Two Docs with a summary, and three `CITES` between them with a note.
fn graph() -> (DirGraph, Vec<EdgeIndex>) {
    let mut graph = DirGraph::new();
    let ids: Vec<_> = [1, 2]
        .into_iter()
        .map(|id| {
            graph.add_node(NodeData::new(
                Value::Int64(id),
                Value::Null,
                "Doc",
                vec![text("summary", &format!("summary {id}"))],
            ))
        })
        .collect();
    let edges = ["alpha", "beta", "gamma"]
        .into_iter()
        .map(|note| {
            graph.add_relationship(ids[0], ids[1], EdgeData::new("CITES", vec![text("note", note)]))
        })
        .collect();
    (graph, edges)
}

type Seen = (Vec<u32>, Vec<usize>, Option<String>, Option<String>, HashMap<usize, u64>, Option<VectorIndex>, usize);

fn seen(store: &EdgeEmbeddingStore) -> Seen {
    let numeric = &store.numeric;
    (
        numeric.data.clone(),
        numeric.slot_to_node.clone(),
        numeric.metric.clone(),
        numeric.model_id.clone(),
        numeric.text_hashes.clone(),
        numeric.index,
        numeric.delta_size(),
    )
}

fn stores(graph: &DirGraph) -> Vec<Option<Seen>> {
    ["note", "title"]
        .into_iter()
        .map(|column| {
            let (ty, name) = edge_store_key("CITES", column);
            graph.edge_embeddings.get(&ty, &name).map(seen)
        })
        .collect()
}

#[test]
fn a_failed_statement_changes_no_store() {
    let (mut graph, edges) = graph();
    upsert_edge_embeddings(
        &mut graph,
        "CITES",
        "note",
        &edges.iter().map(|edge| (*edge, bits(&[1.0, edge.index() as f32]))).collect(),
        None,
    )
    .unwrap();
    build_edge_vector_index(&mut graph, "CITES", "note", &EdgeVectorIndexOptions::default())
        .unwrap();
    let (found, version) = (stores(&graph), graph.version());

    let checkpoint = StatementCheckpoint::open(&mut graph);
    upsert_edge_embeddings(&mut graph, "CITES", "note", &vec![(edges[0], bits(&[9.0, 9.0]))], None)
        .unwrap();
    upsert_edge_embeddings(&mut graph, "CITES", "title", &vec![(edges[1], bits(&[3.0]))], None)
        .unwrap();
    install_generated_edge_embeddings(
        &mut graph,
        "CITES",
        "note",
        &GeneratedEdgeEmbeddingWrite {
            dimension: 2,
            metric: Some("euclidean".into()),
            final_model_id: Some("m".into()),
            generated: vec![(edges[1], bits(&[4.0, 4.0]), 44)],
            remove_selected: vec![edges[2]],
            affected: edges.clone(),
        },
    )
    .unwrap();
    build_edge_vector_index(&mut graph, "CITES", "note", &EdgeVectorIndexOptions::default())
        .unwrap();
    remove_edge_embeddings(&mut graph, "CITES", "note", &vec![edges[0]]).unwrap();
    assert!(remove_edge_with_embeddings(&mut graph, edges[1]).is_some());
    assert!(drop_edge_embedding_store(&mut graph, "CITES", "note").unwrap());
    assert_ne!(stores(&graph), found);
    checkpoint.rollback(&mut graph);

    assert_eq!(stores(&graph), found);
    assert_eq!(graph.version(), version);
    assert_eq!(graph.topology.edges_of_type("CITES"), edges);
}

#[test]
fn a_failed_statement_changes_no_text_index() {
    let (mut graph, _) = graph();
    build_edge_text_index(&mut graph, "CITES", "note", Some(7)).unwrap();
    let checkpoint = StatementCheckpoint::open(&mut graph);
    assert!(drop_edge_text_index(&mut graph, "CITES", "note"));
    build_edge_text_index(&mut graph, "CITES", "note", Some(1)).unwrap();
    checkpoint.rollback(&mut graph);
    let store = edge_text_index_store(&graph, "CITES", "note").unwrap();
    assert_eq!((store.auto_refresh_limit(), store.documents()), (7, 3));
}

#[test]
fn a_rolled_back_delete_has_its_document_again() {
    let (mut graph, edges) = graph();
    build_edge_text_index(&mut graph, "CITES", "note", None).unwrap();
    let checkpoint = StatementCheckpoint::open(&mut graph);
    remove_edge_with_embeddings(&mut graph, edges[1]).unwrap();
    checkpoint.rollback(&mut graph);
    refresh_edge_text_index(&mut graph, "CITES", "note");
    let store = edge_text_index_store(&graph, "CITES", "note").unwrap();
    assert_eq!(store.index.document(edges[1].index()), Some("beta"));
}

struct Counting {
    sent: Cell<usize>,
}

impl Embedder for Counting {
    fn dimension(&self) -> usize {
        1
    }

    fn embed(&self, texts: &Vec<String>) -> Result<Vec<Vec<u32>>, String> {
        self.sent.set(self.sent.get() + texts.len());
        Ok(texts.iter().map(|text| bits(&[text.len() as f32])).collect())
    }

    fn model_id(&self) -> Option<String> {
        Some("counting".into())
    }
}

#[test]
fn a_second_pass_sends_nothing() {
    let (mut graph, _) = graph();
    let model = Counting { sent: Cell::new(0) };
    let hooks = EmbedHooks::<PlainCalls>::default();
    for expected in [3, 3] {
        embed_relationship_texts(
            &mut graph,
            "CITES",
            "note",
            EmbedMode::Changed,
            &mut ModelCalls::new(&model),
            &hooks,
            None,
        )
        .unwrap();
        assert_eq!(model.sent.get(), expected);
    }
    for expected in [5, 5] {
        let mut called = ModelCalls::new(&model);
        embed_property(&mut graph, "Doc", "summary", EmbedMode::Changed, &mut called, &hooks)
            .unwrap();
        assert_eq!(model.sent.get(), expected);
    }
}

#[test]
fn a_store_name_reads_back_as_its_column() {
    assert_eq!(store_name("summary"), "summary_emb");
    assert_eq!(text_column_of("summary_emb"), Some("summary"));
    assert_eq!(text_column_of("summary"), None);
}

#[test]
fn words_are_runs_of_letters_and_digits() {
    assert_eq!(words("the quick, brown-fox 2x"), ["the", "quick", "brown", "fox", "2x"]);
    assert_eq!(words("  naïve café "), ["naïve", "café"]);
    assert!(words(" ,;").is_empty());
}

#[test]
fn escaped_text_holds_no_markup() {
    assert_eq!(xml_escape("a<b>\"c\"&d"), "a&lt;b&gt;&quot;c&quot;&amp;d");
}

#[test]
fn a_suggestion_names_a_close_candidate_only() {
    let candidates = vec!["summary".to_string(), "title".to_string()];
    assert!(did_you_mean("sumary", &candidates).contains("'summary'"));
    assert_eq!(did_you_mean("unrelated", &candidates), "");
}
