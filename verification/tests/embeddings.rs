//! Node embedding stores: ingest, vector indexes, and embedding passes.

use kglite::embed::{EmbedCalls, EmbedError, EmbedHooks, EmbedMode, EmbedOutcome, Embedder, PlainCalls};
use kglite::graph::{DirGraph, FieldAlias};
use kglite::metric::{HnswParams};
use kglite::model_calls::ModelCalls;
use kglite::names::store_key;
use kglite::node_embed::{embed_property, find_candidates, finish_property};
use kglite::node_index::{
    build_vector_index, drop_vector_index, has_vector_index, list_vector_indexes,
    refresh_vector_index, store_exists,
};
use kglite::node_ingest::{add_embeddings, set_embeddings, EmbeddingIngestReport};
use kglite::node_inventory::{list_embeddings, EmbeddingStoreInfo};
use kglite::ranking::{route_query, SearchMethod};
use kglite::store::EmbeddingStore;
use kglite::text_hash::text_hash;
use kglite::topology::{NodeData, Property};
use kglite::value::Value;
use std::cell::{Cell, RefCell};

fn bits(numbers: &[f32]) -> Vec<u32> {
    numbers.iter().map(|n| n.to_bits()).collect()
}

/// A graph of `Doc` nodes carrying a `summary` property.
fn docs(ids: &[i64]) -> DirGraph {
    let mut g = DirGraph::new();
    for &id in ids {
        g.add_node(NodeData::new(
            Value::Int64(id),
            Value::String(format!("d{id}")),
            "Doc",
            vec![Property {
                name: "summary".to_string(),
                value: Value::String(format!("text {id}")),
            }],
        ));
    }
    g
}

fn batch(entries: &[(i64, [f32; 2])]) -> Vec<(Value, Vec<u32>)> {
    entries
        .iter()
        .map(|(id, v)| (Value::Int64(*id), bits(v)))
        .collect()
}

fn store_of(g: &DirGraph) -> &EmbeddingStore {
    g.embeddings.get("Doc", "summary_emb").expect("store")
}

/// Whether a query may fold the outstanding vectors in by itself.
fn can_auto_refresh(store: &EmbeddingStore) -> bool {
    let mut copy = store.duplicate();
    copy.catch_up(false);
    !copy.index_is_stale()
}

fn alias(node_type: &str, field: &str) -> FieldAlias {
    FieldAlias { node_type: node_type.to_string(), field: field.to_string() }
}

/// `docs()` with `title_alias` registered as the type's title column.
fn docs_titled(ids: &[i64], title_alias: &str) -> DirGraph {
    let mut g = docs(ids);
    g.title_field_aliases.push(alias("Doc", title_alias));
    g
}

/// `docs()` with `id_alias` registered as the type's id column.
fn docs_ided(ids: &[i64], id_alias: &str) -> DirGraph {
    let mut g = docs(ids);
    g.id_field_aliases.push(alias("Doc", id_alias));
    g
}

/// Counts what a pass asked of the model, so "did this re-embed the corpus?"
/// is an assertion rather than an inference.
#[derive(Default)]
struct StubEmbedder {
    dimension: usize,
    /// Every text the pass sent, in order.
    seen: RefCell<Vec<String>>,
    loads: Cell<usize>,
    unloads: Cell<usize>,
    /// When set, `embed` fails with this message instead of answering.
    fails: Option<String>,
    /// When set, every returned vector has this length instead of `dimension`.
    wrong_width: Option<usize>,
    /// When set, the model answers one vector short of the batch it was given.
    short_batch: bool,
}

impl StubEmbedder {
    fn new(dimension: usize) -> Self {
        StubEmbedder {
            dimension,
            ..StubEmbedder::default()
        }
    }
    fn seen(&self) -> Vec<String> {
        self.seen.borrow().clone()
    }
    fn loads(&self) -> usize {
        self.loads.get()
    }
}

impl Embedder for StubEmbedder {
    fn dimension(&self) -> usize {
        self.dimension
    }
    fn embed(&self, texts: &Vec<String>) -> Result<Vec<Vec<u32>>, String> {
        if let Some(message) = &self.fails {
            return Err(message.clone());
        }
        self.seen.borrow_mut().extend_from_slice(texts);
        let width = self.wrong_width.unwrap_or(self.dimension);
        let answered = texts.len() - usize::from(self.short_batch && !texts.is_empty());
        Ok((0..answered).map(|i| bits(&vec![i as f32; width])).collect())
    }
    fn model_id(&self) -> Option<String> {
        Some("stub".to_string())
    }
    fn load(&self) -> Result<(), String> {
        self.loads.set(self.loads.get() + 1);
        Ok(())
    }
    fn unload(&self) {
        self.unloads.set(self.unloads.get() + 1);
    }
}

fn embed_docs(
    graph: &mut DirGraph,
    model: &StubEmbedder,
    mode: EmbedMode,
) -> Result<EmbedOutcome, EmbedError> {
    let mut model = ModelCalls::new(model);
    embed_property(graph, "Doc", "summary", mode, &mut model, &EmbedHooks::default())
}

/// Overwrites one node's text, so the next `Changed` pass has exactly one stale
/// row.
fn retext(graph: &mut DirGraph, id: i64, text: &str) {
    let slot = graph.lookup_by_id("Doc", &Value::Int64(id)).unwrap().index();
    let node = graph.topology.nodes[slot].as_mut().unwrap();
    node.properties[0].value = Value::String(text.to_string());
}

/// The node slot of the `n`th `Doc`; `docs()` adds them in id order.
fn doc_slot(graph: &DirGraph, nth: usize) -> usize {
    graph.type_members("Doc").expect("Doc nodes")[nth].index()
}

#[test]
fn set_writes_the_store_and_bumps_the_version() {
    let mut g = docs(&[1, 2]);
    let before = g.version();
    let report = set_embeddings(
        &mut g,
        "Doc",
        "summary",
        None,
        &batch(&[(1, [1.0, 0.0]), (2, [0.0, 1.0])]),
    )
    .unwrap();

    assert_eq!(
        report,
        EmbeddingIngestReport {
            embeddings_stored: 2,
            dimension: 2,
            skipped: 0,
            store_created: true,
        }
    );
    assert_eq!(store_of(&g).len(), 2);
    assert!(
        g.version() > before,
        "a non-empty write must bump the version — a receiver that decides \
         'did this write anything?' by comparing versions drops the write otherwise"
    );
}

#[test]
fn empty_batch_is_a_true_no_op_and_does_not_bump() {
    let mut g = docs(&[1]);
    let before = g.version();
    let empty: Vec<(Value, Vec<u32>)> = Vec::new();
    let report = set_embeddings(&mut g, "Doc", "summary", None, &empty).unwrap();

    assert_eq!(report, EmbeddingIngestReport::default());
    assert!(g.embeddings.is_empty());
    assert_eq!(g.version(), before);
}

#[test]
fn unresolvable_ids_are_skipped_and_counted() {
    let mut g = docs(&[1]);
    let report = set_embeddings(
        &mut g,
        "Doc",
        "summary",
        None,
        &batch(&[(1, [1.0, 0.0]), (99, [0.0, 1.0])]),
    )
    .unwrap();

    assert_eq!(report.embeddings_stored, 1);
    assert_eq!(report.skipped, 1);
}

/// Every id missing means nothing is written — including no empty store, and
/// no version bump for a call that stored nothing.
#[test]
fn all_ids_missing_writes_nothing() {
    let mut g = docs(&[1]);
    let before = g.version();
    let report =
        set_embeddings(&mut g, "Doc", "summary", None, &batch(&[(99, [1.0, 0.0])])).unwrap();

    assert_eq!(report.embeddings_stored, 0);
    assert_eq!(report.dimension, 0);
    assert_eq!(report.skipped, 1);
    assert!(g.embeddings.is_empty());
    assert_eq!(g.version(), before);
}

#[test]
fn mismatched_dimensions_are_rejected_before_any_write() {
    let mut g = docs(&[1, 2]);
    let err = set_embeddings(
        &mut g,
        "Doc",
        "summary",
        None,
        &vec![
            (Value::Int64(1), bits(&[1.0, 0.0])),
            (Value::Int64(2), bits(&[1.0, 0.0, 0.0])),
        ],
    )
    .unwrap_err();

    assert!(err.contains("Inconsistent embedding dimensions"), "{err}");
    assert!(
        g.embeddings.is_empty(),
        "validate-then-apply: a rejected batch leaves the graph untouched"
    );
}

#[test]
fn unknown_node_type_is_rejected() {
    let mut g = docs(&[1]);
    let err =
        set_embeddings(&mut g, "Ghost", "summary", None, &batch(&[(1, [1.0, 0.0])])).unwrap_err();
    assert!(err.contains("does not exist"), "{err}");
}

/// The typo guard: passing the *store* name where the *column* name belongs.
#[test]
fn unknown_source_column_is_rejected() {
    let mut g = docs(&[1]);
    let err = set_embeddings(
        &mut g,
        "Doc",
        "summary_emb",
        None,
        &batch(&[(1, [1.0, 0.0])]),
    )
    .unwrap_err();
    assert!(err.contains("not found on any 'Doc' node"), "{err}");
}

#[test]
fn add_applies_the_same_source_column_check() {
    let mut g = docs(&[1]);
    let err = add_embeddings(
        &mut g,
        "Doc",
        "summary_emb",
        None,
        &batch(&[(1, [1.0, 0.0])]),
    )
    .unwrap_err();
    assert!(err.contains("not found on any 'Doc' node"), "{err}");
    assert!(g.embeddings.is_empty());
}

#[test]
fn add_creates_then_extends_one_store() {
    let mut g = docs(&[1, 2]);
    let first = add_embeddings(&mut g, "Doc", "summary", None, &batch(&[(1, [1.0, 0.0])])).unwrap();
    assert!(first.store_created);
    assert_eq!(first.embeddings_stored, 1);

    let second = add_embeddings(&mut g, "Doc", "summary", None, &batch(&[(2, [0.0, 1.0])])).unwrap();
    assert!(!second.store_created);
    assert_eq!(second.embeddings_stored, 2, "the first batch survived");
    assert_eq!(g.embeddings.len(), 1);
}

#[test]
fn add_enforces_the_existing_store_dimension() {
    let mut g = docs(&[1, 2]);
    add_embeddings(&mut g, "Doc", "summary", None, &batch(&[(1, [1.0, 0.0])])).unwrap();
    let err = add_embeddings(
        &mut g,
        "Doc",
        "summary",
        None,
        &vec![(Value::Int64(2), bits(&[1.0, 0.0, 0.0]))],
    )
    .unwrap_err();

    assert!(err.contains("store has 2 but got 3"), "{err}");
    assert_eq!(store_of(&g).len(), 1, "the rejected batch wrote nothing");
}

#[test]
fn set_replaces_the_store_rather_than_extending_it() {
    let mut g = docs(&[1, 2]);
    add_embeddings(&mut g, "Doc", "summary", None, &batch(&[(1, [1.0, 0.0])])).unwrap();
    let report = set_embeddings(&mut g, "Doc", "summary", None, &batch(&[(2, [0.0, 1.0])])).unwrap();

    assert_eq!(report.embeddings_stored, 1);
    assert_eq!(store_of(&g).len(), 1);
}

#[test]
fn metric_is_recorded_on_the_creating_call() {
    let mut g = docs(&[1, 2]);
    add_embeddings(
        &mut g,
        "Doc",
        "summary",
        Some("euclidean"),
        &batch(&[(1, [1.0, 0.0])]),
    )
    .unwrap();
    assert_eq!(store_of(&g).metric.as_deref(), Some("euclidean"));

    // A later add extends the existing store, whose metric already stands.
    add_embeddings(
        &mut g,
        "Doc",
        "summary",
        Some("cosine"),
        &batch(&[(2, [0.0, 1.0])]),
    )
    .unwrap();
    assert_eq!(store_of(&g).metric.as_deref(), Some("euclidean"));
}

#[test]
fn index_build_reports_defaults_and_the_resolved_metric() {
    let mut g = docs(&[1, 2, 3]);
    set_embeddings(
        &mut g,
        "Doc",
        "summary",
        Some("euclidean"),
        &batch(&[(1, [1.0, 0.0]), (2, [0.0, 1.0]), (3, [0.5, 0.5])]),
    )
    .unwrap();

    let report =
        build_vector_index(&mut g, "Doc", "summary", None, None, None, None, None).unwrap();
    assert_eq!(report.indexed, 3);
    assert_eq!(
        report.metric, "euclidean",
        "the store's metric is inherited"
    );
    assert_eq!(report.m, HnswParams::default().m);
    assert!(store_of(&g).has_index());
}

#[test]
fn index_build_clamps_out_of_range_tuning() {
    let mut g = docs(&[1, 2]);
    set_embeddings(
        &mut g,
        "Doc",
        "summary",
        None,
        &batch(&[(1, [1.0, 0.0]), (2, [0.0, 1.0])]),
    )
    .unwrap();
    let report = build_vector_index(
        &mut g,
        "Doc",
        "summary",
        Some(0),
        Some(0),
        Some(0),
        None,
        None,
    )
    .unwrap();
    assert_eq!(report.m, 2);
}

/// A vector write does not cost the index: neither arm of `set_embedding`
/// moves an existing slot, so the write is recorded as a catch-up delta and
/// the index stays.
#[test]
fn a_vector_write_becomes_a_catch_up_delta() {
    let mut g = docs(&[1, 2, 3]);
    set_embeddings(
        &mut g,
        "Doc",
        "summary",
        None,
        &batch(&[(1, [1.0, 0.0]), (2, [0.0, 1.0])]),
    )
    .unwrap();
    build_vector_index(&mut g, "Doc", "summary", None, None, None, None, None).unwrap();
    assert!(store_of(&g).has_index());
    assert!(
        !store_of(&g).index_is_stale(),
        "a fresh build covers itself"
    );

    // Replaced in place: same slot, new content.
    add_embeddings(&mut g, "Doc", "summary", None, &batch(&[(2, [0.3, 0.7])])).unwrap();
    assert!(store_of(&g).has_index(), "the slot layout did not move");
    assert_eq!(store_of(&g).delta_size(), 1);

    // Appended: a slot above the index's coverage.
    add_embeddings(&mut g, "Doc", "summary", None, &batch(&[(3, [0.9, 0.1])])).unwrap();
    assert_eq!(store_of(&g).delta_size(), 2);
    assert_eq!(store_of(&g).freshness.covered, 2, "not yet caught up");

    assert_eq!(refresh_vector_index(&mut g, "Doc", "summary"), Ok(2));
    assert!(!store_of(&g).index_is_stale());
    assert_eq!(store_of(&g).freshness.covered, 3);
}

/// Catch-up indexes vectors; it never creates them. A node with no embedding
/// is reported as unembedded and stays out of the delta, so no query can turn
/// into an embedding run.
#[test]
fn catch_up_never_embeds_an_unembedded_node() {
    let mut g = docs(&[1, 2, 3]);
    set_embeddings(
        &mut g,
        "Doc",
        "summary",
        None,
        &batch(&[(1, [1.0, 0.0]), (2, [0.0, 1.0])]),
    )
    .unwrap();
    build_vector_index(&mut g, "Doc", "summary", None, None, None, None, None).unwrap();

    let status = list_vector_indexes(&g);
    assert_eq!(status.len(), 1);
    assert_eq!(status[0].unembedded, 1, "Doc 3 has no vector");
    assert_eq!(status[0].delta, 0, "and is therefore not a delta");
    assert!(!status[0].stale);

    refresh_vector_index(&mut g, "Doc", "summary").unwrap();
    assert_eq!(store_of(&g).len(), 2, "the refresh embedded nothing");
    assert_eq!(list_vector_indexes(&g)[0].unembedded, 1);
}

#[test]
fn refresh_vector_index_refuses_without_an_index_or_a_store() {
    let mut g = docs(&[1, 2, 3]);
    set_embeddings(
        &mut g,
        "Doc",
        "summary",
        None,
        &batch(&[(1, [1.0, 0.0]), (2, [0.0, 1.0])]),
    )
    .unwrap();
    let error = refresh_vector_index(&mut g, "Doc", "summary").unwrap_err();
    assert!(
        error.contains("no vector index on 'Doc.summary_emb'"),
        "{error}"
    );
    assert!(
        error.contains("build_vector_index('Doc', 'summary')"),
        "{error}"
    );
    let error = refresh_vector_index(&mut g, "Doc", "nope").unwrap_err();
    assert!(
        error.contains("no embedding store 'Doc.nope_emb'"),
        "{error}"
    );

    build_vector_index(&mut g, "Doc", "summary", None, None, None, None, None).unwrap();
    assert_eq!(refresh_vector_index(&mut g, "Doc", "summary"), Ok(0));
    assert!(drop_vector_index(&mut g, "Doc", "summary"));
    assert!(refresh_vector_index(&mut g, "Doc", "summary").is_err());

    // Read-only does not turn the refusal back into a silent zero.
    g.read_only = true;
    assert!(refresh_vector_index(&mut g, "Doc", "summary").is_err());
}

/// The ceiling is the caller's, and a rebuild keeps it.
#[test]
fn the_auto_refresh_limit_bounds_inline_catch_up() {
    let mut g = docs(&[1, 2, 3, 4]);
    set_embeddings(
        &mut g,
        "Doc",
        "summary",
        None,
        &batch(&[(1, [1.0, 0.0]), (2, [0.0, 1.0])]),
    )
    .unwrap();
    build_vector_index(&mut g, "Doc", "summary", None, None, None, None, Some(1)).unwrap();
    assert_eq!(store_of(&g).auto_refresh_limit(), 1);

    add_embeddings(&mut g, "Doc", "summary", None, &batch(&[(3, [0.9, 0.1])])).unwrap();
    assert!(
        can_auto_refresh(store_of(&g)),
        "one vector is at the limit"
    );

    add_embeddings(&mut g, "Doc", "summary", None, &batch(&[(4, [0.1, 0.9])])).unwrap();
    assert!(
        !can_auto_refresh(store_of(&g)),
        "two is over it — the query serves an exact scan instead"
    );
    assert!(store_of(&g).index_is_stale());

    build_vector_index(&mut g, "Doc", "summary", None, None, None, None, None).unwrap();
    assert_eq!(
        store_of(&g).auto_refresh_limit(),
        1,
        "a rebuild keeps the ceiling its author set"
    );
}

#[test]
fn index_build_requires_a_store() {
    let mut g = docs(&[1]);
    let err =
        build_vector_index(&mut g, "Doc", "summary", None, None, None, None, None).unwrap_err();
    assert!(
        err.contains("No embedding store 'Doc.summary_emb'"),
        "{err}"
    );
}

/// Passing the *store* name where the text column belongs derives
/// `summary_emb_emb`, which can never exist. The error has to name the column
/// that would have worked, or the caller re-reads their own spelling as
/// correct.
#[test]
fn index_build_on_a_store_name_names_the_text_column() {
    let mut g = docs(&[1]);
    set_embeddings(&mut g, "Doc", "summary", None, &batch(&[(1, [1.0, 0.0])])).unwrap();

    let err =
        build_vector_index(&mut g, "Doc", "summary_emb", None, None, None, None, None).unwrap_err();
    assert!(
        err.contains("No embedding store 'Doc.summary_emb_emb'"),
        "{err}"
    );
    assert!(err.contains("Did you mean 'summary'?"), "{err}");
    assert!(
        err.contains("build_vector_index() takes the text column"),
        "{err}"
    );
}

/// A genuinely unknown column has no suffix story to tell, so the error falls
/// back to what the type does have embedded.
#[test]
fn index_build_on_an_unknown_column_lists_the_embedded_columns() {
    let mut g = docs(&[1]);
    set_embeddings(&mut g, "Doc", "summary", None, &batch(&[(1, [1.0, 0.0])])).unwrap();

    let err = build_vector_index(&mut g, "Doc", "nope", None, None, None, None, None).unwrap_err();
    assert!(err.contains("No embedding store 'Doc.nope_emb'"), "{err}");
    assert!(err.contains("summary"), "{err}");
}

#[test]
fn poincare_stays_on_the_exact_path() {
    let mut g = docs(&[1]);
    set_embeddings(
        &mut g,
        "Doc",
        "summary",
        Some("poincare"),
        &batch(&[(1, [0.1, 0.2])]),
    )
    .unwrap();
    let err =
        build_vector_index(&mut g, "Doc", "summary", None, None, None, None, None).unwrap_err();
    assert!(err.contains("poincare"), "{err}");
}

#[test]
fn store_key_derives_the_emb_suffix_once() {
    assert_eq!(
        store_key("Doc", "summary"),
        ("Doc".to_string(), "summary_emb".to_string())
    );
}

#[test]
fn list_embeddings_projects_source_column_and_defaults_metric() {
    let mut g = docs(&[1, 2]);
    assert!(
        list_embeddings(&g).is_empty(),
        "a graph with no stores lists nothing"
    );

    set_embeddings(
        &mut g,
        "Doc",
        "summary",
        Some("dot_product"),
        &batch(&[(1, [1.0, 0.0]), (2, [0.0, 1.0])]),
    )
    .unwrap();

    let listing = list_embeddings(&g);
    assert_eq!(
        listing,
        vec![EmbeddingStoreInfo {
            node_type: "Doc".to_string(),
            // both spellings: the source column this API takes, and the store
            // name Cypher's vector_score takes
            text_column: "summary".to_string(),
            store_name: "summary_emb".to_string(),
            dimension: 2,
            count: 2,
            metric: "dot_product".to_string(),
        }]
    );
}

#[test]
fn list_embeddings_defaults_an_unrecorded_metric_to_cosine() {
    let mut g = docs(&[1]);
    set_embeddings(&mut g, "Doc", "summary", None, &batch(&[(1, [1.0, 0.0])])).unwrap();
    assert_eq!(list_embeddings(&g)[0].metric, "cosine");
}

#[test]
fn a_per_type_title_alias_is_an_accepted_source_column() {
    let mut g = docs_titled(&[1, 2], "name");
    let report = set_embeddings(&mut g, "Doc", "name", None, &batch(&[(1, [1.0, 0.0])])).unwrap();
    assert_eq!(report.embeddings_stored, 1);
}

#[test]
fn a_per_type_id_alias_is_an_accepted_source_column() {
    let mut g = docs_ided(&[1, 2], "doc_no");
    let report = set_embeddings(&mut g, "Doc", "doc_no", None, &batch(&[(1, [1.0, 0.0])])).unwrap();
    assert_eq!(report.embeddings_stored, 1);
}

/// No alias map at all: `name` still resolves — structurally, to the title —
/// exactly as `MATCH (n:Doc) RETURN n.name` does.
#[test]
fn the_soft_alias_name_is_accepted_without_any_alias_map() {
    let mut g = docs(&[1]);
    assert!(g.title_field_aliases.is_empty() && g.id_field_aliases.is_empty());
    let report = set_embeddings(&mut g, "Doc", "name", None, &batch(&[(1, [1.0, 0.0])])).unwrap();
    assert_eq!(report.embeddings_stored, 1);
}

#[test]
fn the_soft_alias_label_is_accepted() {
    let mut g = docs(&[1]);
    let report = set_embeddings(&mut g, "Doc", "label", None, &batch(&[(1, [1.0, 0.0])])).unwrap();
    assert_eq!(report.embeddings_stored, 1);
}

#[test]
fn add_embeddings_accepts_the_same_identity_aliases() {
    let mut g = docs_titled(&[1, 2], "name");
    let report = add_embeddings(&mut g, "Doc", "name", None, &batch(&[(1, [1.0, 0.0])])).unwrap();
    assert_eq!(report.embeddings_stored, 1);
}

#[test]
fn the_store_is_keyed_by_the_spelling_the_caller_used() {
    let mut g = docs_titled(&[1], "name");
    set_embeddings(&mut g, "Doc", "name", None, &batch(&[(1, [1.0, 0.0])])).unwrap();
    assert!(g
        .embeddings
        .contains("Doc", "name_emb"));
    assert!(!g
        .embeddings
        .contains("Doc", "title_emb"));
}

/// Accepting aliases must not degrade the typo guard into "anything goes".
#[test]
fn an_unknown_column_is_still_rejected_on_an_aliased_type() {
    let mut g = docs_titled(&[1], "name");
    let err =
        set_embeddings(&mut g, "Doc", "headline", None, &batch(&[(1, [1.0, 0.0])])).unwrap_err();
    assert!(err.contains("not found on any 'Doc' node"), "{err}");
}

/// Aliases are per type: another type's title column is not this type's.
#[test]
fn another_types_title_alias_is_not_accepted() {
    let mut g = docs(&[1]);
    g.title_field_aliases.push(alias("Other", "headline"));
    let err =
        set_embeddings(&mut g, "Doc", "headline", None, &batch(&[(1, [1.0, 0.0])])).unwrap_err();
    assert!(err.contains("not found on any 'Doc' node"), "{err}");
}

/// The store-name typo stays rejected even on a graph that has alias maps —
/// registering aliases must not make the `_emb` guard fall through.
#[test]
fn the_store_name_typo_is_still_rejected_on_an_aliased_type() {
    let mut g = docs_titled(&[1], "name");
    let err = set_embeddings(
        &mut g,
        "Doc",
        "summary_emb",
        None,
        &batch(&[(1, [1.0, 0.0])]),
    )
    .unwrap_err();
    assert!(err.contains("not found on any 'Doc' node"), "{err}");
}

#[test]
fn changed_mode_embeds_only_the_rows_whose_text_moved() {
    let mut g = docs(&[1, 2, 3]);
    let model = StubEmbedder::new(2);

    let first = embed_docs(&mut g, &model, EmbedMode::Changed).unwrap();
    assert_eq!(first.embedded, 3);
    assert_eq!(first.dimension, 2);
    assert_eq!(model.seen().len(), 3);

    retext(&mut g, 2, "a different summary");
    let second = embed_docs(&mut g, &model, EmbedMode::Changed).unwrap();
    assert_eq!(second.embedded, 1, "only the retexted node");
    assert_eq!(second.skipped_existing, 2);
    assert_eq!(second.reembedded_changed, 1);
    assert_eq!(model.seen()[3..], ["a different summary".to_string()]);

    let third = embed_docs(&mut g, &model, EmbedMode::Changed).unwrap();
    assert_eq!(third.embedded, 0, "nothing moved since");
    assert_eq!(model.seen().len(), 4, "and the model was asked nothing");
}

#[test]
fn all_mode_rebuilds_the_store_and_missing_mode_ignores_stale_text() {
    let mut g = docs(&[1, 2]);
    let model = StubEmbedder::new(2);
    embed_docs(&mut g, &model, EmbedMode::Missing).unwrap();
    retext(&mut g, 1, "moved on");

    let missing = embed_docs(&mut g, &model, EmbedMode::Missing).unwrap();
    assert_eq!(
        missing.embedded, 0,
        "`missing` asks whether a vector exists, never whether it is current"
    );
    assert_eq!(missing.skipped_existing, 2);

    let all = embed_docs(&mut g, &model, EmbedMode::All).unwrap();
    assert_eq!(all.embedded, 2, "`all` rebuilds the store from scratch");
    assert_eq!(all.skipped_existing, 0);
}

#[test]
fn an_idle_pass_leaves_the_model_alone_unless_the_caller_wants_its_dimension() {
    let mut g = docs(&[1]);
    let model = StubEmbedder::new(2);
    embed_docs(&mut g, &model, EmbedMode::Changed).unwrap();
    assert_eq!(model.loads(), 1);

    let idle = embed_docs(&mut g, &model, EmbedMode::Changed).unwrap();
    assert_eq!(idle.embedded, 0);
    assert_eq!(
        model.loads(),
        1,
        "a rebuild that changed no note must not pay a model load"
    );
    assert_eq!(
        idle.dimension, 2,
        "the store's own dimension answers without the model"
    );

    let hooks = EmbedHooks {
        batch_size: 256,
        load_when_idle: true,
        calls: PlainCalls
    };
    let mut called = ModelCalls::new(&model);
    let asked =
        embed_property(&mut g, "Doc", "summary", EmbedMode::Changed, &mut called, &hooks).unwrap();
    assert_eq!(asked.embedded, 0);
    assert_eq!(model.loads(), 2, "an idle pass still reports a dimension");
}

#[test]
fn a_label_with_no_nodes_is_a_no_op_and_an_unknown_column_is_an_error() {
    let mut g = docs(&[1]);
    let model = StubEmbedder::new(2);

    let empty = embed_property(
        &mut g,
        "Nothing",
        "summary",
        EmbedMode::Changed,
        &mut ModelCalls::new(&model),
        &EmbedHooks::default(),
    )
    .unwrap();
    assert_eq!(empty, EmbedOutcome::default(), "nothing to embed, no model");
    assert_eq!(model.loads(), 0);

    let bad = embed_property(
        &mut g,
        "Doc",
        "nowhere",
        EmbedMode::Changed,
        &mut ModelCalls::new(&model),
        &EmbedHooks::default(),
    );
    assert!(
        matches!(bad, Err(EmbedError::Column(ref m)) if m.contains("nowhere")),
        "{bad:?}"
    );
}

#[test]
fn a_dimension_change_is_refused_and_leaves_the_store_untouched() {
    let mut g = docs(&[1, 2]);
    embed_docs(&mut g, &StubEmbedder::new(2), EmbedMode::All).unwrap();
    retext(&mut g, 1, "changed");

    let wider = StubEmbedder::new(8);
    let refused = embed_docs(&mut g, &wider, EmbedMode::Changed);
    assert_eq!(refused, Err(EmbedError::Dimension { store: 2, model: 8 }));
    assert_eq!(store_of(&g).dimension, 2, "the store is as it was");
    assert_eq!(wider.unloads.get(), 1);

    let rebuilt = embed_docs(&mut g, &wider, EmbedMode::All).unwrap();
    assert_eq!(rebuilt.dimension, 8, "`all` is the way through");
    assert_eq!(store_of(&g).dimension, 8);
}

#[test]
fn a_failing_model_writes_nothing_and_is_still_unloaded() {
    let mut g = docs(&[1, 2]);
    let broken = StubEmbedder {
        fails: Some("the model is on fire".to_string()),
        ..StubEmbedder::new(2)
    };
    assert_eq!(
        embed_docs(&mut g, &broken, EmbedMode::Changed),
        Err(EmbedError::Model("the model is on fire".to_string()))
    );
    assert_eq!(broken.unloads.get(), 1);
    assert!(
        g.embeddings.is_empty(),
        "a failed pass leaves the graph as it found it"
    );

    let lying = StubEmbedder {
        wrong_width: Some(5),
        ..StubEmbedder::new(2)
    };
    let refused = embed_docs(&mut g, &lying, EmbedMode::Changed);
    assert!(
        matches!(refused, Err(EmbedError::Output(ref m)) if m.contains("dimension 5")),
        "{refused:?}"
    );
    assert!(g.embeddings.is_empty());

    // A model that answers one vector short would otherwise write the batch's
    // *first* texts' vectors against the right slots and drop the rest in
    // silence — the pass would report every text embedded.
    let short = StubEmbedder {
        short_batch: true,
        ..StubEmbedder::new(2)
    };
    let refused = embed_docs(&mut g, &short, EmbedMode::Changed);
    assert!(
        matches!(refused, Err(EmbedError::Output(ref m)) if m.contains("1 vectors for 2 texts")),
        "{refused:?}"
    );
    assert!(g.embeddings.is_empty());
}

#[test]
fn a_written_pass_stamps_the_model_and_the_hashes_a_carry_moves() {
    let mut g = docs(&[1]);
    embed_docs(&mut g, &StubEmbedder::new(2), EmbedMode::Changed).unwrap();
    let store = store_of(&g);
    assert_eq!(store.model_id.as_deref(), Some("stub"));
    let idx = doc_slot(&g, 0);
    assert!(store.get_embedding(idx).is_some());
    assert!(
        store.text_hash(idx) == Some(text_hash("text 1")),
        "the hash beside the vector is the text that produced it"
    );
}

#[test]
fn an_explicit_build_metric_becomes_the_stores_metric() {
    let mut g = docs(&[1, 2, 3]);
    set_embeddings(
        &mut g,
        "Doc",
        "summary",
        None,
        &batch(&[(1, [1.0, 0.0]), (2, [0.0, 1.0]), (3, [0.5, 0.5])]),
    )
    .unwrap();
    assert_eq!(store_of(&g).metric, None);

    let report = build_vector_index(
        &mut g,
        "Doc",
        "summary",
        None,
        None,
        None,
        Some("euclidean"),
        None,
    )
    .unwrap();
    assert_eq!(report.metric, "euclidean");
    assert_eq!(store_of(&g).metric.as_deref(), Some("euclidean"));
    assert_eq!(
        list_embeddings(&g)
            .into_iter()
            .map(|info| info.metric)
            .collect::<Vec<_>>(),
        vec!["euclidean".to_string()]
    );
}

/// A build metric the store contradicts is refused rather than silently
/// producing an index the store's own default scoring cannot use.
#[test]
fn a_build_metric_contradicting_the_store_is_refused() {
    let mut g = docs(&[1, 2]);
    set_embeddings(
        &mut g,
        "Doc",
        "summary",
        Some("cosine"),
        &batch(&[(1, [1.0, 0.0]), (2, [0.0, 1.0])]),
    )
    .unwrap();
    let error = build_vector_index(
        &mut g,
        "Doc",
        "summary",
        None,
        None,
        None,
        Some("euclidean"),
        None,
    )
    .unwrap_err();
    assert!(error.contains("declares metric 'cosine'"), "{error}");
    assert!(error.contains("requested 'euclidean'"), "{error}");
    assert!(!store_of(&g).has_index(), "the refusal builds nothing");
    assert_eq!(store_of(&g).metric.as_deref(), Some("cosine"));

    // The store's own metric still builds, and a metric-less build is unchanged.
    build_vector_index(
        &mut g,
        "Doc",
        "summary",
        None,
        None,
        None,
        Some("cosine"),
        None,
    )
    .unwrap();
    assert!(store_of(&g).has_index());
    assert_eq!(store_of(&g).metric.as_deref(), Some("cosine"));
}

/// The node mirror of the relationship manual-write rule: a caller-supplied
/// vector owns its cell, so `add_embeddings` drops the generated `text_hash`
/// and the store-wide model stamp even when the vector it writes is
/// byte-identical to the one already there. Without that, `embed_texts`
/// (`mode='changed'`) compares the generated hash and skips a node a manual
/// write took over.
#[test]
fn a_manual_add_of_an_identical_vector_clears_the_generated_hash() {
    let mut g = docs(&[1, 2]);
    set_embeddings(
        &mut g,
        "Doc",
        "summary",
        None,
        &batch(&[(1, [1.0, 0.0]), (2, [0.0, 1.0])]),
    )
    .unwrap();
    {
        let place = g.embeddings.position("Doc", "summary_emb").expect("store");
        let store = g.embeddings.at_mut(place);
        store.set_text_hash(0, 11);
        store.set_text_hash(1, 22);
        store.model_id = Some("model-a".to_string());
    }

    add_embeddings(&mut g, "Doc", "summary", None, &batch(&[(1, [1.0, 0.0])])).unwrap();

    let store = store_of(&g);
    assert_eq!(store.get_embedding(0), Some(&bits(&[1.0, 0.0])[..]));
    assert_eq!(
        store.text_hashes.get(&0),
        None,
        "the manual write owns this cell"
    );
    assert_eq!(
        store.text_hashes.get(&1),
        Some(&22),
        "an unselected cell keeps its generated hash"
    );
    assert_eq!(store.model_id, None);
}

#[test]
fn an_uncaught_delta_is_visible_as_missing_coverage() {
    let n = 400;
    let m = 50;
    let ids: Vec<i64> = (1..=(n + m) as i64).collect();
    let vectors: Vec<(Value, Vec<u32>)> =
        ids.iter().map(|id| (Value::Int64(*id), bits(&[*id as f32, 1.0]))).collect();
    let mut g = docs(&ids);
    set_embeddings(&mut g, "Doc", "summary", Some("cosine"), &vectors[..n].to_vec()).unwrap();
    // A ceiling below the delta: no query will fold it in.
    build_vector_index(&mut g, "Doc", "summary", None, None, None, None, Some(1)).unwrap();
    add_embeddings(&mut g, "Doc", "summary", None, &vectors[n..].to_vec()).unwrap();
    let place = g.embeddings.position("Doc", "summary_emb").unwrap();
    g.embeddings.at_mut(place).catch_up(false);
    assert!(
        store_of(&g).index_is_stale(),
        "an over-ceiling delta must stay outstanding, not be silently absorbed"
    );
    assert_eq!(store_of(&g).freshness.covered, n, "and stay uncovered");
    // The query falls back to the exact scan rather than searching an index
    // that does not cover them.
    assert_eq!(
        route_query(store_of(&g), false, Some("cosine"), false),
        SearchMethod::Exact
    );
}

/// A read-only graph may not write an index, so it serves the exact scan and
/// leaves the delta outstanding for a writable handle to fold in.
#[test]
fn a_read_only_graph_serves_the_exact_scan_instead_of_catching_up() {
    let ids: Vec<i64> = (1..=450).collect();
    let vectors: Vec<(Value, Vec<u32>)> =
        ids.iter().map(|id| (Value::Int64(*id), bits(&[*id as f32, 1.0]))).collect();
    let mut g = docs(&ids);
    set_embeddings(&mut g, "Doc", "summary", Some("cosine"), &vectors[..400].to_vec()).unwrap();
    build_vector_index(&mut g, "Doc", "summary", None, None, None, None, None).unwrap();
    add_embeddings(&mut g, "Doc", "summary", None, &vectors[400..].to_vec()).unwrap();
    g.read_only = true;

    assert_eq!(refresh_vector_index(&mut g, "Doc", "summary"), Ok(0));
    let place = g.embeddings.position("Doc", "summary_emb").unwrap();
    g.embeddings.at_mut(place).catch_up(true);
    assert!(
        store_of(&g).index_is_stale(),
        "a read-only handle must not perform the one write catch-up would be"
    );
}

/// Records what the pass calls beside the model.
struct Recorded<'a> {
    model: &'a StubEmbedder,
    started: Cell<usize>,
    batches: RefCell<Vec<usize>>,
    wrapped: Cell<usize>,
}

impl EmbedCalls for Recorded<'_> {
    fn embed_batch(&self, texts: &Vec<String>) -> Option<Result<Vec<Vec<u32>>, String>> {
        self.wrapped.set(self.wrapped.get() + 1);
        Some(self.model.embed(texts))
    }
    fn on_start(&self, texts: usize) {
        self.started.set(texts);
    }
    fn on_batch(&self, texts: usize) {
        self.batches.borrow_mut().push(texts);
    }
}

#[test]
fn the_hooks_see_every_batch_and_can_wrap_the_model_call() {
    let mut g = docs(&[1, 2, 3, 4, 5]);
    let model = StubEmbedder::new(2);
    let hooks = EmbedHooks {
        batch_size: 2,
        load_when_idle: false,
        calls: Recorded {
            model: &model,
            started: Cell::new(0),
            batches: RefCell::new(Vec::new()),
            wrapped: Cell::new(0),
        },
    };
    let mut called = ModelCalls::new(&model);
    let outcome =
        embed_property(&mut g, "Doc", "summary", EmbedMode::Changed, &mut called, &hooks).unwrap();

    assert_eq!(outcome.embedded, 5);
    assert_eq!(hooks.calls.started.get(), 5, "the count arrives before the first batch");
    assert_eq!(*hooks.calls.batches.borrow(), vec![2, 2, 1]);
    assert_eq!(hooks.calls.wrapped.get(), 3, "every batch went through the wrapper");

    // An idle pass draws no bar at all.
    hooks.calls.started.set(0);
    hooks.calls.batches.borrow_mut().clear();
    embed_property(&mut g, "Doc", "summary", EmbedMode::Changed, &mut called, &hooks).unwrap();
    assert_eq!(hooks.calls.started.get(), 0);
    assert!(hooks.calls.batches.borrow().is_empty());
}

#[test]
fn a_store_and_its_index_can_be_asked_for() {
    let mut g = docs(&[1, 2]);
    assert!(!store_exists(&g, "Doc", "summary"));
    set_embeddings(&mut g, "Doc", "summary", None, &batch(&[(1, [1.0, 0.0])])).unwrap();
    assert!(store_exists(&g, "Doc", "summary"));
    assert!(!has_vector_index(&g, "Doc", "summary"));
    build_vector_index(&mut g, "Doc", "summary", None, None, None, None, None).unwrap();
    assert!(has_vector_index(&g, "Doc", "summary"));
    assert!(drop_vector_index(&mut g, "Doc", "summary"));
    assert!(!has_vector_index(&g, "Doc", "summary"));
    assert_eq!(store_of(&g).len(), 1, "the vectors stay");
}

/// The last row for a node is the one that is kept.
#[test]
fn a_repeated_id_keeps_its_last_vector() {
    let mut g = docs(&[1, 2]);
    let report = set_embeddings(
        &mut g,
        "Doc",
        "summary",
        None,
        &batch(&[(1, [1.0, 0.0]), (2, [0.0, 1.0]), (1, [0.5, 0.5])]),
    )
    .unwrap();
    assert_eq!(report.embeddings_stored, 2);
    let slot = doc_slot(&g, 0);
    assert_eq!(store_of(&g).get_embedding(slot), Some(&bits(&[0.5, 0.5])[..]));
}

#[test]
fn finishing_a_pass_writes_the_models_vectors() {
    let mut g = docs(&[1, 2]);
    let found = find_candidates(&g, "Doc", "summary", EmbedMode::Changed, Some("m")).unwrap();
    let vectors = vec![bits(&[1.0, 2.0]), bits(&[3.0, 4.0])];
    let short = vec![bits(&[1.0, 2.0])];
    let wide = vec![bits(&[1.0, 2.0]), bits(&[3.0])];
    let refused = finish_property(
        &mut g, "Doc", "summary", EmbedMode::Changed, &found, Some("m"), 2, &short,
    );
    assert!(
        matches!(refused, Err(EmbedError::Output(ref m)) if m.contains("1 vectors for 2 texts")),
        "{refused:?}"
    );
    let refused = finish_property(
        &mut g, "Doc", "summary", EmbedMode::Changed, &found, Some("m"), 2, &wide,
    );
    assert!(
        matches!(refused, Err(EmbedError::Output(ref m)) if m.contains("dimension 1")),
        "{refused:?}"
    );
    assert!(g.embeddings.is_empty());

    let done = finish_property(
        &mut g, "Doc", "summary", EmbedMode::Changed, &found, Some("m"), 2, &vectors,
    )
    .unwrap();
    assert_eq!((done.embedded, done.dimension), (2, 2));
    let store = store_of(&g);
    assert_eq!(store.model_id.as_deref(), Some("m"));
    for (nth, vector) in vectors.iter().enumerate() {
        let slot = doc_slot(&g, nth);
        assert_eq!(store.get_embedding(slot), Some(vector.as_slice()));
        assert_eq!(store.text_hash(slot), Some(text_hash(&format!("text {}", nth + 1))));
    }

    retext(&mut g, 2, "another text");
    let found = find_candidates(&g, "Doc", "summary", EmbedMode::Changed, Some("m")).unwrap();
    assert_eq!(
        finish_property(
            &mut g,
            "Doc",
            "summary",
            EmbedMode::Changed,
            &found,
            Some("m"),
            3,
            &vec![bits(&[0.0; 3])],
        ),
        Err(EmbedError::Dimension { store: 2, model: 3 })
    );
    assert_eq!(store_of(&g).get_embedding(doc_slot(&g, 1)), Some(vectors[1].as_slice()));
}
