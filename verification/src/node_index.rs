//! Vector indexes over node stores.

use crate::catalog::{a_kept_store_is_found, lookup, place_is_first, with_entry, EntryModel};
use crate::edge_vector_index::{given_or, seed_of, StatusModel, VectorIndexReport};
use crate::freshness::FreshnessModel;
use crate::graph::{members_or_none, recorded, recorded_with, DirGraph};
use crate::hints::{no_index_text, no_index_to_refresh, Surface};
use crate::inventory::EmbeddingEntity;
use crate::metric::{
    metric_named, metric_or_cosine, DistanceMetric, HnswParams, VectorIndex,
    DEFAULT_EF_CONSTRUCTION, DEFAULT_EF_SEARCH, DEFAULT_M,
};
use crate::name_pairs::{
    listed_pairs_are_kept, listed_stores, pair_texts, pairs_kept, stores_on,
};
use crate::names::{column_of, store_name, store_name_of};
use crate::node_inventory::{unknown_column_hint, unknown_column_text};
use crate::recording::{DeclarationModel, OpModel, VectorIndexDeclaration};
use crate::store::{
    delta_of, indexed_with, refreshed, unindexed, EmbeddingStore, StoreModel,
};
use crate::text::{str_option, text_eq, texts, Text};
use vstd::prelude::*;

verus! {

/// The larger of a number and a bound.
pub open spec fn at_least(n: usize, bound: usize) -> usize {
    if n < bound {
        bound
    } else {
        n
    }
}

/// How an index is linked and searched: what was asked for, within its range,
/// else the defaults.
pub open spec fn node_params(
    m: Option<usize>,
    ef_construction: Option<usize>,
    ef_search: Option<usize>,
) -> HnswParams {
    HnswParams {
        m: at_least(given_or(m, DEFAULT_M), 2),
        ef_construction: at_least(given_or(ef_construction, DEFAULT_EF_CONSTRUCTION), 1),
        ef_search: at_least(given_or(ef_search, DEFAULT_EF_SEARCH), 1),
    }
}

fn param(given: Option<usize>, default: usize, bound: usize) -> (n: usize)
    ensures
        n == at_least(given_or(given, default), bound),
{
    let n: usize = match given {
        Some(n) => n,
        None => default,
    };
    if n < bound {
        bound
    } else {
        n
    }
}

/// The metric an index is built for: the one asked for, else the store's, else
/// cosine.
pub open spec fn index_metric(existing: Option<StoreModel>, metric: Option<Text>) -> Text {
    match metric {
        Some(name) => name,
        None => match existing {
            Some(store) => metric_or_cosine(store.metric),
            None => "cosine"@,
        },
    }
}

/// Why an index cannot be built for a metric.
pub open spec fn node_metric_fault(name: Text) -> Option<Text> {
    match metric_named(name) {
        None => Some(
            "Unknown metric '"@ + name + "'. Use 'cosine', 'dot_product', or 'euclidean'."@,
        ),
        Some(metric) => if metric == DistanceMetric::Poincare {
            Some(
                "build_vector_index: the 'poincare' metric is not supported by HNSW; Poincaré search stays on the exact (brute-force) path."@,
            )
        } else {
            None
        },
    }
}

/// Why an index cannot be built.
pub open spec fn node_build_fault(
    graph: DirGraph,
    node_type: Text,
    text_column: Text,
    metric: Option<Text>,
) -> Option<Text> {
    let existing = lookup(graph.embeddings@, node_type, store_name_of(text_column));
    let label = node_type + "."@ + store_name_of(text_column);
    if node_metric_fault(index_metric(existing, metric)) is Some {
        node_metric_fault(index_metric(existing, metric))
    } else {
        match existing {
            None => Some(
                "No embedding store '"@ + label + "' to index."@ + unknown_column_text(
                    graph,
                    seq![node_type],
                    text_column,
                    "build_vector_index()"@,
                ) + " Call set_embeddings()/embed_texts() first."@,
            ),
            Some(store) => if metric is Some && store.metric is Some && metric != store.metric {
                Some(
                    "Embedding store '"@ + label + "' declares metric '"@ + store.metric->0
                        + "', but this build requested '"@ + metric->0 + "'. Build with '"@
                        + store.metric->0 + "', or set the store again with metric '"@ + metric->0
                        + "'."@,
                )
            } else if store.nodes.len() > u32::MAX {
                Some("too many vectors to index"@)
            } else {
                None
            },
        }
    }
}

/// A node store with its index built. A metric that was asked for is the
/// store's from now on.
pub open spec fn node_indexed(
    store: StoreModel,
    params: HnswParams,
    metric: Option<Text>,
    limit: Option<usize>,
) -> StoreModel {
    let index = VectorIndex {
        metric: metric_named(index_metric(Some(store), metric))->0,
        params,
        seed: seed_of(store.nodes.len()),
    };
    StoreModel {
        metric: if metric is Some {
            metric
        } else {
            store.metric
        },
        ..indexed_with(
            StoreModel {
                freshness: FreshnessModel {
                    limit: given_or(limit, store.freshness.limit),
                    ..store.freshness
                },
                ..store
            },
            index,
        )
    }
}

fn one_type(node_type: &str) -> (types: Vec<String>)
    ensures
        texts(types@) == seq![node_type@],
{
    let mut types: Vec<String> = Vec::new();
    types.push(node_type.to_owned());
    assert(texts(types@) =~= seq![node_type@]);
    types
}

/// One node store changed, and the others are as they were.
proof fn one_node_store_changed(
    before: DirGraph,
    after: DirGraph,
    place: int,
    store: EmbeddingStore,
)
    requires
        before.well_formed(),
        after == (DirGraph { embeddings: after.embeddings, ..before }),
        0 <= place < before.embeddings.entries@.len(),
        store.well_formed(),
        after.embeddings.entries@ =~= before.embeddings.entries@.update(
            place,
            crate::catalog::Entry { store, ..before.embeddings.entries@[place] },
        ),
    ensures
        after.well_formed(),
        after.embeddings@ == with_entry(
            before.embeddings@,
            before.embeddings@[place].owner_type,
            before.embeddings@[place].name,
            store@,
        ),
{
    let key = before.embeddings@[place];
    crate::catalog::place_of_entry(before.embeddings@, place);
    assert(after.embeddings@ =~= with_entry(
        before.embeddings@,
        key.owner_type,
        key.name,
        store@,
    ));
    a_kept_store_is_found(before.embeddings@, key.owner_type, key.name, store@);
    assert forall|k: int| 0 <= k < after.embeddings.entries@.len() implies (
    #[trigger] after.embeddings.entries@[k]).store.well_formed() && column_of(
        after.embeddings.entries@[k].name@,
    ) is Some by {
        assert(before.embeddings.entries@[k].store.well_formed());
    }
}

/// What building an index reports.
pub open spec fn node_report(
    report: VectorIndexReport,
    store: StoreModel,
    params: HnswParams,
    metric: Option<Text>,
) -> bool {
    &&& report.indexed == store.nodes.len()
    &&& report.metric@ == index_metric(Some(store), metric)
    &&& report.m == params.m
}

/// Builds an index over a node store without recording it.
pub fn build_index_structure(
    graph: &mut DirGraph,
    node_type: &str,
    text_column: &str,
    m: Option<usize>,
    ef_construction: Option<usize>,
    ef_search: Option<usize>,
    metric: Option<&str>,
    auto_refresh_limit: Option<usize>,
) -> (result: Result<VectorIndexReport, String>)
    requires
        old(graph).well_formed(),
    ensures
        final(graph).well_formed(),
        *final(graph) == (DirGraph { embeddings: final(graph).embeddings, ..*old(graph) }),
        match result {
            Ok(report) => {
                let store = lookup(
                    old(graph).embeddings@,
                    node_type@,
                    store_name_of(text_column@),
                )->0;
                let params = node_params(m, ef_construction, ef_search);
                &&& node_build_fault(
                    *old(graph),
                    node_type@,
                    text_column@,
                    str_option(metric),
                ) is None
                &&& final(graph).embeddings@ == with_entry(
                    old(graph).embeddings@,
                    node_type@,
                    store_name_of(text_column@),
                    node_indexed(store, params, str_option(metric), auto_refresh_limit),
                )
                &&& node_report(report, store, params, str_option(metric))
            },
            Err(message) => {
                &&& *final(graph) == *old(graph)
                &&& node_build_fault(
                    *old(graph),
                    node_type@,
                    text_column@,
                    str_option(metric),
                ) == Some(message@)
            },
        },
{
    let name = store_name(text_column);
    let ghost existing = lookup(graph.embeddings@, node_type@, name@);
    let declared: Option<String> = match graph.embeddings.get(node_type, name.as_str()) {
        Some(store) => match &store.metric {
            Some(metric) => Some(metric.as_str().to_owned()),
            None => None,
        },
        None => None,
    };
    let metric_name: String = match metric {
        Some(metric) => metric.to_owned(),
        None => match &declared {
            Some(metric) => metric.as_str().to_owned(),
            None => "cosine".to_owned(),
        },
    };
    assert(metric_name@ == index_metric(existing, str_option(metric)));
    let distance = match DistanceMetric::from_name(metric_name.as_str()) {
        Some(distance) => distance,
        None => {
            let mut message = "Unknown metric '".to_owned();
            message.append(metric_name.as_str());
            message.append("'. Use 'cosine', 'dot_product', or 'euclidean'.");
            return Err(message);
        },
    };
    if distance == DistanceMetric::Poincare {
        return Err(
            "build_vector_index: the 'poincare' metric is not supported by HNSW; Poincaré search stays on the exact (brute-force) path.".to_owned(),
        );
    }
    let params = HnswParams {
        m: param(m, DEFAULT_M, 2),
        ef_construction: param(ef_construction, DEFAULT_EF_CONSTRUCTION, 1),
        ef_search: param(ef_search, DEFAULT_EF_SEARCH, 1),
    };
    proof {
        place_is_first(graph.embeddings@, node_type@, name@);
    }
    let place: usize = match graph.embeddings.position(node_type, name.as_str()) {
        Some(place) => place,
        None => {
            let types = one_type(node_type);
            let hint = unknown_column_hint(graph, &types, text_column, "build_vector_index()");
            let mut message = "No embedding store '".to_owned();
            let mut label = node_type.to_owned();
            label.append(".");
            label.append(name.as_str());
            message.append(label.as_str());
            message.append("' to index.");
            message.append(hint.as_str());
            message.append(" Call set_embeddings()/embed_texts() first.");
            return Err(message);
        },
    };
    let ghost store = graph.embeddings@[place as int].store;
    assert(graph.embeddings.entries@[place as int].store@ == store);
    assert(graph.embeddings.entries@[place as int].store.well_formed());
    if let (Some(requested), Some(held)) = (metric, &declared) {
        if !text_eq(requested, held.as_str()) {
            let mut label = node_type.to_owned();
            label.append(".");
            label.append(name.as_str());
            let mut message = "Embedding store '".to_owned();
            message.append(label.as_str());
            message.append("' declares metric '");
            message.append(held.as_str());
            message.append("', but this build requested '");
            message.append(requested);
            message.append("'. Build with '");
            message.append(held.as_str());
            message.append("', or set the store again with metric '");
            message.append(requested);
            message.append("'.");
            return Err(message);
        }
    }
    let indexed: usize = graph.embeddings.entries[place].store.len();
    if indexed > u32::MAX as usize {
        return Err("too many vectors to index".to_owned());
    }
    let fresh = EmbeddingStore::new(0);
    let mut writer = graph.embeddings.replace_at(place, fresh);
    if let Some(limit) = auto_refresh_limit {
        writer.set_auto_refresh_limit(limit);
    }
    let seed: u64 = 0x9E37_79B9_7F4A_7C15u64 ^ (indexed as u64);
    match writer.build_index(distance, params, seed) {
        Ok(_) => {},
        Err(_) => {
            assert(false);
        },
    }
    if let Some(requested) = metric {
        writer.metric = Some(requested.to_owned());
    }
    let ghost held = writer;
    let _ = graph.embeddings.replace_at(place, writer);
    proof {
        assert(held@ == node_indexed(store, params, str_option(metric), auto_refresh_limit));
        one_node_store_changed(*old(graph), *graph, place as int, held);
    }
    Ok(VectorIndexReport { indexed, metric: metric_name, m: params.m })
}

/// What building an index records: the parameters that were used where they
/// were not given, so that the same index is built again.
pub open spec fn node_declaration(
    node_type: Text,
    text_column: Text,
    store: StoreModel,
    m: Option<usize>,
    ef_construction: Option<usize>,
    ef_search: Option<usize>,
    metric: Option<Text>,
    limit: Option<usize>,
) -> DeclarationModel {
    DeclarationModel {
        relationship: false,
        owner_type: node_type,
        text_column,
        metric: Some(index_metric(Some(store), metric)),
        m: Some(node_params(m, ef_construction, ef_search).m),
        ef_construction,
        ef_search,
        auto_refresh_limit: limit,
        present: true,
    }
}

/// Builds an index over a node store, and records it.
pub fn build_vector_index(
    graph: &mut DirGraph,
    node_type: &str,
    text_column: &str,
    m: Option<usize>,
    ef_construction: Option<usize>,
    ef_search: Option<usize>,
    metric: Option<&str>,
    auto_refresh_limit: Option<usize>,
) -> (result: Result<VectorIndexReport, String>)
    requires
        old(graph).well_formed(),
    ensures
        final(graph).well_formed(),
        match result {
            Ok(report) => {
                let store = lookup(
                    old(graph).embeddings@,
                    node_type@,
                    store_name_of(text_column@),
                )->0;
                let params = node_params(m, ef_construction, ef_search);
                &&& node_build_fault(
                    *old(graph),
                    node_type@,
                    text_column@,
                    str_option(metric),
                ) is None
                &&& *final(graph) == (DirGraph {
                    embeddings: final(graph).embeddings,
                    recording: final(graph).recording,
                    ..*old(graph)
                })
                &&& final(graph).embeddings@ == with_entry(
                    old(graph).embeddings@,
                    node_type@,
                    store_name_of(text_column@),
                    node_indexed(store, params, str_option(metric), auto_refresh_limit),
                )
                &&& recorded(*final(graph)) == recorded_with(
                    recorded(*old(graph)),
                    seq![
                        OpModel::Declaration(
                            node_declaration(
                                node_type@,
                                text_column@,
                                store,
                                m,
                                ef_construction,
                                ef_search,
                                str_option(metric),
                                auto_refresh_limit,
                            ),
                        ),
                    ],
                )
                &&& node_report(report, store, params, str_option(metric))
            },
            Err(message) => {
                &&& *final(graph) == *old(graph)
                &&& node_build_fault(
                    *old(graph),
                    node_type@,
                    text_column@,
                    str_option(metric),
                ) == Some(message@)
            },
        },
{
    let report = match build_index_structure(
        graph,
        node_type,
        text_column,
        m,
        ef_construction,
        ef_search,
        metric,
        auto_refresh_limit,
    ) {
        Ok(report) => report,
        Err(message) => {
            return Err(message);
        },
    };
    graph.note_declaration(
        VectorIndexDeclaration {
            relationship: false,
            owner_type: node_type.to_owned(),
            text_column: text_column.to_owned(),
            metric: Some(report.metric.as_str().to_owned()),
            m: Some(report.m),
            ef_construction,
            ef_search,
            auto_refresh_limit,
            present: true,
        },
    );
    Ok(report)
}

/// The stores with an index dropped.
pub open spec fn node_index_dropped(
    entries: Seq<EntryModel<StoreModel>>,
    node_type: Text,
    text_column: Text,
) -> Seq<EntryModel<StoreModel>> {
    match lookup(entries, node_type, store_name_of(text_column)) {
        Some(store) => with_entry(
            entries,
            node_type,
            store_name_of(text_column),
            unindexed(store),
        ),
        None => entries,
    }
}

/// Whether there is an index over a store.
pub open spec fn node_has_index(
    entries: Seq<EntryModel<StoreModel>>,
    node_type: Text,
    text_column: Text,
) -> bool {
    match lookup(entries, node_type, store_name_of(text_column)) {
        Some(store) => store.index is Some,
        None => false,
    }
}

/// Drops the index over a node store without recording it.
pub fn drop_index_structure(graph: &mut DirGraph, node_type: &str, text_column: &str) -> (had: bool)
    requires
        old(graph).well_formed(),
    ensures
        final(graph).well_formed(),
        *final(graph) == (DirGraph { embeddings: final(graph).embeddings, ..*old(graph) }),
        final(graph).embeddings@ == node_index_dropped(
            old(graph).embeddings@,
            node_type@,
            text_column@,
        ),
        had == node_has_index(old(graph).embeddings@, node_type@, text_column@),
{
    let name = store_name(text_column);
    proof {
        place_is_first(graph.embeddings@, node_type@, name@);
    }
    let place: usize = match graph.embeddings.position(node_type, name.as_str()) {
        Some(place) => place,
        None => {
            return false;
        },
    };
    assert(graph.embeddings.entries@[place as int].store.well_formed());
    assert(graph.embeddings@[place as int].store == graph.embeddings.entries@[place as int].store@);
    let fresh = EmbeddingStore::new(0);
    let mut writer = graph.embeddings.replace_at(place, fresh);
    let had = writer.has_index();
    writer.invalidate_index();
    let ghost held = writer;
    let _ = graph.embeddings.replace_at(place, writer);
    proof {
        one_node_store_changed(*old(graph), *graph, place as int, held);
    }
    had
}

/// What dropping an index records.
pub open spec fn node_drop_declaration(node_type: Text, text_column: Text) -> DeclarationModel {
    DeclarationModel {
        relationship: false,
        owner_type: node_type,
        text_column,
        metric: None,
        m: None,
        ef_construction: None,
        ef_search: None,
        auto_refresh_limit: None,
        present: false,
    }
}

/// Drops the index over a node store, and says whether there was one. The
/// vectors stay.
pub fn drop_vector_index(graph: &mut DirGraph, node_type: &str, text_column: &str) -> (had: bool)
    requires
        old(graph).well_formed(),
    ensures
        final(graph).well_formed(),
        *final(graph) == (DirGraph {
            embeddings: final(graph).embeddings,
            recording: final(graph).recording,
            ..*old(graph)
        }),
        final(graph).embeddings@ == node_index_dropped(
            old(graph).embeddings@,
            node_type@,
            text_column@,
        ),
        recorded(*final(graph)) == recorded_with(
            recorded(*old(graph)),
            seq![OpModel::Declaration(node_drop_declaration(node_type@, text_column@))],
        ),
        had == node_has_index(old(graph).embeddings@, node_type@, text_column@),
{
    let had = drop_index_structure(graph, node_type, text_column);
    graph.note_declaration(
        VectorIndexDeclaration {
            relationship: false,
            owner_type: node_type.to_owned(),
            text_column: text_column.to_owned(),
            metric: None,
            m: None,
            ef_construction: None,
            ef_search: None,
            auto_refresh_limit: None,
            present: false,
        },
    );
    had
}

/// Whether there is a store for a type and a column.
pub fn store_exists(graph: &DirGraph, node_type: &str, text_column: &str) -> (exists_: bool)
    ensures
        exists_ == (lookup(graph.embeddings@, node_type@, store_name_of(text_column@)) is Some),
{
    let name = store_name(text_column);
    graph.embeddings.get(node_type, name.as_str()).is_some()
}

/// Whether there is an index over the store of a type and a column.
pub fn has_vector_index(graph: &DirGraph, node_type: &str, text_column: &str) -> (has: bool)
    ensures
        has == node_has_index(graph.embeddings@, node_type@, text_column@),
{
    let name = store_name(text_column);
    match graph.embeddings.get(node_type, name.as_str()) {
        Some(store) => store.has_index(),
        None => false,
    }
}

/// Why there is nothing to refresh.
pub open spec fn node_refresh_fault(graph: DirGraph, node_type: Text, text_column: Text) -> Option<
    Text,
> {
    match lookup(graph.embeddings@, node_type, store_name_of(text_column)) {
        None => Some(
            "no embedding store '"@ + node_type + "."@ + store_name_of(text_column)
                + "' to refresh."@ + unknown_column_text(
                graph,
                seq![node_type],
                text_column,
                "refresh_vector_index()"@,
            ),
        ),
        Some(store) => if store.index is None {
            Some(no_index_text(EmbeddingEntity::Node, node_type, text_column, Surface::Method))
        } else {
            None
        },
    }
}

/// Folds every outstanding vector into the index over a node store, and says how
/// many there were. On a graph that may not change nothing is folded in.
pub fn refresh_vector_index(graph: &mut DirGraph, node_type: &str, text_column: &str) -> (result:
    Result<usize, String>)
    requires
        old(graph).well_formed(),
    ensures
        final(graph).well_formed(),
        *final(graph) == (DirGraph { embeddings: final(graph).embeddings, ..*old(graph) }),
        match result {
            Ok(folded) => {
                let store = lookup(
                    old(graph).embeddings@,
                    node_type@,
                    store_name_of(text_column@),
                )->0;
                &&& node_refresh_fault(*old(graph), node_type@, text_column@) is None
                &&& if old(graph).read_only {
                    folded == 0 && *final(graph) == *old(graph)
                } else {
                    &&& folded == delta_of(store)
                    &&& final(graph).embeddings@ == with_entry(
                        old(graph).embeddings@,
                        node_type@,
                        store_name_of(text_column@),
                        refreshed(store),
                    )
                }
            },
            Err(message) => {
                &&& *final(graph) == *old(graph)
                &&& node_refresh_fault(*old(graph), node_type@, text_column@) == Some(message@)
            },
        },
{
    let name = store_name(text_column);
    proof {
        place_is_first(graph.embeddings@, node_type@, name@);
    }
    let place: usize = match graph.embeddings.position(node_type, name.as_str()) {
        Some(place) => place,
        None => {
            let types = one_type(node_type);
            let mut message = "no embedding store '".to_owned();
            message.append(node_type);
            message.append(".");
            message.append(name.as_str());
            message.append("' to refresh.");
            let hint = unknown_column_hint(graph, &types, text_column, "refresh_vector_index()");
            message.append(hint.as_str());
            return Err(message);
        },
    };
    assert(graph.embeddings.entries@[place as int].store.well_formed());
    assert(graph.embeddings@[place as int].store == graph.embeddings.entries@[place as int].store@);
    if !graph.embeddings.entries[place].store.has_index() {
        return Err(
            no_index_to_refresh(EmbeddingEntity::Node, node_type, text_column, Surface::Method),
        );
    }
    if graph.read_only {
        return Ok(0);
    }
    let fresh = EmbeddingStore::new(0);
    let mut writer = graph.embeddings.replace_at(place, fresh);
    let folded: usize = writer.refresh_index();
    let ghost held = writer;
    let _ = graph.embeddings.replace_at(place, writer);
    proof {
        one_node_store_changed(*old(graph), *graph, place as int, held);
    }
    Ok(folded)
}

/// The index over one node store.
#[derive(Debug, Clone, PartialEq, Eq)]
pub struct VectorIndexStatus {
    /// The node type.
    pub node_type: String,
    /// The column.
    pub text_column: String,
    /// Whether there is an index.
    pub built: bool,
    /// Whether the index lags behind its store.
    pub stale: bool,
    /// The vectors that are outstanding: all of them where there is no index.
    pub delta: usize,
    /// The nodes of the type without a vector.
    pub unembedded: usize,
}

impl View for VectorIndexStatus {
    type V = StatusModel;

    open spec fn view(&self) -> StatusModel {
        StatusModel {
            owner_type: self.node_type@,
            text_column: self.text_column@,
            built: self.built,
            stale: self.stale,
            delta: self.delta as nat,
            unembedded: self.unembedded as nat,
        }
    }
}

/// What is listed of the index over a node store.
pub open spec fn node_status(
    node_type: Text,
    text_column: Text,
    store: StoreModel,
    members: nat,
) -> StatusModel {
    StatusModel {
        owner_type: node_type,
        text_column,
        built: store.index is Some,
        stale: delta_of(store) > 0,
        delta: if store.index is Some {
            delta_of(store)
        } else {
            store.nodes.len()
        },
        unembedded: if members > store.nodes.len() {
            (members - store.nodes.len()) as nat
        } else {
            0
        },
    }
}

/// What is listed of every node store, by type and column.
pub open spec fn node_statuses(graph: DirGraph) -> Seq<StatusModel> {
    let pairs = stores_on(graph.embeddings@);
    Seq::new(
        pairs.len(),
        |i: int|
            node_status(
                pairs[i].0,
                pairs[i].1,
                lookup(graph.embeddings@, pairs[i].0, store_name_of(pairs[i].1))->0,
                members_or_none(graph.node_types@, pairs[i].0).len(),
            ),
    )
}

/// What rows say.
pub open spec fn node_status_rows(rows: Seq<VectorIndexStatus>) -> Seq<StatusModel> {
    Seq::new(rows.len(), |i: int| rows[i]@)
}

/// Every node store with the state of its index, by type and column.
pub fn list_vector_indexes(graph: &DirGraph) -> (rows: Vec<VectorIndexStatus>)
    requires
        graph.well_formed(),
    ensures
        node_status_rows(rows@) == node_statuses(*graph),
{
    let pairs = listed_stores(&graph.embeddings);
    let ghost entries = graph.embeddings@;
    let mut rows: Vec<VectorIndexStatus> = Vec::new();
    let mut i: usize = 0;
    while i < pairs.len()
        invariant
            i <= pairs@.len(),
            graph.well_formed(),
            entries == graph.embeddings@,
            pair_texts(pairs@) == stores_on(entries),
            pair_texts(pairs@).to_set() == pairs_kept(entries, entries.len() as int),
            rows@.len() == i,
            forall|k: int| 0 <= k < i ==> (#[trigger] rows@[k])@ == node_statuses(*graph)[k],
        decreases pairs@.len() - i,
    {
        let ghost pair = pair_texts(pairs@)[i as int];
        proof {
            assert(pair_texts(pairs@).to_set().contains(pair));
            listed_pairs_are_kept(entries, pair);
        }
        let name = store_name(pairs[i].1.as_str());
        match graph.embeddings.get(pairs[i].0.as_str(), name.as_str()) {
            Some(store) => {
                let members: usize = match graph.type_members(pairs[i].0.as_str()) {
                    Some(members) => members.len(),
                    None => 0,
                };
                let held: usize = store.len();
                let row = VectorIndexStatus {
                    node_type: pairs[i].0.as_str().to_owned(),
                    text_column: pairs[i].1.as_str().to_owned(),
                    built: store.has_index(),
                    stale: store.index_is_stale(),
                    delta: if store.has_index() {
                        store.delta_size()
                    } else {
                        held
                    },
                    unembedded: if members > held {
                        members - held
                    } else {
                        0
                    },
                };
                assert(row@ == node_statuses(*graph)[i as int]);
                rows.push(row);
            },
            None => {
                assert(false);
            },
        }
        i = i + 1;
    }
    assert(node_status_rows(rows@) =~= node_statuses(*graph));
    rows
}

/// Building again from what was recorded gives the same index, with the same
/// vectors to fold in, under the same metric.
pub proof fn a_recorded_node_build_is_reproduced(
    node_type: Text,
    text_column: Text,
    store: StoreModel,
    m: Option<usize>,
    ef_construction: Option<usize>,
    ef_search: Option<usize>,
    metric: Option<Text>,
    limit: Option<usize>,
)
    ensures
        ({
            let said = node_declaration(
                node_type,
                text_column,
                store,
                m,
                ef_construction,
                ef_search,
                metric,
                limit,
            );
            let first = node_indexed(
                store,
                node_params(m, ef_construction, ef_search),
                metric,
                limit,
            );
            let again = node_indexed(
                store,
                node_params(said.m, said.ef_construction, said.ef_search),
                said.metric,
                said.auto_refresh_limit,
            );
            &&& again.index == first.index
            &&& again.freshness == first.freshness
            &&& metric_or_cosine(again.metric) == index_metric(Some(store), metric)
            &&& again.nodes == first.nodes
            &&& again.rows == first.rows
            &&& again.hashes == first.hashes
        }),
{
}

} // verus!
