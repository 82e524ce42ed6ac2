//! Building, refreshing and dropping the index over a relationship store.

use crate::catalog::{lookup, place_is_first, with_entry};
use crate::edge_store::EdgeEmbeddingStore;
use crate::edge_writes::wrote_stores;
use crate::graph::{recorded, recorded_with, undo_of, undo_with, DirGraph};
use crate::hints::{
    missing_store_error, missing_store_text, no_index_text, no_index_to_refresh, Surface,
};
use crate::inventory::EmbeddingEntity;
use crate::metric::{
    metric_named, metric_or_cosine, DistanceMetric, HnswParams, VectorIndex,
    DEFAULT_EF_CONSTRUCTION, DEFAULT_EF_SEARCH, DEFAULT_M,
};
use crate::name_pairs::{listed_pairs_are_kept, listed_stores, pair_texts, pairs_kept, stores_on};
use crate::names::{store_name, store_name_of, store_names_read_back};
use crate::recording::{DeclarationModel, OpModel, UndoEntry, UndoModel, VectorIndexDeclaration};
use crate::statement::one_store_changed;
use crate::store::{
    delta_of, index_state_of, indexed_with, refreshed, unindexed, StoreModel,
};
use crate::freshness::FreshnessModel;
use crate::text::{str_option, text_eq, text_option, Text};
use crate::topology::typed_edges;
use vstd::prelude::*;

verus! {

/// How an index is to be built.
#[derive(Debug, Clone)]
pub struct EdgeVectorIndexOptions {
    /// The neighbours of a vector above the lowest layer.
    pub m: Option<usize>,
    /// The candidates kept while the index is built.
    pub ef_construction: Option<usize>,
    /// The candidates kept while the index is searched.
    pub ef_search: Option<usize>,
    /// The metric to rank by.
    pub metric: Option<String>,
    /// The vectors a query may fold in by itself.
    pub auto_refresh_limit: Option<usize>,
}

/// What the options say.
pub struct OptionsModel {
    pub m: Option<usize>,
    pub ef_construction: Option<usize>,
    pub ef_search: Option<usize>,
    pub metric: Option<Text>,
    pub limit: Option<usize>,
}

impl View for EdgeVectorIndexOptions {
    type V = OptionsModel;

    open spec fn view(&self) -> OptionsModel {
        OptionsModel {
            m: self.m,
            ef_construction: self.ef_construction,
            ef_search: self.ef_search,
            metric: text_option(self.metric),
            limit: self.auto_refresh_limit,
        }
    }
}

/// No option set.
pub open spec fn no_options() -> OptionsModel {
    OptionsModel { m: None, ef_construction: None, ef_search: None, metric: None, limit: None }
}

impl Default for EdgeVectorIndexOptions {
    fn default() -> (options: EdgeVectorIndexOptions)
        ensures
            options@ == no_options(),
    {
        EdgeVectorIndexOptions {
            m: None,
            ef_construction: None,
            ef_search: None,
            metric: None,
            auto_refresh_limit: None,
        }
    }
}

/// What a build indexed.
#[derive(Debug, Clone, PartialEq, Eq)]
pub struct VectorIndexReport {
    /// The vectors the index covers.
    pub indexed: usize,
    /// The metric the index ranks by.
    pub metric: String,
    /// The neighbours of a vector above the lowest layer.
    pub m: usize,
}

/// The number an option gives, or its default.
pub open spec fn given_or(given: Option<usize>, default: usize) -> usize {
    match given {
        Some(n) => n,
        None => default,
    }
}

/// What is wrong with the numbers.
pub open spec fn params_fault(options: OptionsModel) -> Option<Text> {
    if options.m is Some && options.m->0 < 2 {
        Some("HNSW option 'm' must be at least 2"@)
    } else if options.ef_construction == Some(0usize) {
        Some("HNSW option 'ef_construction' must be greater than 0"@)
    } else if options.ef_search == Some(0usize) {
        Some("HNSW option 'ef_search' must be greater than 0"@)
    } else {
        None
    }
}

/// The numbers an index is built with.
pub open spec fn params_of(options: OptionsModel) -> HnswParams {
    HnswParams {
        m: given_or(options.m, DEFAULT_M),
        ef_construction: given_or(options.ef_construction, DEFAULT_EF_CONSTRUCTION),
        ef_search: given_or(options.ef_search, DEFAULT_EF_SEARCH),
    }
}

fn resolve_params(options: &EdgeVectorIndexOptions) -> (result: Result<HnswParams, String>)
    ensures
        match result {
            Ok(params) => params_fault(options@) is None && params == params_of(options@),
            Err(message) => params_fault(options@) == Some(message@),
        },
{
    if let Some(m) = options.m {
        if m < 2 {
            return Err("HNSW option 'm' must be at least 2".to_owned());
        }
    }
    if let Some(ef) = options.ef_construction {
        if ef == 0 {
            return Err("HNSW option 'ef_construction' must be greater than 0".to_owned());
        }
    }
    if let Some(ef) = options.ef_search {
        if ef == 0 {
            return Err("HNSW option 'ef_search' must be greater than 0".to_owned());
        }
    }
    Ok(
        HnswParams {
            m: match options.m {
                Some(m) => m,
                None => DEFAULT_M,
            },
            ef_construction: match options.ef_construction {
                Some(ef) => ef,
                None => DEFAULT_EF_CONSTRUCTION,
            },
            ef_search: match options.ef_search {
                Some(ef) => ef,
                None => DEFAULT_EF_SEARCH,
            },
        },
    )
}

/// The refusal of an unknown metric.
pub open spec fn unknown_metric(name: Text) -> Text {
    "Unknown metric '"@ + name + "'"@
}

pub(crate) fn unknown_metric_message(name: &str) -> (message: String)
    ensures
        message@ == unknown_metric(name@),
{
    let mut message = "Unknown metric '".to_owned();
    message.append(name);
    message.append("'");
    message
}

/// What stops an index from ranking by a metric.
pub open spec fn indexable_fault(name: Text) -> Option<Text> {
    match metric_named(name) {
        None => Some(unknown_metric(name)),
        Some(metric) => if metric == DistanceMetric::Poincare {
            Some(
                "the '"@ + name
                    + "' metric is not supported by HNSW; use exact relationship search"@,
            )
        } else {
            None
        },
    }
}

fn indexable_metric(name: &str) -> (result: Result<DistanceMetric, String>)
    ensures
        match result {
            Ok(metric) => indexable_fault(name@) is None && metric_named(name@) == Some(metric),
            Err(message) => indexable_fault(name@) == Some(message@),
        },
{
    let metric = match DistanceMetric::from_name(name) {
        Some(metric) => metric,
        None => {
            return Err(unknown_metric_message(name));
        },
    };
    if !metric.indexable() {
        let mut message = "the '".to_owned();
        message.append(name);
        message.append("' metric is not supported by HNSW; use exact relationship search");
        return Err(message);
    }
    Ok(metric)
}

/// The metric a build ranks by: the one asked for, else the store's, else
/// cosine.
pub open spec fn build_metric(options: OptionsModel, store: StoreModel) -> Text {
    match options.metric {
        Some(name) => name,
        None => metric_or_cosine(store.metric),
    }
}

fn metric_for_build(options: &EdgeVectorIndexOptions, store: &EdgeEmbeddingStore) -> (name: String)
    ensures
        name@ == build_metric(options@, store@),
{
    match &options.metric {
        Some(name) => name.as_str().to_owned(),
        None => match store.metric() {
            Some(name) => name.to_owned(),
            None => "cosine".to_owned(),
        },
    }
}

/// Why an index cannot be built over a relationship store.
pub open spec fn build_fault(
    existing: Option<StoreModel>,
    connection_type: Text,
    text_property: Text,
    options: OptionsModel,
) -> Option<Text> {
    match existing {
        None => Some(
            "No relationship embedding store '"@ + connection_type + "."@ + text_property
                + "' to index"@,
        ),
        Some(store) => if indexable_fault(build_metric(options, store)) is Some {
            indexable_fault(build_metric(options, store))
        } else if options.metric is Some && store.metric is Some && options.metric != store.metric {
            Some(
                "Relationship embedding store '"@ + connection_type + "."@ + text_property
                    + "' declares metric '"@ + store.metric->0 + "', but this build requested '"@
                    + options.metric->0 + "'. Build with '"@ + store.metric->0
                    + "', or drop the store and set it again with metric '"@ + options.metric->0
                    + "'."@,
            )
        } else if params_fault(options) is Some {
            params_fault(options)
        } else if store.nodes.len() > u32::MAX {
            Some("too many vectors to index"@)
        } else {
            None
        },
    }
}

/// What a build's layers are drawn from.
pub open spec fn seed_of(count: nat) -> u64 {
    0x9E37_79B9_7F4A_7C15u64 ^ (count as u64)
}

/// A store's limit after a build.
pub open spec fn limit_after(options: OptionsModel, store: StoreModel) -> usize {
    given_or(options.limit, store.freshness.limit)
}

/// A store with an index built over all its vectors. A metric that was asked
/// for is the store's from now on.
pub open spec fn indexed_store(store: StoreModel, options: OptionsModel) -> StoreModel {
    let index = VectorIndex {
        metric: metric_named(build_metric(options, store))->0,
        params: params_of(options),
        seed: seed_of(store.nodes.len()),
    };
    StoreModel {
        metric: if options.metric is Some {
            options.metric
        } else {
            store.metric
        },
        ..indexed_with(
            StoreModel {
                freshness: FreshnessModel {
                    limit: limit_after(options, store),
                    ..store.freshness
                },
                ..store
            },
            index,
        )
    }
}

/// What undoes a build.
pub open spec fn build_undo(
    connection_type: Text,
    name: Text,
    store: StoreModel,
    options: OptionsModel,
) -> Seq<UndoModel> {
    (if options.metric is Some && store.metric != options.metric {
        seq![
            UndoModel::EdgeEmbeddingStoreReplaced {
                conn_type: connection_type,
                name,
                prior: Some(store),
            },
        ]
    } else {
        Seq::empty()
    }) + seq![
        UndoModel::EdgeVectorIndexReplaced {
            conn_type: connection_type,
            name,
            prior: index_state_of(store),
        },
    ]
}

/// The declaration that a build records: every number resolved.
pub open spec fn build_declaration(
    connection_type: Text,
    text_property: Text,
    store: StoreModel,
    options: OptionsModel,
) -> DeclarationModel {
    DeclarationModel {
        relationship: true,
        owner_type: connection_type,
        text_column: text_property,
        metric: Some(build_metric(options, store)),
        m: Some(params_of(options).m),
        ef_construction: Some(params_of(options).ef_construction),
        ef_search: Some(params_of(options).ef_search),
        auto_refresh_limit: Some(limit_after(options, store)),
        present: true,
    }
}

/// What a build did.
pub open spec fn build_done(
    before: DirGraph,
    after: DirGraph,
    connection_type: Text,
    text_property: Text,
    options: OptionsModel,
) -> bool {
    let name = store_name_of(text_property);
    let store = lookup(before.edge_embeddings@, connection_type, name)->0;
    &&& wrote_stores(before, after)
    &&& after.edge_embeddings@ == with_entry(
        before.edge_embeddings@,
        connection_type,
        name,
        indexed_store(store, options),
    )
    &&& undo_of(after) == undo_with(
        undo_of(before),
        build_undo(connection_type, name, store, options),
    )
    &&& recorded(after) == recorded_with(
        recorded(before),
        seq![
            OpModel::Declaration(
                build_declaration(connection_type, text_property, store, options),
            ),
        ],
    )
}

/// Builds a store's index in place.
fn index_numeric(
    store: &mut EdgeEmbeddingStore,
    metric: DistanceMetric,
    params: HnswParams,
    limit: Option<usize>,
    declared: Option<&str>,
)
    requires
        old(store).well_formed(),
        old(store)@.nodes.len() <= u32::MAX,
    ensures
        final(store).well_formed(),
        final(store)@ == (StoreModel {
            metric: if declared is Some {
                str_option(declared)
            } else {
                old(store)@.metric
            },
            ..indexed_with(
                StoreModel {
                    freshness: FreshnessModel {
                        limit: given_or(limit, old(store)@.freshness.limit),
                        ..old(store)@.freshness
                    },
                    ..old(store)@
                },
                VectorIndex { metric, params, seed: seed_of(old(store)@.nodes.len()) },
            )
        }),
{
    if let Some(limit) = limit {
        store.numeric.set_auto_refresh_limit(limit);
    }
    let seed: u64 = 0x9E37_79B9_7F4A_7C15u64 ^ (store.len() as u64);
    match store.numeric.build_index(metric, params, seed) {
        Ok(_) => {},
        Err(_) => {
            assert(false);
        },
    }
    if let Some(name) = declared {
        store.numeric.metric = Some(name.to_owned());
    }
}

/// Builds an index over a relationship store. A failed build changes nothing.
pub fn build_edge_vector_index(
    graph: &mut DirGraph,
    connection_type: &str,
    text_property: &str,
    options: &EdgeVectorIndexOptions,
) -> (result: Result<VectorIndexReport, String>)
    requires
        old(graph).well_formed(),
    ensures
        final(graph).well_formed(),
        match result {
            Ok(report) => {
                let store = lookup(
                    old(graph).edge_embeddings@,
                    connection_type@,
                    store_name_of(text_property@),
                );
                &&& build_fault(store, connection_type@, text_property@, options@) is None
                &&& build_done(
                    *old(graph),
                    *final(graph),
                    connection_type@,
                    text_property@,
                    options@,
                )
                &&& report.indexed == store->0.nodes.len()
                &&& report.metric@ == build_metric(options@, store->0)
                &&& report.m == params_of(options@).m
            },
            Err(message) => {
                &&& *final(graph) == *old(graph)
                &&& build_fault(
                    lookup(
                        old(graph).edge_embeddings@,
                        connection_type@,
                        store_name_of(text_property@),
                    ),
                    connection_type@,
                    text_property@,
                    options@,
                ) == Some(message@)
            },
        },
{
    let name = store_name(text_property);
    proof {
        place_is_first(graph.edge_embeddings@, connection_type@, name@);
        store_names_read_back(text_property@);
    }
    let place: usize = match graph.edge_embeddings.position(connection_type, name.as_str()) {
        Some(place) => place,
        None => {
            let mut message = "No relationship embedding store '".to_owned();
            message.append(connection_type);
            message.append(".");
            message.append(text_property);
            message.append("' to index");
            return Err(message);
        },
    };
    let ghost store = graph.edge_embeddings@[place as int].store;
    assert(graph.edge_embeddings.entries@[place as int].store@ == store);
    assert(graph.edge_embeddings.entries@[place as int].store.well_formed());
    let metric_name = metric_for_build(options, &graph.edge_embeddings.entries[place].store);
    let metric = match indexable_metric(metric_name.as_str()) {
        Ok(metric) => metric,
        Err(message) => {
            return Err(message);
        },
    };
    if let (Some(requested), Some(stored)) = (
        &options.metric,
        graph.edge_embeddings.entries[place].store.metric(),
    ) {
        if !text_eq(requested.as_str(), stored) {
            let mut message = "Relationship embedding store '".to_owned();
            message.append(connection_type);
            message.append(".");
            message.append(text_property);
            message.append("' declares metric '");
            message.append(stored);
            message.append("', but this build requested '");
            message.append(requested.as_str());
            message.append("'. Build with '");
            message.append(stored);
            message.append("', or drop the store and set it again with metric '");
            message.append(requested.as_str());
            message.append("'.");
            return Err(message);
        }
    }
    let params = match resolve_params(options) {
        Ok(params) => params,
        Err(message) => {
            return Err(message);
        },
    };
    let indexed: usize = graph.edge_embeddings.entries[place].store.len();
    if indexed > u32::MAX as usize {
        return Err("too many vectors to index".to_owned());
    }
    let metric_moves = options.metric.is_some() && graph.edge_embeddings.entries[place].store.metric(
    ).is_none();
    let prior_store: Option<EdgeEmbeddingStore> = if metric_moves {
        Some(graph.edge_embeddings.entries[place].store.duplicate())
    } else {
        None
    };
    let fresh = EdgeEmbeddingStore::new(0, None);
    let mut writer = graph.edge_embeddings.replace_at(place, fresh);
    let prior = writer.numeric.take_index_state();
    let declared: Option<&str> = match &options.metric {
        Some(_) => Some(metric_name.as_str()),
        None => None,
    };
    index_numeric(&mut writer, metric, params, options.auto_refresh_limit, declared);
    let limit: usize = writer.numeric.auto_refresh_limit();
    let ghost after = writer@;
    let ghost held = writer;
    let _ = graph.edge_embeddings.replace_at(place, writer);
    proof {
        assert(after == indexed_store(store, options@));
        one_store_changed(*old(graph), *graph, place as int, held);
    }
    if let Some(prior_store) = prior_store {
        graph.note_undo(
            UndoEntry::EdgeEmbeddingStoreReplaced {
                conn_type: connection_type.to_owned(),
                name: name.clone(),
                prior: Some(prior_store),
            },
        );
    }
    graph.note_undo(
        UndoEntry::EdgeVectorIndexReplaced {
            conn_type: connection_type.to_owned(),
            name: name.clone(),
            prior,
        },
    );
    proof {
        if old(graph).undo is Some {
            assert(undo_of(*graph)->0 =~= undo_of(*old(graph))->0 + build_undo(
                connection_type@,
                name@,
                store,
                options@,
            ));
        }
    }
    graph.note_declaration(
        VectorIndexDeclaration {
            relationship: true,
            owner_type: connection_type.to_owned(),
            text_column: text_property.to_owned(),
            metric: Some(metric_name.clone()),
            m: Some(params.m),
            ef_construction: Some(params.ef_construction),
            ef_search: Some(params.ef_search),
            auto_refresh_limit: Some(limit),
            present: true,
        },
    );
    graph.bump_version();
    Ok(VectorIndexReport { indexed, metric: metric_name, m: params.m })
}

/// The options of a public build.
pub open spec fn options_of(
    m: Option<usize>,
    ef_construction: Option<usize>,
    ef_search: Option<usize>,
    metric: Option<Text>,
    limit: Option<usize>,
) -> OptionsModel {
    OptionsModel { m, ef_construction, ef_search, metric, limit }
}

/// Builds an index over a relationship store. A failed build changes nothing.
pub fn build_relationship_vector_index(
    graph: &mut DirGraph,
    relationship_type: &str,
    text_column: &str,
    m: Option<usize>,
    ef_construction: Option<usize>,
    ef_search: Option<usize>,
    metric: Option<&str>,
    auto_refresh_limit: Option<usize>,
) -> (result: Result<VectorIndexReport, String>)
    requires
        old(graph).well_formed(),
    ensures
        final(graph).well_formed(),
        match result {
            Ok(report) => {
                let options = options_of(
                    m,
                    ef_construction,
                    ef_search,
                    str_option(metric),
                    auto_refresh_limit,
                );
                let store = lookup(
                    old(graph).edge_embeddings@,
                    relationship_type@,
                    store_name_of(text_column@),
                );
                &&& build_fault(store, relationship_type@, text_column@, options) is None
                &&& build_done(
                    *old(graph),
                    *final(graph),
                    relationship_type@,
                    text_column@,
                    options,
                )
                &&& report.indexed == store->0.nodes.len()
                &&& report.metric@ == build_metric(options, store->0)
                &&& report.m == params_of(options).m
            },
            Err(message) => {
                &&& *final(graph) == *old(graph)
                &&& build_fault(
                    lookup(
                        old(graph).edge_embeddings@,
                        relationship_type@,
                        store_name_of(text_column@),
                    ),
                    relationship_type@,
                    text_column@,
                    options_of(
                        m,
                        ef_construction,
                        ef_search,
                        str_option(metric),
                        auto_refresh_limit,
                    ),
                ) == Some(message@)
            },
        },
{
    let options = EdgeVectorIndexOptions {
        m,
        ef_construction,
        ef_search,
        metric: crate::text::owned_option(metric),
        auto_refresh_limit,
    };
    build_edge_vector_index(graph, relationship_type, text_column, &options)
}

/// What a drop of an index did.
pub open spec fn index_drop_done(
    before: DirGraph,
    after: DirGraph,
    connection_type: Text,
    text_property: Text,
) -> bool {
    let name = store_name_of(text_property);
    let store = lookup(before.edge_embeddings@, connection_type, name)->0;
    &&& wrote_stores(before, after)
    &&& after.edge_embeddings@ == with_entry(
        before.edge_embeddings@,
        connection_type,
        name,
        unindexed(store),
    )
    &&& undo_of(after) == undo_with(
        undo_of(before),
        seq![
            UndoModel::EdgeVectorIndexReplaced {
                conn_type: connection_type,
                name,
                prior: index_state_of(store),
            },
        ],
    )
    &&& recorded(after) == recorded_with(
        recorded(before),
        seq![OpModel::Declaration(drop_declaration(true, connection_type, text_property))],
    )
}

/// The declaration that a drop records.
pub open spec fn drop_declaration(
    relationship: bool,
    owner_type: Text,
    text_column: Text,
) -> DeclarationModel {
    DeclarationModel {
        relationship,
        owner_type,
        text_column,
        metric: None,
        m: None,
        ef_construction: None,
        ef_search: None,
        auto_refresh_limit: None,
        present: false,
    }
}

pub(crate) fn dropped_declaration(relationship: bool, owner_type: &str, text_column: &str) -> (d:
    VectorIndexDeclaration)
    ensures
        d@ == drop_declaration(relationship, owner_type@, text_column@),
{
    VectorIndexDeclaration {
        relationship,
        owner_type: owner_type.to_owned(),
        text_column: text_column.to_owned(),
        metric: None,
        m: None,
        ef_construction: None,
        ef_search: None,
        auto_refresh_limit: None,
        present: false,
    }
}

/// Whether a relationship store is indexed.
pub open spec fn edge_indexed(graph: DirGraph, connection_type: Text, text_property: Text) -> bool {
    match lookup(graph.edge_embeddings@, connection_type, store_name_of(text_property)) {
        Some(store) => store.index is Some,
        None => false,
    }
}

/// Drops the index over a relationship store and keeps the vectors; says
/// whether there was one.
pub fn drop_edge_vector_index(
    graph: &mut DirGraph,
    connection_type: &str,
    text_property: &str,
) -> (result: Result<bool, String>)
    requires
        old(graph).well_formed(),
    ensures
        final(graph).well_formed(),
        match result {
            Ok(dropped) => {
                &&& dropped == edge_indexed(*old(graph), connection_type@, text_property@)
                &&& dropped ==> index_drop_done(
                    *old(graph),
                    *final(graph),
                    connection_type@,
                    text_property@,
                )
                &&& !dropped ==> *final(graph) == *old(graph)
            },
            Err(_) => false,
        },
{
    let name = store_name(text_property);
    proof {
        place_is_first(graph.edge_embeddings@, connection_type@, name@);
    }
    let place: usize = match graph.edge_embeddings.position(connection_type, name.as_str()) {
        Some(place) => place,
        None => {
            return Ok(false);
        },
    };
    let ghost store = graph.edge_embeddings@[place as int].store;
    assert(graph.edge_embeddings.entries@[place as int].store@ == store);
    assert(graph.edge_embeddings.entries@[place as int].store.well_formed());
    if !graph.edge_embeddings.entries[place].store.numeric.has_index() {
        return Ok(false);
    }
    let fresh = EdgeEmbeddingStore::new(0, None);
    let mut writer = graph.edge_embeddings.replace_at(place, fresh);
    let prior = writer.numeric.take_index_state();
    let ghost held = writer;
    let _ = graph.edge_embeddings.replace_at(place, writer);
    proof {
        one_store_changed(*old(graph), *graph, place as int, held);
    }
    graph.note_undo(
        UndoEntry::EdgeVectorIndexReplaced { conn_type: connection_type.to_owned(), name, prior },
    );
    graph.note_declaration(dropped_declaration(true, connection_type, text_property));
    graph.bump_version();
    Ok(true)
}

/// Drops the index over a relationship store and keeps the vectors; says
/// whether there was one.
pub fn drop_relationship_vector_index(
    graph: &mut DirGraph,
    relationship_type: &str,
    text_column: &str,
) -> (result: Result<bool, String>)
    requires
        old(graph).well_formed(),
    ensures
        final(graph).well_formed(),
        match result {
            Ok(dropped) => {
                &&& dropped == edge_indexed(*old(graph), relationship_type@, text_column@)
                &&& dropped ==> index_drop_done(
                    *old(graph),
                    *final(graph),
                    relationship_type@,
                    text_column@,
                )
                &&& !dropped ==> *final(graph) == *old(graph)
            },
            Err(_) => false,
        },
{
    drop_edge_vector_index(graph, relationship_type, text_column)
}

/// Whether a relationship store is indexed.
pub fn has_relationship_vector_index(
    graph: &DirGraph,
    relationship_type: &str,
    text_column: &str,
) -> (has: bool)
    ensures
        has == edge_indexed(*graph, relationship_type@, text_column@),
{
    let name = store_name(text_column);
    match graph.edge_embeddings.get(relationship_type, name.as_str()) {
        Some(store) => store.numeric.has_index(),
        None => false,
    }
}

/// Why a refresh is refused.
pub open spec fn refresh_fault(
    graph: DirGraph,
    connection_type: Text,
    text_property: Text,
    surface: Surface,
) -> Option<Text> {
    match lookup(graph.edge_embeddings@, connection_type, store_name_of(text_property)) {
        None => Some(
            missing_store_text(
                graph,
                EmbeddingEntity::Relationship,
                connection_type,
                text_property,
                surface,
            ),
        ),
        Some(store) => if store.index is None {
            Some(
                no_index_text(
                    EmbeddingEntity::Relationship,
                    connection_type,
                    text_property,
                    surface,
                ),
            )
        } else {
            None
        },
    }
}

/// Folds every outstanding vector into the index over a relationship store;
/// says how many. A graph that may not change folds none.
pub fn refresh_edge_vector_index(
    graph: &mut DirGraph,
    connection_type: &str,
    text_property: &str,
    surface: Surface,
) -> (result: Result<usize, String>)
    requires
        old(graph).well_formed(),
    ensures
        final(graph).well_formed(),
        match result {
            Ok(folded) => {
                let name = store_name_of(text_property@);
                let store = lookup(old(graph).edge_embeddings@, connection_type@, name)->0;
                &&& refresh_fault(*old(graph), connection_type@, text_property@, surface) is None
                &&& old(graph).read_only ==> folded == 0 && *final(graph) == *old(graph)
                &&& !old(graph).read_only ==> {
                    &&& folded == delta_of(store)
                    &&& *final(graph) == (DirGraph {
                        edge_embeddings: final(graph).edge_embeddings,
                        ..*old(graph)
                    })
                    &&& final(graph).edge_embeddings@ == with_entry(
                        old(graph).edge_embeddings@,
                        connection_type@,
                        name,
                        refreshed(store),
                    )
                }
            },
            Err(message) => {
                &&& *final(graph) == *old(graph)
                &&& refresh_fault(*old(graph), connection_type@, text_property@, surface) == Some(
                    message@,
                )
            },
        },
{
    let name = store_name(text_property);
    proof {
        place_is_first(graph.edge_embeddings@, connection_type@, name@);
    }
    let place: usize = match graph.edge_embeddings.position(connection_type, name.as_str()) {
        Some(place) => place,
        None => {
            return Err(
                missing_store_error(
                    graph,
                    EmbeddingEntity::Relationship,
                    connection_type,
                    text_property,
                    surface,
                ),
            );
        },
    };
    assert(graph.edge_embeddings.entries@[place as int].store.well_formed());
    assert(graph.edge_embeddings@[place as int].store
        == graph.edge_embeddings.entries@[place as int].store@);
    if !graph.edge_embeddings.entries[place].store.numeric.has_index() {
        return Err(
            no_index_to_refresh(
                EmbeddingEntity::Relationship,
                connection_type,
                text_property,
                surface,
            ),
        );
    }
    if graph.read_only {
        return Ok(0);
    }
    let fresh = EdgeEmbeddingStore::new(0, None);
    let mut writer = graph.edge_embeddings.replace_at(place, fresh);
    let folded: usize = writer.numeric.refresh_index();
    let ghost held = writer;
    let _ = graph.edge_embeddings.replace_at(place, writer);
    proof {
        one_store_changed(*old(graph), *graph, place as int, held);
    }
    Ok(folded)
}

/// Folds every outstanding vector into the index over a relationship store;
/// refused where there is no store or no index.
pub fn refresh_relationship_vector_index(
    graph: &mut DirGraph,
    relationship_type: &str,
    text_column: &str,
) -> (result: Result<usize, String>)
    requires
        old(graph).well_formed(),
    ensures
        final(graph).well_formed(),
        match result {
            Ok(folded) => {
                let name = store_name_of(text_column@);
                let store = lookup(old(graph).edge_embeddings@, relationship_type@, name)->0;
                &&& refresh_fault(*old(graph), relationship_type@, text_column@, Surface::Method)
                    is None
                &&& old(graph).read_only ==> folded == 0 && *final(graph) == *old(graph)
                &&& !old(graph).read_only ==> {
                    &&& folded == delta_of(store)
                    &&& *final(graph) == (DirGraph {
                        edge_embeddings: final(graph).edge_embeddings,
                        ..*old(graph)
                    })
                    &&& final(graph).edge_embeddings@ == with_entry(
                        old(graph).edge_embeddings@,
                        relationship_type@,
                        name,
                        refreshed(store),
                    )
                }
            },
            Err(message) => {
                &&& *final(graph) == *old(graph)
                &&& refresh_fault(*old(graph), relationship_type@, text_column@, Surface::Method)
                    == Some(message@)
            },
        },
{
    refresh_edge_vector_index(graph, relationship_type, text_column, Surface::Method)
}

/// How the index over a relationship store stands.
#[derive(Debug, Clone, PartialEq, Eq)]
pub struct EdgeVectorIndexStatus {
    /// The relationship type.
    pub connection_type: String,
    /// The text property.
    pub text_property: String,
    /// Whether there is an index.
    pub built: bool,
    /// Whether vectors are outstanding.
    pub stale: bool,
    /// The vectors that are outstanding.
    pub delta: usize,
    /// The relationships of the type without a vector.
    pub unembedded: usize,
}

/// What a status says.
pub struct StatusModel {
    pub owner_type: Text,
    pub text_column: Text,
    pub built: bool,
    pub stale: bool,
    pub delta: nat,
    pub unembedded: nat,
}

impl View for EdgeVectorIndexStatus {
    type V = StatusModel;

    open spec fn view(&self) -> StatusModel {
        StatusModel {
            owner_type: self.connection_type@,
            text_column: self.text_property@,
            built: self.built,
            stale: self.stale,
            delta: self.delta as nat,
            unembedded: self.unembedded as nat,
        }
    }
}

/// How an index stands, where the type has `members`.
pub open spec fn status_of(
    owner_type: Text,
    text_column: Text,
    store: StoreModel,
    members: nat,
) -> StatusModel {
    StatusModel {
        owner_type,
        text_column,
        built: store.index is Some,
        stale: delta_of(store) > 0,
        delta: delta_of(store),
        unembedded: if members > store.nodes.len() {
            (members - store.nodes.len()) as nat
        } else {
            0
        },
    }
}

/// How every relationship index stands, by type and then by property.
pub open spec fn edge_statuses(graph: DirGraph) -> Seq<StatusModel> {
    let pairs = stores_on(graph.edge_embeddings@);
    Seq::new(
        pairs.len(),
        |i: int|
            status_of(
                pairs[i].0,
                pairs[i].1,
                lookup(graph.edge_embeddings@, pairs[i].0, store_name_of(pairs[i].1))->0,
                typed_edges(graph.topology.edges@, pairs[i].0).len(),
            ),
    )
}

/// What the rows say.
pub open spec fn edge_status_rows(rows: Seq<EdgeVectorIndexStatus>) -> Seq<StatusModel> {
    Seq::new(rows.len(), |i: int| rows[i]@)
}

/// How every relationship index stands, by type and then by property.
pub fn list_edge_vector_indexes(graph: &DirGraph) -> (rows: Vec<EdgeVectorIndexStatus>)
    requires
        graph.well_formed(),
    ensures
        edge_status_rows(rows@) == edge_statuses(*graph),
{
    let pairs = listed_stores(&graph.edge_embeddings);
    let ghost entries = graph.edge_embeddings@;
    let mut rows: Vec<EdgeVectorIndexStatus> = Vec::new();
    let mut i: usize = 0;
    while i < pairs.len()
        invariant
            i <= pairs@.len(),
            graph.well_formed(),
            entries == graph.edge_embeddings@,
            pair_texts(pairs@) == stores_on(entries),
            pair_texts(pairs@).to_set() == pairs_kept(entries, entries.len() as int),
            rows@.len() == i,
            forall|k: int| 0 <= k < i ==> (#[trigger] rows@[k])@ == edge_statuses(*graph)[k],
        decreases pairs@.len() - i,
    {
        let ghost pair = pair_texts(pairs@)[i as int];
        proof {
            assert(pair_texts(pairs@).to_set().contains(pair));
            listed_pairs_are_kept(entries, pair);
        }
        let name = store_name(pairs[i].1.as_str());
        match graph.edge_embeddings.get(pairs[i].0.as_str(), name.as_str()) {
            Some(store) => {
                let members: usize = graph.topology.edges_of_type(pairs[i].0.as_str()).len();
                let held: usize = store.len();
                let row = EdgeVectorIndexStatus {
                    connection_type: pairs[i].0.as_str().to_owned(),
                    text_property: pairs[i].1.as_str().to_owned(),
                    built: store.numeric.has_index(),
                    stale: store.numeric.index_is_stale(),
                    delta: store.numeric.delta_size(),
                    unembedded: if members > held {
                        members - held
                    } else {
                        0
                    },
                };
                assert(row@ == edge_statuses(*graph)[i as int]);
                rows.push(row);
            },
            None => {
                assert(false);
            },
        }
        i = i + 1;
    }
    assert(edge_status_rows(rows@) =~= edge_statuses(*graph));
    rows
}

/// Why a recorded declaration of a relationship index cannot be applied.
pub open spec fn apply_fault(store: StoreModel, options: OptionsModel) -> Option<Text> {
    if indexable_fault(build_metric(options, store)) is Some {
        indexable_fault(build_metric(options, store))
    } else if params_fault(options) is Some {
        params_fault(options)
    } else if store.nodes.len() > u32::MAX {
        Some("too many vectors to index"@)
    } else {
        None
    }
}

/// Applies a recorded declaration: builds or drops the index, without
/// recording or journalling it. A store that is not there is passed over, and a
/// metric that the store contradicts becomes the store's.
pub fn apply_edge_vector_index_declaration(
    graph: &mut DirGraph,
    connection_type: &str,
    text_property: &str,
    options: &EdgeVectorIndexOptions,
    present: bool,
) -> (result: Result<(), String>)
    requires
        old(graph).well_formed(),
    ensures
        final(graph).well_formed(),
        *final(graph) == (DirGraph {
            edge_embeddings: final(graph).edge_embeddings,
            ..*old(graph)
        }),
        match lookup(
            old(graph).edge_embeddings@,
            connection_type@,
            store_name_of(text_property@),
        ) {
            None => result is Ok && *final(graph) == *old(graph),
            Some(store) => if !present {
                &&& result is Ok
                &&& final(graph).edge_embeddings@ == with_entry(
                    old(graph).edge_embeddings@,
                    connection_type@,
                    store_name_of(text_property@),
                    unindexed(store),
                )
            } else {
                match result {
                    Ok(_) => {
                        &&& apply_fault(store, options@) is None
                        &&& final(graph).edge_embeddings@ == with_entry(
                            old(graph).edge_embeddings@,
                            connection_type@,
                            store_name_of(text_property@),
                            indexed_store(store, options@),
                        )
                    },
                    Err(message) => {
                        &&& *final(graph) == *old(graph)
                        &&& apply_fault(store, options@) == Some(message@)
                    },
                }
            },
        },
{
    let name = store_name(text_property);
    proof {
        place_is_first(graph.edge_embeddings@, connection_type@, name@);
    }
    let place: usize = match graph.edge_embeddings.position(connection_type, name.as_str()) {
        Some(place) => place,
        None => {
            return Ok(());
        },
    };
    let ghost store = graph.edge_embeddings@[place as int].store;
    assert(graph.edge_embeddings.entries@[place as int].store@ == store);
    assert(graph.edge_embeddings.entries@[place as int].store.well_formed());
    if !present {
        let fresh = EdgeEmbeddingStore::new(0, None);
        let mut writer = graph.edge_embeddings.replace_at(place, fresh);
        writer.numeric.invalidate_index();
        let ghost held = writer;
        let _ = graph.edge_embeddings.replace_at(place, writer);
        proof {
            one_store_changed(*old(graph), *graph, place as int, held);
        }
        return Ok(());
    }
    let metric_name = metric_for_build(options, &graph.edge_embeddings.entries[place].store);
    let metric = match indexable_metric(metric_name.as_str()) {
        Ok(metric) => metric,
        Err(message) => {
            return Err(message);
        },
    };
    let params = match resolve_params(options) {
        Ok(params) => params,
        Err(message) => {
            return Err(message);
        },
    };
    if graph.edge_embeddings.entries[place].store.len() > u32::MAX as usize {
        return Err("too many vectors to index".to_owned());
    }
    let declared: Option<&str> = match &options.metric {
        Some(_) => Some(metric_name.as_str()),
        None => None,
    };
    let fresh = EdgeEmbeddingStore::new(0, None);
    let mut writer = graph.edge_embeddings.replace_at(place, fresh);
    index_numeric(&mut writer, metric, params, options.auto_refresh_limit, declared);
    let ghost held = writer;
    let _ = graph.edge_embeddings.replace_at(place, writer);
    proof {
        assert(held@ == indexed_store(store, options@));
        one_store_changed(*old(graph), *graph, place as int, held);
    }
    Ok(())
}

/// The options that a declaration gives.
pub open spec fn declared_options(declaration: DeclarationModel) -> OptionsModel {
    OptionsModel {
        m: declaration.m,
        ef_construction: declaration.ef_construction,
        ef_search: declaration.ef_search,
        metric: declaration.metric,
        limit: declaration.auto_refresh_limit,
    }
}

/// Applying what a build recorded, to the store it was built over, gives the
/// index that the build gave; and the store then names the metric that the
/// index ranks by.
pub proof fn a_recorded_build_is_reproduced(
    connection_type: Text,
    text_property: Text,
    store: StoreModel,
    options: OptionsModel,
)
    requires
        build_fault(Some(store), connection_type, text_property, options) is None,
    ensures
        ({
            let replayed = declared_options(
                build_declaration(connection_type, text_property, store, options),
            );
            &&& apply_fault(store, replayed) is None
            &&& indexed_store(store, replayed) == (StoreModel {
                metric: Some(build_metric(options, store)),
                ..indexed_store(store, options)
            })
        }),
{
}

} // verus!
