//! Ranking relationship stores against a query, and reading or removing one.

use crate::address::{resolve_address, row_resolved, RelationshipVector};
use crate::catalog::{kept, lookup, place_is_first, with_entry, EntryModel};
use crate::coordinate::{fault_of, non_finite_message, validate_finite_vector};
use crate::edge_read::{copy_numbers, place_at, PlaceModel};
use crate::edge_replace::{drop_done, drop_edge_embedding_store};
use crate::edge_store::EdgeEmbeddingStore;
use crate::edge_vector_index::unknown_metric;
use crate::graph::DirGraph;
use crate::groups::{key_value, RelationshipKeys};
use crate::hints::{
    column_hint_text, known_stores, missing_column_hint, missing_store_error, missing_store_text,
    other_of, Surface,
};
use crate::inventory::EmbeddingEntity;
use crate::metric::metric_named;
use crate::name_pairs::{listed_stores, pair_texts, stores_on, types_of_pairs, types_over};
use crate::names::{store_name, store_name_of};
use crate::order::{ascending, ascending_of_items, ascends};
use crate::ranking::{
    answers_fit, hit_models, merged_ranking, query_dense_store, query_metric, rank_dense_stores,
    rank_fault, resolve_dense_metric, store_hits, store_method, store_models, store_route,
    EdgeVectorQueryOptions, HitModel, ScoredTarget, SearchMethod, StoreAnswer,
};
use crate::statement::one_store_changed;
use crate::store::{caught_up, vector_of, EmbeddingStore, StoreModel};
use crate::text::{
    decimal, insert_text, push_number, str_option, text_option, text_order, text_order_is_order,
    texts, Text,
};
use crate::topology::Topology;
use crate::value::{model_option, EdgeIndex, Value};
use vstd::prelude::*;

verus! {

/// One hit of a merged ranking of relationship stores.
#[derive(Debug, Clone, PartialEq, Eq)]
pub struct EdgeStoreQueryHit {
    /// The relationship type whose store answered.
    pub rel_type: String,
    /// The relationship.
    pub edge: EdgeIndex,
    /// The score's bits.
    pub score: u64,
    /// How the store answered.
    pub search_method: SearchMethod,
}

impl View for EdgeStoreQueryHit {
    type V = HitModel;

    open spec fn view(&self) -> HitModel {
        HitModel {
            owner_type: self.rel_type@,
            target: self.edge.slot,
            score: self.score,
            method: self.search_method,
        }
    }
}

/// What hits say.
pub open spec fn edge_hit_models(hits: Seq<EdgeStoreQueryHit>) -> Seq<HitModel> {
    Seq::new(hits.len(), |i: int| hits[i]@)
}

/// The refusal of a query vector.
pub open spec fn query_vector_fault(query: Seq<u32>) -> Option<Text> {
    match fault_of(query) {
        Some(error) => Some(
            "Invalid relationship embedding query: "@ + non_finite_message(error),
        ),
        None => None,
    }
}

fn check_query_vector(query: &[u32]) -> (result: Result<(), String>)
    ensures
        match result {
            Ok(_) => query_vector_fault(query@) is None,
            Err(message) => query_vector_fault(query@) == Some(message@),
        },
{
    match validate_finite_vector(query) {
        Ok(_) => Ok(()),
        Err(error) => {
            let mut message = "Invalid relationship embedding query: ".to_owned();
            message.append(error.message().as_str());
            Err(message)
        },
    }
}

/// The first type, from `position`, without the store.
pub open spec fn absent_store(
    graph: DirGraph,
    types: Seq<Text>,
    text_property: Text,
    surface: Surface,
    position: int,
) -> Option<Text>
    decreases types.len() - position,
{
    if position < 0 || position >= types.len() {
        None
    } else if kept(graph.edge_embeddings@, types[position], store_name_of(text_property)) {
        absent_store(graph, types, text_property, surface, position + 1)
    } else {
        Some(
            missing_store_text(
                graph,
                EmbeddingEntity::Relationship,
                types[position],
                text_property,
                surface,
            ),
        )
    }
}

/// The stores of types for a text property.
pub open spec fn stores_of(graph: DirGraph, types: Seq<Text>, text_property: Text) -> Seq<
    StoreModel,
> {
    Seq::new(
        types.len(),
        |i: int|
            lookup(graph.edge_embeddings@, types[i], store_name_of(text_property))->0,
    )
}

/// Why a ranking is refused.
pub open spec fn query_fault(
    graph: DirGraph,
    types: Seq<Text>,
    text_property: Text,
    query: Seq<u32>,
    top_k: nat,
    metric: Option<Text>,
    surface: Surface,
) -> Option<Text> {
    if query_vector_fault(query) is Some {
        query_vector_fault(query)
    } else if absent_store(graph, types, text_property, surface, 0) is Some {
        absent_store(graph, types, text_property, surface, 0)
    } else {
        rank_fault(
            "Relationship"@,
            types,
            stores_of(graph, types, text_property),
            text_property,
            query.len(),
            top_k,
            metric,
        )
    }
}

/// The entries after the first `count` types' stores caught up.
pub open spec fn stores_caught_up(
    entries: Seq<EntryModel<StoreModel>>,
    types: Seq<Text>,
    name: Text,
    read_only: bool,
    count: nat,
) -> Seq<EntryModel<StoreModel>>
    decreases count,
{
    if count == 0 {
        entries
    } else {
        let before = stores_caught_up(entries, types, name, read_only, (count - 1) as nat);
        match lookup(before, types[count - 1], name) {
            Some(store) => with_entry(
                before,
                types[count - 1],
                name,
                caught_up(store, read_only),
            ),
            None => before,
        }
    }
}

/// Whether the indexes over the types' stores caught up, and nothing else changed.
pub open spec fn indexes_caught_up(
    before: DirGraph,
    after: DirGraph,
    types: Seq<Text>,
    text_property: Text,
) -> bool {
    &&& after == (DirGraph { edge_embeddings: after.edge_embeddings, ..before })
    &&& after.edge_embeddings@ == stores_caught_up(
        before.edge_embeddings@,
        types,
        store_name_of(text_property),
        before.read_only,
        types.len(),
    )
}

/// What a query leaves behind: the stores that it may have answered from their
/// index have caught up.
pub open spec fn queried(
    before: DirGraph,
    after: DirGraph,
    types: Seq<Text>,
    text_property: Text,
    exact: bool,
    top_k: nat,
) -> bool {
    if exact || top_k == 0 {
        after == before
    } else {
        indexes_caught_up(before, after, types, text_property)
    }
}

/// Folds what is outstanding into the indexes over the types' stores, where a
/// query may fold that much in by itself.
pub fn catch_up_stores(graph: &mut DirGraph, types: &Vec<String>, text_property: &str)
    requires
        old(graph).well_formed(),
    ensures
        final(graph).well_formed(),
        indexes_caught_up(*old(graph), *final(graph), texts(types@), text_property@),
{
    let name = store_name(text_property);
    let ghost names = texts(types@);
    let ghost entries = graph.edge_embeddings@;
    let mut i: usize = 0;
    while i < types.len()
        invariant
            i <= types@.len(),
            graph.well_formed(),
            names == texts(types@),
            entries == old(graph).edge_embeddings@,
            name@ == store_name_of(text_property@),
            *graph == (DirGraph { edge_embeddings: graph.edge_embeddings, ..*old(graph) }),
            graph.edge_embeddings@ == stores_caught_up(
                entries,
                names,
                name@,
                old(graph).read_only,
                i as nat,
            ),
        decreases types@.len() - i,
    {
        let rel_type = types[i].as_str();
        assert(names[i as int] == rel_type@);
        proof {
            place_is_first(graph.edge_embeddings@, rel_type@, name@);
        }
        if let Some(place) = graph.edge_embeddings.position(rel_type, name.as_str()) {
            let ghost before = *graph;
            assert(graph.edge_embeddings.entries@[place as int].store.well_formed());
            assert(graph.edge_embeddings@[place as int].store
                == graph.edge_embeddings.entries@[place as int].store@);
            let read_only = graph.read_only;
            let mut store = graph.edge_embeddings.replace_at(
                place,
                EdgeEmbeddingStore::new(0, None),
            );
            store.numeric.catch_up(read_only);
            let ghost held = store;
            let _ = graph.edge_embeddings.replace_at(place, store);
            proof {
                one_store_changed(before, *graph, place as int, held);
            }
        }
        i = i + 1;
    }
}

/// Ranks the stores of `types` against a query, each store's scores given, and
/// merges them: the best first, then by type, then by slot. An index that a store
/// may answer from catches up.
pub fn query_edge_embedding_stores(
    graph: &mut DirGraph,
    types: &Vec<String>,
    text_property: &str,
    query: &[u32],
    options: &EdgeVectorQueryOptions,
    surface: Surface,
    answers: &Vec<StoreAnswer>,
) -> (result: Result<Vec<EdgeStoreQueryHit>, String>)
    requires
        old(graph).well_formed(),
        query_fault(
            *old(graph),
            texts(types@),
            text_property@,
            query@,
            options.top_k as nat,
            text_option(options.metric),
            surface,
        ) is None ==> answers_fit(
            stores_of(*old(graph), texts(types@), text_property@),
            answers@,
            options.top_k as nat,
            options.exact,
            text_option(options.metric),
            old(graph).read_only,
        ),
    ensures
        final(graph).well_formed(),
        match result {
            Ok(hits) => {
                &&& queried(
                    *old(graph),
                    *final(graph),
                    texts(types@),
                    text_property@,
                    options.exact,
                    options.top_k as nat,
                )
                &&& query_fault(
                    *old(graph),
                    texts(types@),
                    text_property@,
                    query@,
                    options.top_k as nat,
                    text_option(options.metric),
                    surface,
                ) is None
                &&& edge_hit_models(hits@) == merged_ranking(
                    texts(types@),
                    stores_of(*old(graph), texts(types@), text_property@),
                    answers@,
                    options.top_k as nat,
                )
            },
            Err(message) => {
                &&& *final(graph) == *old(graph)
                &&& query_fault(
                    *old(graph),
                    texts(types@),
                    text_property@,
                    query@,
                    options.top_k as nat,
                    text_option(options.metric),
                    surface,
                ) == Some(message@)
            },
        },
{
    if let Err(message) = check_query_vector(query) {
        return Err(message);
    }
    let name = store_name(text_property);
    let ghost names = texts(types@);
    let mut stores: Vec<&EmbeddingStore> = Vec::new();
    let mut i: usize = 0;
    while i < types.len()
        invariant
            i <= types@.len(),
            graph.well_formed(),
            names == texts(types@),
            name@ == store_name_of(text_property@),
            query_vector_fault(query@) is None,
            absent_store(*graph, names, text_property@, surface, 0) == absent_store(
                *graph,
                names,
                text_property@,
                surface,
                i as int,
            ),
            stores@.len() == i,
            forall|k: int|
                0 <= k < i ==> (#[trigger] stores@[k]).well_formed() && stores@[k]@ == stores_of(
                    *graph,
                    names,
                    text_property@,
                )[k],
        decreases types@.len() - i,
    {
        let rel_type = types[i].as_str();
        assert(names[i as int] == rel_type@);
        match graph.edge_embeddings.get(rel_type, name.as_str()) {
            Some(store) => {
                stores.push(&store.numeric);
            },
            None => {
                return Err(
                    missing_store_error(
                        graph,
                        EmbeddingEntity::Relationship,
                        rel_type,
                        text_property,
                        surface,
                    ),
                );
            },
        }
        i = i + 1;
    }
    assert(store_models(stores@) =~= stores_of(*graph, names, text_property@));
    let hits = match rank_dense_stores(
        "Relationship",
        types,
        &stores,
        text_property,
        query,
        options,
        graph.read_only,
        answers,
    ) {
        Ok(hits) => hits,
        Err(message) => {
            return Err(message);
        },
    };
    let ghost models = hit_models(hits@);
    let mut out: Vec<EdgeStoreQueryHit> = Vec::new();
    let mut n: usize = 0;
    while n < hits.len()
        invariant
            n <= hits@.len(),
            models == hit_models(hits@),
            out@.len() == n,
            forall|k: int| 0 <= k < n ==> (#[trigger] out@[k])@ == models[k],
        decreases hits@.len() - n,
    {
        let hit = &hits[n];
        assert(models[n as int] == hit@);
        out.push(
            EdgeStoreQueryHit {
                rel_type: hit.owner_type.as_str().to_owned(),
                edge: EdgeIndex::new(hit.target),
                score: hit.score,
                search_method: hit.search_method,
            },
        );
        n = n + 1;
    }
    assert(edge_hit_models(out@) =~= models);
    if !options.exact && options.top_k > 0 {
        catch_up_stores(graph, types, text_property);
    }
    Ok(out)
}

/// The answer of one relationship store to a query.
#[derive(Debug, Clone, PartialEq, Eq)]
pub struct EdgeVectorQueryReport {
    /// The hits, the best first.
    pub hits: Vec<ScoredTarget>,
    /// How the store answered.
    pub search_method: SearchMethod,
}

/// Why the query of one store is refused.
pub open spec fn single_query_fault(
    graph: DirGraph,
    connection_type: Text,
    text_property: Text,
    query: Seq<u32>,
    top_k: nat,
    metric: Option<Text>,
) -> Option<Text> {
    if query_vector_fault(query) is Some {
        query_vector_fault(query)
    } else {
        match lookup(graph.edge_embeddings@, connection_type, store_name_of(text_property)) {
            None => Some(
                "No relationship embedding store '"@ + connection_type + "."@ + text_property
                    + "'"@,
            ),
            Some(store) => if query.len() != store.dimension {
                Some(
                    "Query dimension "@ + decimal(query.len())
                        + " does not match store dimension "@ + decimal(store.dimension as nat),
                )
            } else if top_k > 0 && store.nodes.len() > 0 && metric_named(
                query_metric(store, metric),
            ) is None {
                Some(unknown_metric(query_metric(store, metric)))
            } else {
                None
            },
        }
    }
}

/// Ranks one relationship store against a query, its scores given.
pub fn query_edge_embeddings(
    graph: &mut DirGraph,
    connection_type: &str,
    text_property: &str,
    query: &[u32],
    options: &EdgeVectorQueryOptions,
    answer: &StoreAnswer,
) -> (result: Result<EdgeVectorQueryReport, String>)
    requires
        old(graph).well_formed(),
        single_query_fault(
            *old(graph),
            connection_type@,
            text_property@,
            query@,
            options.top_k as nat,
            text_option(options.metric),
        ) is None ==> {
            let store = lookup(
                old(graph).edge_embeddings@,
                connection_type@,
                store_name_of(text_property@),
            )->0;
            options.top_k > 0 && store.nodes.len() > 0 ==> answer.fits(store) && answer.method()
                == store_route(
                store,
                options.exact,
                text_option(options.metric),
                old(graph).read_only,
            )
        },
    ensures
        final(graph).well_formed(),
        match result {
            Ok(report) => {
                let store = lookup(
                    old(graph).edge_embeddings@,
                    connection_type@,
                    store_name_of(text_property@),
                )->0;
                &&& single_query_fault(
                    *old(graph),
                    connection_type@,
                    text_property@,
                    query@,
                    options.top_k as nat,
                    text_option(options.metric),
                ) is None
                &&& queried(
                    *old(graph),
                    *final(graph),
                    seq![connection_type@],
                    text_property@,
                    options.exact,
                    options.top_k as nat,
                )
                &&& report.hits@ == store_hits(store, *answer, options.top_k as nat)
                &&& report.search_method == store_method(store, *answer, options.top_k as nat)
            },
            Err(message) => {
                &&& *final(graph) == *old(graph)
                &&& single_query_fault(
                    *old(graph),
                    connection_type@,
                    text_property@,
                    query@,
                    options.top_k as nat,
                    text_option(options.metric),
                ) == Some(message@)
            },
        },
{
    if let Err(message) = check_query_vector(query) {
        return Err(message);
    }
    let name = store_name(text_property);
    let store = match graph.edge_embeddings.get(connection_type, name.as_str()) {
        Some(store) => store,
        None => {
            let mut message = "No relationship embedding store '".to_owned();
            message.append(connection_type);
            message.append(".");
            message.append(text_property);
            message.append("'");
            return Err(message);
        },
    };
    if query.len() != store.dimension() {
        let mut message = "Query dimension ".to_owned();
        push_number(&mut message, query.len());
        message.append(" does not match store dimension ");
        push_number(&mut message, store.dimension());
        return Err(message);
    }
    if options.top_k > 0 && !store.is_empty() {
        let metric: Option<&str> = match &options.metric {
            Some(metric) => Some(metric.as_str()),
            None => None,
        };
        if let Err(message) = resolve_dense_metric(&store.numeric, metric) {
            return Err(message);
        }
    }
    let (hits, search_method) = query_dense_store(&store.numeric, options.top_k, answer);
    if !options.exact && options.top_k > 0 {
        let mut types: Vec<String> = Vec::new();
        types.push(connection_type.to_owned());
        assert(texts(types@) =~= seq![connection_type@]);
        catch_up_stores(graph, &types, text_property);
    }
    Ok(EdgeVectorQueryReport { hits, search_method })
}

/// How a search ranks.
#[derive(Debug, Clone)]
pub struct RelationshipSearchOptions {
    /// The most hits.
    pub top_k: usize,
    /// Whether every vector is to be scored though there is an index.
    pub exact: bool,
    /// The metric to score under, in place of the stores' own.
    pub metric: Option<String>,
}

impl RelationshipSearchOptions {
    /// `top_k` hits under the stores' own metrics, from an index where one is.
    pub fn new(top_k: usize) -> (options: RelationshipSearchOptions)
        ensures
            options.top_k == top_k,
            !options.exact,
            options.metric is None,
    {
        RelationshipSearchOptions { top_k, exact: false, metric: None }
    }

    /// With every vector scored, or not.
    pub fn with_exact(self, exact: bool) -> (options: RelationshipSearchOptions)
        ensures
            options == (RelationshipSearchOptions { exact, ..self }),
    {
        RelationshipSearchOptions { top_k: self.top_k, exact, metric: self.metric }
    }

    /// With the metric to score under.
    pub fn with_metric(self, metric: Option<&str>) -> (options: RelationshipSearchOptions)
        ensures
            options.top_k == self.top_k,
            options.exact == self.exact,
            text_option(options.metric) == str_option(metric),
    {
        RelationshipSearchOptions {
            top_k: self.top_k,
            exact: self.exact,
            metric: match metric {
                Some(name) => Some(name.to_owned()),
                None => None,
            },
        }
    }
}

/// One ranked relationship: where it stands, the type whose store answered, and
/// its score.
#[derive(Debug, Clone)]
pub struct RelationshipSearchHit {
    /// The relationship type whose store answered.
    pub relationship_type: String,
    /// The source node's type.
    pub source_type: String,
    /// The source node's id.
    pub source_id: Value,
    /// The target node's type.
    pub target_type: String,
    /// The target node's id.
    pub target_id: Value,
    /// The relationship's key value, where a key property is named and the
    /// relationship has it.
    pub key: Option<Value>,
    /// The score's bits.
    pub score: u64,
}

/// What a ranked relationship says.
pub struct SearchHitModel {
    pub relationship_type: Text,
    pub place: PlaceModel,
    pub score: u64,
}

impl View for RelationshipSearchHit {
    type V = SearchHitModel;

    open spec fn view(&self) -> SearchHitModel {
        SearchHitModel {
            relationship_type: self.relationship_type@,
            place: PlaceModel {
                source_type: self.source_type@,
                source_id: self.source_id@,
                target_type: self.target_type@,
                target_id: self.target_id@,
                key: model_option(self.key),
            },
            score: self.score,
        }
    }
}

/// What ranked relationships say.
pub open spec fn search_models(hits: Seq<RelationshipSearchHit>) -> Seq<SearchHitModel> {
    Seq::new(hits.len(), |i: int| hits[i]@)
}

/// The types to rank: those that are given, each once and in order, or every
/// type with a store for the text column.
pub open spec fn search_types_of(graph: DirGraph, types: Option<Seq<Text>>, text_column: Text) -> Seq<
    Text,
> {
    match types {
        Some(given) => ascending(given.to_set(), text_order()),
        None => {
            let pairs = stores_on(graph.edge_embeddings@);
            types_over(pairs, text_column, pairs.len())
        },
    }
}

/// Why there are no types to rank.
pub open spec fn types_fault(graph: DirGraph, types: Option<Seq<Text>>, text_column: Text) -> Option<
    Text,
> {
    match types {
        Some(given) => if given.len() == 0 {
            Some(
                "types is empty; name at least one relationship type, or omit types to rank every '"@
                    + text_column + "' store"@,
            )
        } else {
            None
        },
        None => if search_types_of(graph, types, text_column).len() == 0 {
            Some(
                "No relationship embedding store for text column '"@ + text_column + "'."@
                    + column_hint_text(
                    known_stores(graph, EmbeddingEntity::Relationship),
                    known_stores(graph, other_of(EmbeddingEntity::Relationship)),
                    EmbeddingEntity::Relationship,
                    text_column,
                    Surface::Method,
                ),
            )
        } else {
            None
        },
    }
}

/// What given types say.
pub open spec fn given_texts(types: Option<&Vec<String>>) -> Option<Seq<Text>> {
    match types {
        Some(given) => Some(texts(given@)),
        None => None,
    }
}

/// The types a search ranks.
pub fn search_types(graph: &DirGraph, types: Option<&Vec<String>>, text_column: &str) -> (result:
    Result<Vec<String>, String>)
    ensures
        match result {
            Ok(ranked) => {
                &&& types_fault(*graph, given_texts(types), text_column@) is None
                &&& texts(ranked@) == search_types_of(*graph, given_texts(types), text_column@)
            },
            Err(message) => types_fault(*graph, given_texts(types), text_column@) == Some(message@),
        },
{
    match types {
        Some(given) => {
            if given.len() == 0 {
                let mut message =
                    "types is empty; name at least one relationship type, or omit types to rank every '".to_owned();
                message.append(text_column);
                message.append("' store");
                return Err(message);
            }
            let ghost names = texts(given@);
            let mut ranked: Vec<String> = Vec::new();
            assert(texts(ranked@) =~= Seq::<Text>::empty());
            assert(texts(ranked@).to_set() =~= names.take(0).to_set());
            let mut i: usize = 0;
            while i < given.len()
                invariant
                    i <= given@.len(),
                    names == texts(given@),
                    ascends(texts(ranked@), text_order()),
                    texts(ranked@).to_set() == names.take(i as int).to_set(),
                decreases given@.len() - i,
            {
                insert_text(&mut ranked, given[i].as_str());
                proof {
                    assert(names[i as int] == given@[i as int]@);
                    assert(names.take(i + 1) =~= names.take(i as int).push(names[i as int]));
                    assert(names.take(i + 1).to_set() =~= names.take(i as int).to_set().insert(
                        names[i as int],
                    )) by {
                        broadcast use vstd::seq_lib::group_seq_properties;

                    }
                }
                i = i + 1;
            }
            proof {
                assert(names.take(i as int) =~= names);
                text_order_is_order();
                ascending_of_items(texts(ranked@), text_order());
            }
            Ok(ranked)
        },
        None => {
            let pairs = listed_stores(&graph.edge_embeddings);
            let ranked = types_of_pairs(&pairs, text_column);
            assert(ranked@.len() == texts(ranked@).len());
            assert(pair_texts(pairs@).len() == pairs@.len());
            if ranked.len() == 0 {
                let mut message = "No relationship embedding store for text column '".to_owned();
                message.append(text_column);
                message.append("'.");
                message.append(
                    missing_column_hint(
                        graph,
                        EmbeddingEntity::Relationship,
                        text_column,
                        Surface::Method,
                    ).as_str(),
                );
                return Err(message);
            }
            Ok(ranked)
        },
    }
}

/// The ranked relationships that live, among the first `count` hits.
pub open spec fn placed_hits(
    topology: Topology,
    keys: RelationshipKeys,
    hits: Seq<HitModel>,
    count: nat,
) -> Seq<SearchHitModel>
    decreases count,
{
    if count == 0 {
        Seq::empty()
    } else {
        let before = placed_hits(topology, keys, hits, (count - 1) as nat);
        let hit = hits[count - 1];
        let edge = EdgeIndex { slot: hit.target };
        if topology.live(edge) {
            before.push(
                SearchHitModel {
                    relationship_type: hit.owner_type,
                    place: place_at(topology, keys.property_of(hit.owner_type), edge),
                    score: hit.score,
                },
            )
        } else {
            before
        }
    }
}

/// Why a search is refused.
pub open spec fn search_fault(
    graph: DirGraph,
    types: Option<Seq<Text>>,
    text_column: Text,
    query: Seq<u32>,
    top_k: nat,
    metric: Option<Text>,
) -> Option<Text> {
    if types_fault(graph, types, text_column) is Some {
        types_fault(graph, types, text_column)
    } else {
        query_fault(
            graph,
            search_types_of(graph, types, text_column),
            text_column,
            query,
            top_k,
            metric,
            Surface::Method,
        )
    }
}

/// The hits of a search, each where it stands.
pub open spec fn search_hits(
    graph: DirGraph,
    types: Option<Seq<Text>>,
    text_column: Text,
    top_k: nat,
    keys: RelationshipKeys,
    answers: Seq<StoreAnswer>,
) -> Seq<SearchHitModel> {
    let ranked = search_types_of(graph, types, text_column);
    let hits = merged_ranking(ranked, stores_of(graph, ranked, text_column), answers, top_k);
    placed_hits(graph.topology, keys, hits, hits.len())
}

/// Ranks the stores of types for a text column against a query, and says where
/// each relationship of the ranking stands. `answers` holds each ranked
/// store's scores, in the order of `search_types`.
pub fn search_relationship_embeddings(
    graph: &mut DirGraph,
    types: Option<&Vec<String>>,
    text_column: &str,
    query: &[u32],
    options: &RelationshipSearchOptions,
    keys: &RelationshipKeys,
    answers: &Vec<StoreAnswer>,
) -> (result: Result<Vec<RelationshipSearchHit>, String>)
    requires
        old(graph).well_formed(),
        search_fault(
            *old(graph),
            given_texts(types),
            text_column@,
            query@,
            options.top_k as nat,
            text_option(options.metric),
        ) is None ==> answers_fit(
            stores_of(
                *old(graph),
                search_types_of(*old(graph), given_texts(types), text_column@),
                text_column@,
            ),
            answers@,
            options.top_k as nat,
            options.exact,
            text_option(options.metric),
            old(graph).read_only,
        ),
    ensures
        final(graph).well_formed(),
        match result {
            Ok(hits) => {
                &&& queried(
                    *old(graph),
                    *final(graph),
                    search_types_of(*old(graph), given_texts(types), text_column@),
                    text_column@,
                    options.exact,
                    options.top_k as nat,
                )
                &&& search_fault(
                    *old(graph),
                    given_texts(types),
                    text_column@,
                    query@,
                    options.top_k as nat,
                    text_option(options.metric),
                ) is None
                &&& search_models(hits@) == search_hits(
                    *old(graph),
                    given_texts(types),
                    text_column@,
                    options.top_k as nat,
                    *keys,
                    answers@,
                )
            },
            Err(message) => {
                &&& *final(graph) == *old(graph)
                &&& search_fault(
                    *old(graph),
                    given_texts(types),
                    text_column@,
                    query@,
                    options.top_k as nat,
                    text_option(options.metric),
                ) == Some(message@)
            },
        },
{
    let ranked = match search_types(graph, types, text_column) {
        Ok(ranked) => ranked,
        Err(message) => {
            return Err(message);
        },
    };
    let query_options = EdgeVectorQueryOptions {
        top_k: options.top_k,
        exact: options.exact,
        metric: match &options.metric {
            Some(name) => Some(name.as_str().to_owned()),
            None => None,
        },
    };
    assert(text_option(query_options.metric) == text_option(options.metric));
    let hits = match query_edge_embedding_stores(
        graph,
        &ranked,
        text_column,
        query,
        &query_options,
        Surface::Method,
        answers,
    ) {
        Ok(hits) => hits,
        Err(message) => {
            return Err(message);
        },
    };
    let ghost models = edge_hit_models(hits@);
    let mut out: Vec<RelationshipSearchHit> = Vec::new();
    assert(search_models(out@) =~= placed_hits(graph.topology, *keys, models, 0));
    let mut i: usize = 0;
    while i < hits.len()
        invariant
            i <= hits@.len(),
            graph.well_formed(),
            models == edge_hit_models(hits@),
            search_models(out@) == placed_hits(graph.topology, *keys, models, i as nat),
        decreases hits@.len() - i,
    {
        let hit = &hits[i];
        assert(models[i as int] == hit@);
        if let Some((source, target)) = graph.topology.edge_endpoints(hit.edge) {
            assert(graph.topology.edges@[hit.edge.slot as int] is Some);
            let from = graph.topology.node_view(source).unwrap();
            let to = graph.topology.node_view(target).unwrap();
            let key: Option<Value> = match keys.get(hit.rel_type.as_str()) {
                Some(property) => match key_value(graph, hit.edge, property) {
                    Some(value) => Some(value.copy()),
                    None => None,
                },
                None => None,
            };
            let ghost before = out@;
            let row = RelationshipSearchHit {
                relationship_type: hit.rel_type.as_str().to_owned(),
                source_type: from.node_type.as_str().to_owned(),
                source_id: from.id.copy(),
                target_type: to.node_type.as_str().to_owned(),
                target_id: to.id.copy(),
                key,
                score: hit.score,
            };
            out.push(row);
            proof {
                assert(hit.edge == EdgeIndex { slot: models[i as int].target });
                assert(row@.place == place_at(
                    graph.topology,
                    keys.property_of(hit.rel_type@),
                    hit.edge,
                ));
                assert(search_models(out@) =~= search_models(before).push(row@));
            }
        }
        i = i + 1;
    }
    Ok(out)
}

/// What is read for one relationship: its vector, `None` where it has none, or
/// why it is refused.
pub open spec fn vector_read(
    graph: DirGraph,
    relationship_type: Text,
    text_column: Text,
    row: crate::address::RowModel,
    property: Option<Text>,
) -> Result<Option<Seq<u32>>, Text> {
    match lookup(graph.edge_embeddings@, relationship_type, store_name_of(text_column)) {
        None => Err(
            missing_store_text(
                graph,
                EmbeddingEntity::Relationship,
                relationship_type,
                text_column,
                Surface::Method,
            ),
        ),
        Some(store) => match row_resolved(
            graph,
            relationship_type,
            property,
            row,
            Seq::empty(),
        ) {
            Ok(edge) => Ok(vector_of(store, edge.slot)),
            Err(fault) => Err(fault),
        },
    }
}

/// The vector of the relationship that an address names; the vector in the
/// address is not read.
pub fn relationship_embedding(
    graph: &DirGraph,
    relationship_type: &str,
    text_column: &str,
    address: &RelationshipVector,
    keys: &RelationshipKeys,
) -> (result: Result<Option<Vec<u32>>, String>)
    requires
        graph.well_formed(),
    ensures
        match result {
            Ok(vector) => vector_read(
                *graph,
                relationship_type@,
                text_column@,
                address@,
                keys.property_of(relationship_type@),
            ) == Ok::<Option<Seq<u32>>, Text>(
                match vector {
                    Some(v) => Some(v@),
                    None => None,
                },
            ),
            Err(message) => vector_read(
                *graph,
                relationship_type@,
                text_column@,
                address@,
                keys.property_of(relationship_type@),
            ) == Err::<Option<Seq<u32>>, Text>(message@),
        },
{
    let name = store_name(text_column);
    let store = match graph.edge_embeddings.get(relationship_type, name.as_str()) {
        Some(store) => store,
        None => {
            return Err(
                missing_store_error(
                    graph,
                    EmbeddingEntity::Relationship,
                    relationship_type,
                    text_column,
                    Surface::Method,
                ),
            );
        },
    };
    match resolve_address(graph, relationship_type, address, keys) {
        Ok(edge) => match store.get(edge) {
            Some(vector) => Ok(Some(copy_numbers(vector))),
            None => Ok(None),
        },
        Err(message) => Err(message),
    }
}

/// The numbers in a vector of a relationship store, where there is the store.
pub fn relationship_embedding_dim(
    graph: &DirGraph,
    relationship_type: &str,
    text_column: &str,
) -> (dimension: Option<usize>)
    ensures
        dimension == match lookup(
            graph.edge_embeddings@,
            relationship_type@,
            store_name_of(text_column@),
        ) {
            Some(store) => Some(store.dimension),
            None => None,
        },
{
    let name = store_name(text_column);
    match graph.edge_embeddings.get(relationship_type, name.as_str()) {
        Some(store) => Some(store.dimension()),
        None => None,
    }
}

/// Removes a whole relationship store. Refused where there is none.
pub fn remove_relationship_embeddings(
    graph: &mut DirGraph,
    relationship_type: &str,
    text_column: &str,
) -> (result: Result<(), String>)
    requires
        old(graph).well_formed(),
    ensures
        final(graph).well_formed(),
        match result {
            Ok(_) => {
                &&& kept(
                    old(graph).edge_embeddings@,
                    relationship_type@,
                    store_name_of(text_column@),
                )
                &&& drop_done(*old(graph), *final(graph), relationship_type@, text_column@)
            },
            Err(message) => {
                &&& !kept(
                    old(graph).edge_embeddings@,
                    relationship_type@,
                    store_name_of(text_column@),
                )
                &&& *final(graph) == *old(graph)
                &&& message@ == missing_store_text(
                    *old(graph),
                    EmbeddingEntity::Relationship,
                    relationship_type@,
                    text_column@,
                    Surface::Method,
                )
            },
        },
{
    match drop_edge_embedding_store(graph, relationship_type, text_column) {
        Ok(true) => Ok(()),
        Ok(false) => Err(
            missing_store_error(
                graph,
                EmbeddingEntity::Relationship,
                relationship_type,
                text_column,
                Surface::Method,
            ),
        ),
        Err(message) => Err(message),
    }
}

} // verus!
