//! What callers are told of a pass, a query, an index and a kept graph.

use crate::batch_laws::all_numeric;
use crate::catalog::lookup;
use crate::diagnostics::diagnosis_fault;
use crate::edge_replace::noted_removals;
use crate::edge_search::{
    queried, query_fault, search_fault, search_types_of, single_query_fault, types_fault,
};
use crate::edge_vector_index::{edge_indexed, refresh_fault};
use crate::embed::{
    error_text, EmbedCalls, EmbedHooks, EmbedMode, EmbedOutcome, Embedder, ErrorModel, Interrupt,
    NeverInterrupted, PlainCalls,
};
use crate::generation::{
    generated_said, goes_on, outcome_of, pass_outcome, pass_outcome_told, refusal_said,
    type_embedded, ReportModel, RequestModel,
};
use crate::generation_plan::PendingModel;
use crate::graph::{members_of, type_registered, DirGraph};
use crate::metric::metric_named;
use crate::model_calls::{loads, ModelCall};
use crate::names::store_name_of;
use crate::node_embed::{
    dimension_fault, kept_store, property_candidates, property_finished, texts_at_once,
};
use crate::node_index::{node_has_index, node_refresh_fault};
use crate::pass_laws::a_node_answer_is_taken_where_it_fits;
use crate::plan_laws::{a_pass_keeps_what_it_should, owned, sent_in, textless_count};
use crate::ranking::{store_method, SearchMethod, StoreAnswer};
use crate::recording::UndoModel;
use crate::store::{coherent, RemovedEmbedding, StoreModel};
use crate::text::Text;
use crate::topology::Topology;
use crate::value::EdgeIndex;
use vstd::prelude::*;

verus! {

/// What a pass over a type of relationships says that it did is what it did: a text
/// that went to the model counts as embedded, a relationship without one as skipped,
/// and every other one as having its vector already.
pub proof fn an_outcome_counts_what_was_done<M: Embedder, C: EmbedCalls>(
    before: DirGraph,
    after: DirGraph,
    request: RequestModel,
    model: &M,
    hooks: &EmbedHooks<C>,
    calls: Seq<ModelCall>,
    outcome: EmbedOutcome,
)
    requires
        ({
            let existing = lookup(
                before.edge_embeddings@,
                request.connection_type,
                store_name_of(request.text_property),
            );
            &&& existing is Some ==> coherent(existing->0)
            &&& type_embedded(before, after, request, model, hooks, calls, outcome)
        }),
    ensures
        ({
            let existing = lookup(
                before.edge_embeddings@,
                request.connection_type,
                store_name_of(request.text_property),
            );
            let sent = sent_in(existing, request.selected, request.mode);
            &&& outcome.embedded == sent.len()
            &&& outcome.skipped == textless_count(request.selected)
            &&& outcome.embedded + outcome.skipped + outcome.skipped_existing
                == request.selected.len()
            &&& outcome.reembedded_changed == if request.mode is Changed {
                sent.filter_map(
                    |p: PendingModel|
                        if owned(existing, p.edge.slot) {
                            Some(p.edge)
                        } else {
                            None
                        },
                ).len()
            } else {
                0
            }
            &&& sent.len() == 0 ==> call_ensures(M::dimension, (model,), outcome.dimension)
        }),
{
    let report = choose|report: ReportModel| #[trigger]
        outcome_of(model, outcome, report) && pass_outcome(
            before,
            after,
            request,
            Some((model, NeverInterrupted)),
            Some(hooks),
            calls,
            Ok(report),
        );
    a_pass_keeps_what_it_should(
        before,
        after,
        request,
        Some((model, NeverInterrupted)),
        Some(hooks),
        calls,
        report,
    );
}

/// A pass that is told to have failed changed nothing. One that is told to have
/// succeeded is a pass that did.
pub proof fn a_told_failure_changes_nothing<M: Embedder, I: Interrupt>(
    before: DirGraph,
    after: DirGraph,
    request: RequestModel,
    service: Option<(&M, I)>,
    calls: Seq<ModelCall>,
    result: Result<ReportModel, Text>,
)
    requires
        pass_outcome_told(before, after, request, service, calls, result),
    ensures
        result is Err ==> after == before,
        result is Ok ==> pass_outcome(
            before,
            after,
            request,
            service,
            None::<&EmbedHooks<PlainCalls>>,
            calls,
            Ok(result->Ok_0),
        ),
{
}

/// An error of a model or a column is told as it came.
pub proof fn an_error_is_told_as_it_came(message: Text)
    ensures
        error_text(ErrorModel::Column(message)) == message,
        error_text(ErrorModel::Output(message)) == message,
        error_text(ErrorModel::Model(message)) == message,
        refusal_said(ErrorModel::Column(message)) == message,
        refusal_said(ErrorModel::Output(message)) == message,
        refusal_said(ErrorModel::Model(message)) == message,
{
}

/// Vectors come only from a model that was made ready, for a caller who let the pass
/// go on. Without a text nothing is called and nothing fails.
pub proof fn vectors_come_from_a_ready_model<M: Embedder, I: Interrupt, C: EmbedCalls>(
    model: &M,
    interrupt: I,
    hooks: Option<&EmbedHooks<C>>,
    topology: Topology,
    pending: Seq<PendingModel>,
    batch_size: usize,
    calls: Seq<ModelCall>,
    result: Result<Seq<(EdgeIndex, Seq<u32>, u64)>, ErrorModel>,
)
    requires
        generated_said(
            model,
            interrupt,
            hooks,
            topology,
            pending,
            batch_size,
            calls,
            result,
        ),
    ensures
        pending.len() == 0 ==> calls.len() == 0 && result is Ok && result->Ok_0.len() == 0,
        pending.len() > 0 && calls.len() > 0 ==> goes_on(interrupt),
        pending.len() > 0 && result is Ok ==> calls.len() > 0 && loads(model),
{
}

/// A text goes to a model in calls of at least one, and of as many as were asked for.
pub proof fn a_call_holds_a_text<C: EmbedCalls>(hooks: &EmbedHooks<C>)
    ensures
        texts_at_once(hooks) >= 1,
        hooks.batch_size >= 1 ==> texts_at_once(hooks) == hooks.batch_size,
{
}

/// Vectors of nodes are written exactly where they have the dimension of the store
/// that stays, there is one for each text, and each is of numbers. Else nothing is.
pub proof fn node_vectors_are_written_where_they_fit(
    before: DirGraph,
    after: DirGraph,
    node_type: Text,
    text_column: Text,
    mode: EmbedMode,
    model_id: Option<Text>,
    dimension: usize,
    vectors: Seq<Seq<u32>>,
    result: Result<EmbedOutcome, ErrorModel>,
)
    requires
        property_finished(
            before,
            after,
            node_type,
            text_column,
            mode,
            model_id,
            dimension,
            vectors,
            result,
        ),
    ensures
        ({
            let found = property_candidates(before, node_type, text_column, mode);
            let kept = kept_store(before, node_type, text_column, mode);
            &&& result is Ok <==> {
                &&& kept is None || kept->0.dimension == dimension
                &&& vectors.len() == found.texts.len()
                &&& forall|i: int|
                    0 <= i < vectors.len() ==> (#[trigger] vectors[i]).len() == dimension
                        && all_numeric(vectors[i])
            }
            &&& result is Err || found.texts.len() == 0 ==> after == before
            &&& kept is Some && kept->0.dimension != dimension ==> result->Err_0
                == (ErrorModel::Dimension { store: kept->0.dimension, model: dimension })
            &&& result is Ok ==> result->Ok_0.embedded == vectors.len() && result->Ok_0.dimension
                == dimension && result->Ok_0.skipped == found.skipped
                && result->Ok_0.skipped_existing == found.skipped_existing
                && result->Ok_0.reembedded_changed == found.reembedded
        }),
{
    let found = property_candidates(before, node_type, text_column, mode);
    a_node_answer_is_taken_where_it_fits(found.texts.len(), dimension, vectors);
}

/// A store takes vectors of its own dimension and of no other.
pub proof fn a_store_has_one_dimension(existing: Option<StoreModel>, dimension: usize)
    ensures
        dimension_fault(existing, dimension) is None <==> existing is None
            || existing->0.dimension == dimension,
{
}

/// A query of one store is answered exactly where the store is there, the query is
/// of its dimension and of numbers, and a metric that is needed is one of the four.
pub proof fn a_single_query_is_answered_where_it_fits(
    graph: DirGraph,
    connection_type: Text,
    text_property: Text,
    query: Seq<u32>,
    top_k: nat,
    metric: Option<Text>,
)
    requires
        query.len() <= usize::MAX,
    ensures
        ({
            let store = lookup(
                graph.edge_embeddings@,
                connection_type,
                store_name_of(text_property),
            );
            single_query_fault(graph, connection_type, text_property, query, top_k, metric) is None
                <==> {
                &&& all_numeric(query)
                &&& store is Some
                &&& query.len() == store->0.dimension
                &&& top_k == 0 || store->0.nodes.len() == 0 || metric_named(
                    match metric {
                        Some(asked) => asked,
                        None => match store->0.metric {
                            Some(own) => own,
                            None => "cosine"@,
                        },
                    },
                ) is Some
            }
        }),
{
    crate::batch_laws::a_vector_of_numbers_has_no_fault(query);
}

/// A search needs a type: one at least among those that it names or, where it names
/// none, one with a store for the column. What is left to refuse it is the query.
pub proof fn a_search_needs_a_type(
    graph: DirGraph,
    types: Option<Seq<Text>>,
    text_column: Text,
    query: Seq<u32>,
    top_k: nat,
    metric: Option<Text>,
)
    ensures
        ({
            let fault = search_fault(graph, types, text_column, query, top_k, metric);
            let ranked = search_types_of(graph, types, text_column);
            &&& types_fault(graph, types, text_column) is None <==> ranked.len() > 0
            &&& ranked.len() == 0 ==> fault is Some
            &&& ranked.len() > 0 ==> fault == query_fault(
                graph,
                ranked,
                text_column,
                query,
                top_k,
                metric,
                crate::hints::Surface::Method,
            )
        }),
{
    crate::search_laws::each_type_is_ranked_once(graph, types, text_column);
    if types is Some {
        let ranked = search_types_of(graph, types, text_column);
        if types->0.len() > 0 {
            assert(types->0.to_set().contains(types->0[0]));
            assert(ranked.to_set().contains(types->0[0]));
        }
        if ranked.len() > 0 {
            assert(ranked.to_set().contains(ranked[0]));
            assert(types->0.to_set().contains(ranked[0]));
        }
    }
}

/// A query changes no vector and nothing but how far indexes have come. One that
/// scans, or asks for nothing, changes nothing.
pub proof fn a_query_keeps_every_vector(
    before: DirGraph,
    after: DirGraph,
    types: Seq<Text>,
    text_property: Text,
    exact: bool,
    top_k: nat,
)
    requires
        queried(before, after, types, text_property, exact, top_k),
    ensures
        exact || top_k == 0 ==> after == before,
        after.topology == before.topology,
        after.embeddings@ == before.embeddings@,
        after.edge_text_indexes@ == before.edge_text_indexes@,
        forall|t: Text, n: Text|
            #![trigger lookup(after.edge_embeddings@, t, n)]
            {
                let was = lookup(before.edge_embeddings@, t, n);
                let is = lookup(after.edge_embeddings@, t, n);
                &&& is is Some <==> was is Some
                &&& is is Some ==> is->0.nodes == was->0.nodes && is->0.rows == was->0.rows
                    && is->0.hashes == was->0.hashes && is->0.metric == was->0.metric
                    && is->0.model_id == was->0.model_id && is->0.dimension == was->0.dimension
                &&& n != store_name_of(text_property) || !types.contains(t) ==> is == was
            },
{
    if !exact && top_k > 0 {
        crate::search_laws::a_query_catches_its_stores_up(
            before.edge_embeddings@,
            types,
            store_name_of(text_property),
            before.read_only,
            types.len(),
        );
        assert(types.take(types.len() as int) =~= types);
    }
}

/// A store that nothing is asked of, or that holds nothing, is scanned. Any other
/// answers as it did.
pub proof fn an_empty_store_is_scanned(store: StoreModel, answer: StoreAnswer, top_k: nat)
    ensures
        top_k == 0 || store.nodes.len() == 0 ==> store_method(store, answer, top_k)
            == SearchMethod::Exact,
        top_k > 0 && store.nodes.len() > 0 ==> store_method(store, answer, top_k)
            == answer.method(),
{
}

/// There is an index where the store of the column has one, and only what has an
/// index is refreshed.
pub proof fn only_an_index_is_refreshed(graph: DirGraph, owner_type: Text, column: Text)
    ensures
        ({
            let edges = lookup(graph.edge_embeddings@, owner_type, store_name_of(column));
            let nodes = lookup(graph.embeddings@, owner_type, store_name_of(column));
            &&& edge_indexed(graph, owner_type, column) <==> edges is Some && edges->0.index
                is Some
            &&& node_has_index(graph.embeddings@, owner_type, column) <==> nodes is Some
                && nodes->0.index is Some
            &&& node_refresh_fault(graph, owner_type, column) is None <==> nodes is Some
                && nodes->0.index is Some
            &&& forall|surface: crate::hints::Surface|
                #[trigger] refresh_fault(graph, owner_type, column, surface) is None <==> edges
                    is Some && edges->0.index is Some
        }),
{
}

/// A diagnosis is refused exactly where it names a type that the graph has not.
pub proof fn a_diagnosis_is_of_types_that_are(
    graph: DirGraph,
    node_type: Option<Text>,
    relationship_type: Option<Text>,
)
    ensures
        diagnosis_fault(graph, node_type, relationship_type) is None <==> {
            &&& node_type is None || members_of(graph.node_types@, node_type->0) is Some
            &&& relationship_type is None || type_registered(graph, relationship_type->0)
        },
{
}

/// Every vector that is removed is noted, in order, as it was.
pub proof fn every_removal_is_noted(
    connection_type: Text,
    name: Text,
    removed: Seq<(EdgeIndex, RemovedEmbedding)>,
)
    ensures
        ({
            let noted = noted_removals(connection_type, name, removed);
            &&& noted.len() == removed.len()
            &&& forall|i: int|
                0 <= i < removed.len() ==> #[trigger] noted[i]
                    == (UndoModel::EdgeEmbeddingRemoved {
                    conn_type: connection_type,
                    name,
                    edge: removed[i].0,
                    prior: removed[i].1@,
                })
        }),
{
}

} // verus!
