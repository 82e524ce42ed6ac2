//! Making relationship vectors with a model.

use crate::carried::{carried_fault, require_carried};
use crate::catalog::lookup;
use crate::coordinate::{fault_of, validate_finite_vector};
use crate::edge_generated::{
    covers_owners, install_done, install_fault, install_generated_edge_embeddings, owners_covered,
    GeneratedEdgeEmbeddingWrite, GeneratedVector, WriteModel,
};
use crate::edge_log::{describe_relationship, relationship_text};
use crate::edge_replace::typed_edges_live;
use crate::edge_store::EdgeEmbeddingStore;
use crate::edge_writes::EdgeEmbeddingWriteReport;
use crate::embed::{
    error_text, final_model_id, model_after, model_text, push_model, EmbedCalls, EmbedError,
    EmbedHooks, EmbedMode, EmbedOutcome, Embedder, ErrorModel, Interrupt, NeverInterrupted,
    PlainCalls,
};
use crate::generation_plan::{
    existing_model, pending_models, plan_of, plan_selection, selection_fault, selection_of,
    validate_selection, Pending, PendingModel, PlanModel, SelectedEdgeText, SelectionPlan,
};
use crate::graph::DirGraph;
use crate::metric::{metric_named, metric_or_cosine, DistanceMetric};
use crate::model_calls::{
    a_run_is_between, answered, around, around_a_run_is_orderly, batch_called, batch_end,
    batches_called, finished, load_fails, loads, more_calls, not_ready, orderly, replies,
    run_called, run_cut, run_cut_at, started, ModelCall, ModelCalls,
};
use crate::names::{store_name, store_name_of};
use crate::store::StoreModel;
use crate::text::{
    decimal, owned_option, push_number, str_option, text_eq, text_option, text_option_eq, texts,
    Text,
};
use crate::topology::{property_in, typed_edges, Topology};
use crate::value::{EdgeIndex, Value, ValueModel};
use vstd::prelude::*;

verus! {

/// A pass over selected relationships.
#[derive(Debug, Clone)]
pub struct EdgeGenerationRequest {
    /// The relationship type.
    pub connection_type: String,
    /// The text property.
    pub text_property: String,
    /// The relationships and their texts.
    pub selected: Vec<SelectedEdgeText>,
    /// Which texts go to the model.
    pub mode: EmbedMode,
    /// Texts in one call.
    pub batch_size: usize,
    /// The metric the store is to declare.
    pub metric: Option<String>,
}

/// What a request says.
pub struct RequestModel {
    pub connection_type: Text,
    pub text_property: Text,
    pub selected: Seq<(EdgeIndex, Option<Text>)>,
    pub mode: EmbedMode,
    pub batch_size: usize,
    pub metric: Option<Text>,
}

impl View for EdgeGenerationRequest {
    type V = RequestModel;

    open spec fn view(&self) -> RequestModel {
        RequestModel {
            connection_type: self.connection_type@,
            text_property: self.text_property@,
            selected: selection_of(self.selected@),
            mode: self.mode,
            batch_size: self.batch_size,
            metric: text_option(self.metric),
        }
    }
}

/// What a pass did.
#[derive(Debug, Clone)]
pub struct EdgeGenerationReport {
    /// Vectors that were made.
    pub embedded: usize,
    /// Relationships without a text.
    pub skipped: usize,
    /// Relationships whose vector was current.
    pub skipped_existing: usize,
    /// Relationships with a vector whose text changed.
    pub reembedded_changed: usize,
    /// Vectors that went because the text is gone.
    pub removed_missing: usize,
    /// Vectors in the store.
    pub stored: usize,
    /// The store's dimension.
    pub dimension: usize,
    /// The model the store names.
    pub model_id: Option<String>,
}

/// What a report says.
pub struct ReportModel {
    pub embedded: nat,
    pub skipped: nat,
    pub skipped_existing: nat,
    pub reembedded: nat,
    pub removed: nat,
    pub stored: nat,
    pub dimension: nat,
    pub model_id: Option<Text>,
}

impl View for EdgeGenerationReport {
    type V = ReportModel;

    open spec fn view(&self) -> ReportModel {
        ReportModel {
            embedded: self.embedded as nat,
            skipped: self.skipped as nat,
            skipped_existing: self.skipped_existing as nat,
            reembedded: self.reembedded_changed as nat,
            removed: self.removed_missing as nat,
            stored: self.stored as nat,
            dimension: self.dimension as nat,
            model_id: text_option(self.model_id),
        }
    }
}

/// A model and what may stop it.
pub struct EmbeddingExecutionService<'a, M: Embedder, I: Interrupt> {
    /// The model, and what was called of it.
    pub model: ModelCalls<'a, M>,
    /// What may stop the pass.
    pub interrupt: I,
}

/// What an interrupted pass says.
pub open spec fn interruption(expired: bool, cancelled: bool) -> Option<Text> {
    if expired {
        Some("relationship embedding generation exceeded its deadline"@)
    } else if cancelled {
        Some("relationship embedding generation was cancelled"@)
    } else {
        None
    }
}

/// Whether an interrupt answers so when it is asked: whether the time is over
/// and, where it is not, whether the caller gave up.
pub open spec fn interrupt_says<I: Interrupt>(
    interrupt: I,
    expired: bool,
    cancelled: bool,
) -> bool {
    &&& call_ensures(I::deadline_expired, (&interrupt,), expired)
    &&& if expired {
        !cancelled
    } else {
        call_ensures(I::is_cancelled, (&interrupt,), cancelled)
    }
}

/// Whether an interrupt can let a pass go on.
pub open spec fn goes_on<I: Interrupt>(interrupt: I) -> bool {
    exists|expired: bool, cancelled: bool| #[trigger]
        interrupt_says(interrupt, expired, cancelled) && interruption(expired, cancelled) is None
}

/// Whether an interrupt can stop a pass with an error.
pub open spec fn stops<I: Interrupt>(interrupt: I, error: ErrorModel) -> bool {
    exists|expired: bool, cancelled: bool| #[trigger]
        interrupt_says(interrupt, expired, cancelled) && interruption(expired, cancelled) is Some
            && error == ErrorModel::Output(interruption(expired, cancelled)->0)
}

/// Whether a pass goes on.
pub fn interrupted(expired: bool, cancelled: bool) -> (result: Result<(), EmbedError>)
    ensures
        match result {
            Ok(_) => interruption(expired, cancelled) is None,
            Err(error) => interruption(expired, cancelled) is Some && error@ == ErrorModel::Output(
                interruption(expired, cancelled)->0,
            ),
        },
{
    if expired {
        Err(
            EmbedError::Output(
                "relationship embedding generation exceeded its deadline".to_owned(),
            ),
        )
    } else if cancelled {
        Err(EmbedError::Output("relationship embedding generation was cancelled".to_owned()))
    } else {
        Ok(())
    }
}

/// What vectors say.
pub open spec fn vector_rows(vectors: Seq<Vec<u32>>) -> Seq<Seq<u32>> {
    Seq::new(vectors.len(), |i: int| vectors[i]@)
}

/// What generated vectors say.
pub open spec fn generated_rows(generated: Seq<GeneratedVector>) -> Seq<(EdgeIndex, Seq<u32>, u64)> {
    Seq::new(generated.len(), |i: int| (generated[i].0, generated[i].1@, generated[i].2))
}

/// The first vector of a reply, from `position`, that cannot be used.
pub open spec fn reply_fault(
    topology: Topology,
    pending: Seq<PendingModel>,
    from: int,
    dimension: usize,
    vectors: Seq<Seq<u32>>,
    position: int,
) -> Option<Text>
    decreases vectors.len() - position,
{
    if position < 0 || position >= vectors.len() {
        None
    } else {
        let edge = pending[from + position].edge;
        if vectors[position].len() != dimension {
            Some(
                "embedder returned a "@ + decimal(vectors[position].len())
                    + "-d vector for relationship "@ + relationship_text(topology, edge)
                    + ", expected "@ + decimal(dimension as nat),
            )
        } else if fault_of(vectors[position]) is Some {
            Some(
                "embedder returned a non-finite vector for relationship "@ + relationship_text(
                    topology,
                    edge,
                ),
            )
        } else {
            reply_fault(topology, pending, from, dimension, vectors, position + 1)
        }
    }
}

/// What a reply to `count` texts from `from` makes: their vectors, or why it
/// cannot be used.
pub open spec fn reply_checked(
    topology: Topology,
    pending: Seq<PendingModel>,
    from: int,
    count: nat,
    dimension: usize,
    vectors: Seq<Seq<u32>>,
) -> Result<Seq<(EdgeIndex, Seq<u32>, u64)>, Text> {
    if vectors.len() != count {
        Err(
            "embedder returned "@ + decimal(vectors.len()) + " vectors for "@ + decimal(count)
                + " relationship texts"@,
        )
    } else {
        match reply_fault(topology, pending, from, dimension, vectors, 0) {
            Some(fault) => Err(fault),
            None => Ok(
                Seq::new(
                    count,
                    |i: int|
                        (pending[from + i].edge, vectors[i], pending[from + i].text_hash),
                ),
            ),
        }
    }
}

/// Takes a reply of the model to `count` texts from `from`.
pub fn check_batch(
    graph: &DirGraph,
    pending: &Vec<Pending>,
    from: usize,
    count: usize,
    dimension: usize,
    vectors: &Vec<Vec<u32>>,
) -> (result: Result<Vec<GeneratedVector>, EmbedError>)
    requires
        from + count <= pending@.len(),
    ensures
        match result {
            Ok(generated) => reply_checked(
                graph.topology,
                pending_models(pending@),
                from as int,
                count as nat,
                dimension,
                vector_rows(vectors@),
            ) == Ok::<Seq<(EdgeIndex, Seq<u32>, u64)>, Text>(generated_rows(generated@)),
            Err(error) => {
                &&& error@ is Output
                &&& reply_checked(
                    graph.topology,
                    pending_models(pending@),
                    from as int,
                    count as nat,
                    dimension,
                    vector_rows(vectors@),
                ) == Err::<Seq<(EdgeIndex, Seq<u32>, u64)>, Text>(error@->Output_0)
            },
        },
{
    let ghost texts = pending_models(pending@);
    let ghost rows = vector_rows(vectors@);
    if vectors.len() != count {
        let mut message = "embedder returned ".to_owned();
        push_number(&mut message, vectors.len());
        message.append(" vectors for ");
        push_number(&mut message, count);
        message.append(" relationship texts");
        return Err(EmbedError::Output(message));
    }
    let mut generated: Vec<GeneratedVector> = Vec::new();
    let mut i: usize = 0;
    while i < vectors.len()
        invariant
            i <= vectors@.len(),
            vectors@.len() == count,
            from + count <= pending@.len(),
            texts == pending_models(pending@),
            rows == vector_rows(vectors@),
            reply_fault(graph.topology, texts, from as int, dimension, rows, 0) == reply_fault(
                graph.topology,
                texts,
                from as int,
                dimension,
                rows,
                i as int,
            ),
            generated@.len() == i,
            forall|k: int|
                0 <= k < i ==> (#[trigger] generated_rows(generated@)[k]) == (
                    texts[from + k].edge,
                    rows[k],
                    texts[from + k].text_hash,
                ),
        decreases vectors@.len() - i,
    {
        assert(from + i < pending.len());
        let item = &pending[from + i];
        let vector = &vectors[i];
        assert(texts[from + i] == item@);
        assert(rows[i as int] == vector@);
        if vector.len() != dimension {
            let mut message = "embedder returned a ".to_owned();
            push_number(&mut message, vector.len());
            message.append("-d vector for relationship ");
            message.append(describe_relationship(graph, item.edge).as_str());
            message.append(", expected ");
            push_number(&mut message, dimension);
            return Err(EmbedError::Output(message));
        }
        if validate_finite_vector(vector.as_slice()).is_err() {
            let mut message =
                "embedder returned a non-finite vector for relationship ".to_owned();
            message.append(describe_relationship(graph, item.edge).as_str());
            return Err(EmbedError::Output(message));
        }
        let ghost before = generated@;
        generated.push(
            (item.edge, crate::edge_read::copy_numbers(vector.as_slice()), item.text_hash),
        );
        proof {
            assert forall|k: int| 0 <= k < i + 1 implies (#[trigger] generated_rows(generated@)[k])
                == (texts[from + k].edge, rows[k], texts[from + k].text_hash) by {
                if k < i {
                    assert(generated_rows(before)[k] == generated_rows(generated@)[k]);
                }
            }
        }
        i = i + 1;
    }
    proof {
        let made = Seq::new(
            count as nat,
            |i: int| (texts[from + i].edge, rows[i], texts[from + i].text_hash),
        );
        assert(generated_rows(generated@) =~= made);
    }
    Ok(generated)
}

/// Vectors made for pending texts: one for each, in order, each of the same
/// dimension and finite.
pub open spec fn made_for(
    generated: Seq<(EdgeIndex, Seq<u32>, u64)>,
    pending: Seq<PendingModel>,
    dimension: usize,
) -> bool {
    &&& generated.len() == pending.len()
    &&& forall|i: int|
        0 <= i < generated.len() ==> {
            &&& (#[trigger] generated[i]).0 == pending[i].edge
            &&& generated[i].1.len() == dimension
            &&& fault_of(generated[i].1) is None
            &&& generated[i].2 == pending[i].text_hash
        }
}

/// Vectors made for pending texts, under one dimension.
pub open spec fn all_made(
    generated: Seq<(EdgeIndex, Seq<u32>, u64)>,
    pending: Seq<PendingModel>,
) -> bool {
    exists|dimension: usize| dimension > 0 && #[trigger] made_for(generated, pending, dimension)
}

proof fn checked_is_made(
    topology: Topology,
    pending: Seq<PendingModel>,
    from: int,
    dimension: usize,
    vectors: Seq<Seq<u32>>,
    position: int,
    at: int,
)
    requires
        0 <= position <= at < vectors.len(),
        reply_fault(topology, pending, from, dimension, vectors, position) is None,
    ensures
        vectors[at].len() == dimension,
        fault_of(vectors[at]) is None,
    decreases at - position,
{
    if position < at {
        checked_is_made(topology, pending, from, dimension, vectors, position + 1, at);
    }
}

fn batch_texts(pending: &Vec<Pending>, from: usize, count: usize) -> (texts: Vec<String>)
    requires
        from + count <= pending@.len(),
    ensures
        texts@.len() == count,
        forall|i: int| 0 <= i < count ==> (#[trigger] texts@[i])@ == pending@[from + i].text@,
{
    let mut texts: Vec<String> = Vec::new();
    let mut i: usize = 0;
    while i < count
        invariant
            i <= count,
            from + count <= pending@.len(),
            texts@.len() == i,
            forall|k: int| 0 <= k < i ==> (#[trigger] texts@[k])@ == pending@[from + k].text@,
        decreases count - i,
    {
        assert(from + i < pending.len());
        texts.push(pending[from + i].text.as_str().to_owned());
        i = i + 1;
    }
    texts
}

/// The texts of the pending ones from `from` to `to`.
pub open spec fn texts_pending(pending: Seq<PendingModel>, from: int, to: int) -> Seq<Text> {
    Seq::new((to - from) as nat, |i: int| pending[from + i].text)
}

/// The texts of all pending ones.
pub open spec fn all_texts(pending: Seq<PendingModel>) -> Seq<Text> {
    texts_pending(pending, 0, pending.len() as int)
}

/// Whether the batch from `from` to `to` is answered with vectors that can be
/// used, and they are added to those made before.
pub open spec fn batch_taken<M: Embedder, C: EmbedCalls>(
    model: &M,
    hooks: Option<&EmbedHooks<C>>,
    topology: Topology,
    pending: Seq<PendingModel>,
    dimension: usize,
    from: int,
    before: Seq<(EdgeIndex, Seq<u32>, u64)>,
    to: int,
    made: Seq<(EdgeIndex, Seq<u32>, u64)>,
) -> bool {
    exists|vectors: Vec<Vec<u32>>| #[trigger]
        answered(
            model,
            hooks,
            texts_pending(pending, from, to),
            Ok::<Vec<Vec<u32>>, String>(vectors),
        ) && match reply_checked(
            topology,
            pending,
            from,
            (to - from) as nat,
            dimension,
            vector_rows(vectors@),
        ) {
            Ok(fresh) => made == before + fresh,
            Err(_) => false,
        }
}

/// Whether the pending texts up to `to` are sent in batches, each is answered
/// with vectors that can be used, and these are what is made.
pub open spec fn batches_taken<M: Embedder, C: EmbedCalls>(
    model: &M,
    hooks: Option<&EmbedHooks<C>>,
    topology: Topology,
    pending: Seq<PendingModel>,
    batch_size: usize,
    dimension: usize,
    to: int,
    made: Seq<(EdgeIndex, Seq<u32>, u64)>,
) -> bool
    decreases to,
{
    if to <= 0 {
        made == Seq::<(EdgeIndex, Seq<u32>, u64)>::empty()
    } else {
        exists|from: int, before: Seq<(EdgeIndex, Seq<u32>, u64)>|
            0 <= from < to && to == batch_end(pending.len() as int, batch_size, from)
                && batches_taken(
                model,
                hooks,
                topology,
                pending,
                batch_size,
                dimension,
                from,
                before,
            ) && #[trigger] batch_taken(
                model,
                hooks,
                topology,
                pending,
                dimension,
                from,
                before,
                to,
                made,
            )
    }
}

/// Whether the batch that starts at `from` can fail with an error: the model's
/// own, or that what it answers cannot be used.
pub open spec fn batch_refused<M: Embedder, C: EmbedCalls>(
    model: &M,
    hooks: Option<&EmbedHooks<C>>,
    topology: Topology,
    pending: Seq<PendingModel>,
    batch_size: usize,
    dimension: usize,
    from: int,
    error: ErrorModel,
) -> bool {
    let to = batch_end(pending.len() as int, batch_size, from);
    exists|reply: Result<Vec<Vec<u32>>, String>| #[trigger]
        answered(model, hooks, texts_pending(pending, from, to), reply) && match reply {
            Ok(vectors) => match reply_checked(
                topology,
                pending,
                from,
                (to - from) as nat,
                dimension,
                vector_rows(vectors@),
            ) {
                Ok(_) => false,
                Err(fault) => error == ErrorModel::Output(fault),
            },
            Err(message) => error == ErrorModel::Model(message@),
        }
}

/// Whether vectors are made of all pending texts, for the dimension that the
/// model declares.
pub open spec fn run_done<M: Embedder, C: EmbedCalls>(
    model: &M,
    hooks: Option<&EmbedHooks<C>>,
    topology: Topology,
    pending: Seq<PendingModel>,
    batch_size: usize,
    dimension: usize,
    made: Seq<(EdgeIndex, Seq<u32>, u64)>,
) -> bool {
    &&& call_ensures(M::dimension, (model,), dimension)
    &&& dimension > 0
    &&& batches_taken(
        model,
        hooks,
        topology,
        pending,
        batch_size,
        dimension,
        pending.len() as int,
        made,
    )
}

/// Whether a batch fails after those before it were taken.
pub open spec fn run_broken<M: Embedder, C: EmbedCalls>(
    model: &M,
    hooks: Option<&EmbedHooks<C>>,
    topology: Topology,
    pending: Seq<PendingModel>,
    batch_size: usize,
    dimension: usize,
    from: int,
    before: Seq<(EdgeIndex, Seq<u32>, u64)>,
    calls: Seq<ModelCall>,
    error: ErrorModel,
) -> bool {
    &&& call_ensures(M::dimension, (model,), dimension)
    &&& dimension > 0
    &&& 0 <= from < pending.len()
    &&& run_cut_at(all_texts(pending), hooks is Some, batch_size, from, true, calls)
    &&& batches_taken(
        model,
        hooks,
        topology,
        pending,
        batch_size,
        dimension,
        from,
        before,
    )
    &&& batch_refused(model, hooks, topology, pending, batch_size, dimension, from, error)
}

/// Whether vectors can be made of all pending texts.
pub open spec fn run_succeeds<M: Embedder, C: EmbedCalls>(
    model: &M,
    hooks: Option<&EmbedHooks<C>>,
    topology: Topology,
    pending: Seq<PendingModel>,
    batch_size: usize,
    made: Seq<(EdgeIndex, Seq<u32>, u64)>,
) -> bool {
    exists|dimension: usize| #[trigger]
        run_done(model, hooks, topology, pending, batch_size, dimension, made)
}

/// Whether some batch can fail with an error.
pub open spec fn run_fails<M: Embedder, C: EmbedCalls>(
    model: &M,
    hooks: Option<&EmbedHooks<C>>,
    topology: Topology,
    pending: Seq<PendingModel>,
    batch_size: usize,
    calls: Seq<ModelCall>,
    error: ErrorModel,
) -> bool {
    exists|dimension: usize, from: int, before: Seq<(EdgeIndex, Seq<u32>, u64)>| #[trigger]
        run_broken(
            model,
            hooks,
            topology,
            pending,
            batch_size,
            dimension,
            from,
            before,
            calls,
            error,
        )
}

/// What running the model over pending texts comes to: the vectors that it
/// answers with, or the first thing that stops it; and what is called for it.
/// The texts are sent in batches, and none after the one that fails.
pub open spec fn run_said<M: Embedder, I: Interrupt, C: EmbedCalls>(
    model: &M,
    interrupt: I,
    hooks: Option<&EmbedHooks<C>>,
    topology: Topology,
    pending: Seq<PendingModel>,
    batch_size: usize,
    calls: Seq<ModelCall>,
    result: Result<Seq<(EdgeIndex, Seq<u32>, u64)>, ErrorModel>,
) -> bool {
    match result {
        Ok(made) => {
            &&& goes_on(interrupt)
            &&& run_succeeds(model, hooks, topology, pending, batch_size, made)
            &&& run_called(all_texts(pending), hooks is Some, batch_size, calls)
        },
        Err(error) => {
            ||| stops(interrupt, error) && run_cut(
                all_texts(pending),
                hooks is Some,
                batch_size,
                calls,
            )
            ||| call_ensures(M::dimension, (model,), 0usize) && error == ErrorModel::Output(
                "embedder declared dimension 0"@,
            ) && calls.len() == 0
            ||| run_fails(model, hooks, topology, pending, batch_size, calls, error)
        },
    }
}

/// Whether the model is made ready, run over pending texts, and let go.
pub open spec fn ran<M: Embedder, I: Interrupt, C: EmbedCalls>(
    model: &M,
    interrupt: I,
    hooks: Option<&EmbedHooks<C>>,
    topology: Topology,
    pending: Seq<PendingModel>,
    batch_size: usize,
    calls: Seq<ModelCall>,
    result: Result<Seq<(EdgeIndex, Seq<u32>, u64)>, ErrorModel>,
) -> bool {
    exists|run: Seq<ModelCall>| #[trigger]
        around(calls, run) && run_said(
            model,
            interrupt,
            hooks,
            topology,
            pending,
            batch_size,
            run,
            result,
        )
}

/// What making vectors for pending texts comes to, and what is called for it.
/// Without a text nothing is called; else the pass is stopped before anything is
/// called, the model cannot be made ready, or it is made ready, run, and let go
/// whatever the run comes to.
pub open spec fn generated_said<M: Embedder, I: Interrupt, C: EmbedCalls>(
    model: &M,
    interrupt: I,
    hooks: Option<&EmbedHooks<C>>,
    topology: Topology,
    pending: Seq<PendingModel>,
    batch_size: usize,
    calls: Seq<ModelCall>,
    result: Result<Seq<(EdgeIndex, Seq<u32>, u64)>, ErrorModel>,
) -> bool {
    if pending.len() == 0 {
        &&& calls.len() == 0
        &&& result == Ok::<Seq<(EdgeIndex, Seq<u32>, u64)>, ErrorModel>(Seq::empty())
    } else {
        ||| calls.len() == 0 && result is Err && stops(interrupt, result->Err_0)
        ||| goes_on(interrupt) && calls == not_ready() && result is Err && load_fails(
            model,
            result->Err_0,
        )
        ||| goes_on(interrupt) && loads(model) && ran(
            model,
            interrupt,
            hooks,
            topology,
            pending,
            batch_size,
            calls,
            result,
        )
    }
}

/// What a run of the model says.
pub open spec fn run_outcome(result: Result<Vec<GeneratedVector>, EmbedError>) -> Result<
    Seq<(EdgeIndex, Seq<u32>, u64)>,
    ErrorModel,
> {
    match result {
        Ok(made) => Ok(generated_rows(made@)),
        Err(error) => Err(error@),
    }
}

proof fn generating_is_orderly<M: Embedder, I: Interrupt, C: EmbedCalls>(
    model: &M,
    interrupt: I,
    hooks: Option<&EmbedHooks<C>>,
    topology: Topology,
    pending: Seq<PendingModel>,
    batch_size: usize,
    calls: Seq<ModelCall>,
    result: Result<Seq<(EdgeIndex, Seq<u32>, u64)>, ErrorModel>,
)
    requires
        generated_said(
            model,
            interrupt,
            hooks,
            topology,
            pending,
            batch_size,
            calls,
            result,
        ),
    ensures
        orderly(calls),
{
    if calls.len() > 0 && calls != not_ready() {
        let run = choose|run: Seq<ModelCall>| #[trigger]
            around(calls, run) && run_said(
                model,
                interrupt,
                hooks,
                topology,
                pending,
                batch_size,
                run,
                result,
            );
        let sent = all_texts(pending);
        if result is Err && run_fails(
            model,
            hooks,
            topology,
            pending,
            batch_size,
            run,
            result->Err_0,
        ) {
            let (dimension, from, before) = choose|
                dimension: usize,
                from: int,
                before: Seq<(EdgeIndex, Seq<u32>, u64)>,
            | #[trigger]
                run_broken(
                    model,
                    hooks,
                    topology,
                    pending,
                    batch_size,
                    dimension,
                    from,
                    before,
                    run,
                    result->Err_0,
                );
            assert(run_cut_at(sent, hooks is Some, batch_size, from, true, run));
        }
        a_run_is_between(sent, hooks is Some, batch_size, run);
        around_a_run_is_orderly(calls, run);
    }
}

fn check_interrupt<I: Interrupt>(interrupt: &I) -> (result: Result<(), EmbedError>)
    ensures
        match result {
            Ok(_) => goes_on(*interrupt),
            Err(error) => stops(*interrupt, error@),
        },
{
    let expired = interrupt.deadline_expired();
    let cancelled = !expired && interrupt.is_cancelled();
    assert(interrupt_says(*interrupt, expired, cancelled));
    interrupted(expired, cancelled)
}

fn run_batches<M: Embedder, I: Interrupt, C: EmbedCalls>(
    model: &mut ModelCalls<'_, M>,
    interrupt: &I,
    graph: &DirGraph,
    pending: &Vec<Pending>,
    batch_size: usize,
    hooks: Option<&EmbedHooks<C>>,
) -> (result: Result<Vec<GeneratedVector>, EmbedError>)
    requires
        batch_size > 0,
    ensures
        result matches Ok(made) ==> all_made(generated_rows(made@), pending_models(pending@)),
        final(model).follows(*old(model)),
        run_said(
            final(model).model(),
            *interrupt,
            hooks,
            graph.topology,
            pending_models(pending@),
            batch_size,
            final(model).since(*old(model)),
            run_outcome(result),
        ),
{
    let ghost first = *model;
    let ghost m = model.model();
    let ghost texts = pending_models(pending@);
    let ghost sent = all_texts(texts);
    let ghost hooked = hooks is Some;
    proof {
        assert(first.made() =~= first.made() + (Seq::<ModelCall>::empty()));
        more_calls(first, first, Seq::<ModelCall>::empty());
    }
    if let Err(error) = check_interrupt(interrupt) {
        return Err(error);
    }
    let dimension: usize = model.dimension();
    if dimension == 0 {
        return Err(EmbedError::Output("embedder declared dimension 0".to_owned()));
    }
    model.start(pending.len(), hooks);
    let ghost head = started(hooked, sent.len());
    let ghost mut done: Seq<ModelCall> = Seq::empty();
    let mut generated: Vec<GeneratedVector> = Vec::new();
    assert(generated_rows(generated@) =~= Seq::<(EdgeIndex, Seq<u32>, u64)>::empty());
    let mut from: usize = 0;
    while from < pending.len()
        invariant
            from <= pending@.len(),
            batch_size > 0,
            dimension > 0,
            texts == pending_models(pending@),
            made_for(generated_rows(generated@), texts.take(from as int), dimension),
            sent == all_texts(texts),
            hooked == (hooks is Some),
            head == started(hooked, sent.len()),
            first == *old(model),
            first.model() == m,
            model.model() == m,
            model.made() == first.made() + (head + done),
            batches_called(sent, hooked, batch_size, from as int, done),
            goes_on(*interrupt),
            call_ensures(M::dimension, (m,), dimension),
            batches_taken(
                m,
                hooks,
                graph.topology,
                texts,
                batch_size,
                dimension,
                from as int,
                generated_rows(generated@),
            ),
        decreases pending@.len() - from,
    {
        if let Err(error) = check_interrupt(interrupt) {
            proof {
                assert(model.made() =~= first.made() + (head + done));
                more_calls(*model, first, head + done);
                assert(run_cut_at(sent, hooked, batch_size, from as int, false, head + done));
            }
            return Err(error);
        }
        let left: usize = pending.len() - from;
        let count: usize = if batch_size < left {
            batch_size
        } else {
            left
        };
        let batch = batch_texts(pending, from, count);
        let reply = model.send(&batch, hooks);
        let ghost to = batch_end(texts.len() as int, batch_size, from as int);
        let ghost rows_before = generated_rows(generated@);
        proof {
            assert(to == from + count);
            assert(crate::text::texts(batch@) =~= texts_pending(texts, from as int, to));
            assert(replies(m, hooks, batch, reply));
            assert(answered(m, hooks, texts_pending(texts, from as int, to), reply));
            let batch_sent = ModelCall::Sent { batch: sent.subrange(from as int, to) };
            assert(sent.subrange(from as int, to) =~= texts_pending(texts, from as int, to));
            assert(model.made() =~= first.made() + (head + done.push(batch_sent)));
            more_calls(*model, first, head + done.push(batch_sent));
            assert(run_cut_at(
                sent,
                hooked,
                batch_size,
                from as int,
                true,
                head + done.push(batch_sent),
            ));
        }
        let vectors = match reply {
            Ok(vectors) => vectors,
            Err(message) => {
                assert(batch_refused(
                    m,
                    hooks,
                    graph.topology,
                    texts,
                    batch_size,
                    dimension,
                    from as int,
                    ErrorModel::Model(message@),
                ));
                assert(run_broken(
                    m,
                    hooks,
                    graph.topology,
                    texts,
                    batch_size,
                    dimension,
                    from as int,
                    rows_before,
                    model.since(first),
                    ErrorModel::Model(message@),
                ));
                return Err(EmbedError::Model(message));
            },
        };
        if let Err(error) = check_interrupt(interrupt) {
            return Err(error);
        }
        let mut made = match check_batch(graph, pending, from, count, dimension, &vectors) {
            Ok(made) => made,
            Err(error) => {
                assert(batch_refused(
                    m,
                    hooks,
                    graph.topology,
                    texts,
                    batch_size,
                    dimension,
                    from as int,
                    error@,
                ));
                assert(run_broken(
                    m,
                    hooks,
                    graph.topology,
                    texts,
                    batch_size,
                    dimension,
                    from as int,
                    rows_before,
                    model.since(first),
                    error@,
                ));
                return Err(error);
            },
        };
        let ghost before = generated@;
        let ghost fresh = made@;
        generated.append(&mut made);
        proof {
            let rows = vector_rows(vectors@);
            let all = generated_rows(generated@);
            assert(all =~= generated_rows(before) + generated_rows(fresh));
            assert(batch_taken(
                m,
                hooks,
                graph.topology,
                texts,
                dimension,
                from as int,
                rows_before,
                to,
                all,
            ));
            assert(batches_taken(
                m,
                hooks,
                graph.topology,
                texts,
                batch_size,
                dimension,
                to,
                all,
            ));
            assert forall|i: int| 0 <= i < all.len() implies {
                &&& (#[trigger] all[i]).0 == texts.take(from + count)[i].edge
                &&& all[i].1.len() == dimension
                &&& fault_of(all[i].1) is None
                &&& all[i].2 == texts.take(from + count)[i].text_hash
            } by {
                if i < from {
                    assert(generated_rows(before)[i] == all[i]);
                    assert(texts.take(from as int)[i] == texts.take(from + count)[i]);
                } else {
                    let k = i - from;
                    assert(generated_rows(fresh)[k] == all[i]);
                    checked_is_made(
                        graph.topology,
                        texts,
                        from as int,
                        dimension,
                        rows,
                        0,
                        k,
                    );
                }
            }
        }
        model.finish(count, hooks);
        proof {
            let now = done.push(ModelCall::Sent { batch: sent.subrange(from as int, to) })
                + finished(hooked, (to - from) as nat);
            assert(batch_called(sent, hooked, from as int, done, to, now));
            assert(batches_called(sent, hooked, batch_size, to, now));
            assert(model.made() =~= first.made() + (head + now));
            done = now;
        }
        from = from + count;
    }
    assert(texts.take(from as int) =~= texts);
    assert(dimension > 0 && made_for(generated_rows(generated@), texts, dimension));
    assert(all_made(generated_rows(generated@), texts));
    assert(run_done(
        m,
        hooks,
        graph.topology,
        texts,
        batch_size,
        dimension,
        generated_rows(generated@),
    ));
    proof {
        let calls = head + done;
        assert(model.made() =~= first.made() + (calls));
        more_calls(*model, first, calls);
        assert(calls.skip(head.len() as int) =~= done);
        assert(run_called(sent, hooked, batch_size, calls));
    }
    Ok(generated)
}

fn make_vectors<M: Embedder, I: Interrupt, C: EmbedCalls>(
    model: &mut ModelCalls<'_, M>,
    interrupt: &I,
    graph: &DirGraph,
    pending: &Vec<Pending>,
    batch_size: usize,
    hooks: Option<&EmbedHooks<C>>,
) -> (result: Result<Vec<GeneratedVector>, EmbedError>)
    requires
        batch_size > 0,
    ensures
        result matches Ok(made) ==> all_made(generated_rows(made@), pending_models(pending@)),
        final(model).follows(*old(model)),
        generated_said(
            final(model).model(),
            *interrupt,
            hooks,
            graph.topology,
            pending_models(pending@),
            batch_size,
            final(model).since(*old(model)),
            run_outcome(result),
        ),
{
    let ghost first = *model;
    proof {
        assert(first.made() =~= first.made() + (Seq::<ModelCall>::empty()));
        more_calls(first, first, Seq::<ModelCall>::empty());
    }
    if pending.len() == 0 {
        let nothing: Vec<GeneratedVector> = Vec::new();
        assert(made_for(generated_rows(nothing@), pending_models(pending@), 1));
        assert(generated_rows(nothing@) =~= Seq::<(EdgeIndex, Seq<u32>, u64)>::empty());
        return Ok(nothing);
    }
    if let Err(error) = check_interrupt(interrupt) {
        return Err(error);
    }
    if let Err(message) = model.load() {
        proof {
            assert(model.made() =~= first.made() + (not_ready()));
            more_calls(*model, first, not_ready());
        }
        return Err(EmbedError::Model(message));
    }
    assert(loads(model.model()));
    let ghost ready = *model;
    let result = run_batches(model, interrupt, graph, pending, batch_size, hooks);
    let ghost run = model.since(ready);
    model.unload();
    proof {
        let calls = seq![ModelCall::Load { ready: true }] + run + seq![ModelCall::Unload];
        assert(model.made() =~= first.made() + calls);
        more_calls(*model, first, calls);
        assert(around(calls, run));
    }
    result
}

impl<'a, M: Embedder, I: Interrupt> EmbeddingExecutionService<'a, M, I> {
    /// Makes a vector for each pending text. The model is loaded at most once,
    /// and let go on every way out after that; without pending texts it is not
    /// loaded.
    pub fn generate<C: EmbedCalls>(
        &mut self,
        graph: &DirGraph,
        pending: &Vec<Pending>,
        batch_size: usize,
        hooks: Option<&EmbedHooks<C>>,
    ) -> (result: Result<Vec<GeneratedVector>, EmbedError>)
        requires
            batch_size > 0,
        ensures
            result matches Ok(made) ==> all_made(generated_rows(made@), pending_models(pending@)),
            final(self).interrupt == old(self).interrupt,
            final(self).model.follows(old(self).model),
            orderly(final(self).model.since(old(self).model)),
            generated_said(
                old(self).model.model(),
                old(self).interrupt,
                hooks,
                graph.topology,
                pending_models(pending@),
                batch_size,
                final(self).model.since(old(self).model),
                run_outcome(result),
            ),
    {
        let ghost first = self.model;
        let result = make_vectors(
            &mut self.model,
            &self.interrupt,
            graph,
            pending,
            batch_size,
            hooks,
        );
        proof {
            generating_is_orderly(
                first.model(),
                self.interrupt,
                hooks,
                graph.topology,
                pending_models(pending@),
                batch_size,
                self.model.since(first),
                run_outcome(result),
            );
        }
        result
    }
}

/// What is wrong with a request, whatever the graph.
pub open spec fn syntax_fault(request: RequestModel) -> Option<Text> {
    if request.connection_type.len() == 0 {
        Some("relationship type must not be empty"@)
    } else if request.text_property.len() == 0 {
        Some("text property must not be empty"@)
    } else if request.batch_size == 0 {
        Some("batch_size must be greater than zero"@)
    } else {
        match request.metric {
            Some(metric) => if metric_named(metric) is None {
                Some(
                    "unknown distance metric '"@ + metric
                        + "'; use cosine, dot_product, euclidean, or poincare"@,
                )
            } else {
                None
            },
            None => None,
        }
    }
}

/// Checks a request, whatever the graph.
pub fn validate_request_syntax(request: &EdgeGenerationRequest) -> (result: Result<(), String>)
    ensures
        match result {
            Ok(_) => syntax_fault(request@) is None,
            Err(message) => syntax_fault(request@) == Some(message@),
        },
{
    if request.connection_type.as_str().is_empty() {
        return Err("relationship type must not be empty".to_owned());
    }
    if request.text_property.as_str().is_empty() {
        return Err("text property must not be empty".to_owned());
    }
    if request.batch_size == 0 {
        return Err("batch_size must be greater than zero".to_owned());
    }
    if let Some(metric) = &request.metric {
        if DistanceMetric::from_name(metric.as_str()).is_none() {
            let mut message = "unknown distance metric '".to_owned();
            message.append(metric.as_str());
            message.append("'; use cosine, dot_product, euclidean, or poincare");
            return Err(message);
        }
    }
    Ok(())
}

/// The metric a pass writes: the requested one, else the store's. One that is
/// not the store's is refused unless the pass rebuilds the store.
pub open spec fn metric_written(
    existing: Option<StoreModel>,
    requested: Option<Text>,
    mode: EmbedMode,
) -> Result<Option<Text>, Text> {
    match existing {
        None => Ok(requested),
        Some(store) => match requested {
            None => Ok(store.metric),
            Some(name) => if mode != EmbedMode::All && metric_or_cosine(store.metric) != name {
                Err(
                    "Store metric is '"@ + metric_or_cosine(store.metric)
                        + "', but this call requested '"@ + name
                        + "'; embed with mode='all' to rebuild the store under '"@ + name + "'"@,
                )
            } else {
                Ok(Some(name))
            },
        },
    }
}

/// The metric a pass writes.
pub fn resolve_generation_metric(
    existing: Option<&EdgeEmbeddingStore>,
    requested: Option<&str>,
    mode: EmbedMode,
) -> (result: Result<Option<String>, String>)
    ensures
        match result {
            Ok(metric) => metric_written(existing_model(existing), str_option(requested), mode)
                == Ok::<Option<Text>, Text>(text_option(metric)),
            Err(message) => metric_written(existing_model(existing), str_option(requested), mode)
                == Err::<Option<Text>, Text>(message@),
        },
{
    let store = match existing {
        Some(store) => store,
        None => {
            return Ok(owned_option(requested));
        },
    };
    match requested {
        None => Ok(owned_option(store.metric())),
        Some(name) => {
            let stored = match store.metric() {
                Some(metric) => metric,
                None => "cosine",
            };
            if mode != EmbedMode::All && !text_eq(stored, name) {
                let mut message = "Store metric is '".to_owned();
                message.append(stored);
                message.append("', but this call requested '");
                message.append(name);
                message.append("'; embed with mode='all' to rebuild the store under '");
                message.append(name);
                message.append("'");
                return Err(message);
            }
            Ok(Some(name.to_owned()))
        },
    }
}

/// The relationships of a selection.
pub open spec fn selected_edges(selected: Seq<(EdgeIndex, Option<Text>)>) -> Seq<EdgeIndex> {
    Seq::new(selected.len(), |i: int| selected[i].0)
}

/// Whether vectors stay that the selection does not reach.
pub open spec fn unselected_remain(
    existing: Option<StoreModel>,
    selected: Seq<(EdgeIndex, Option<Text>)>,
) -> bool {
    existing is Some && !owners_covered(existing->0, selected_edges(selected))
}

/// Why a pass is refused under a model of a name and a dimension.
pub open spec fn model_fault(
    existing: Option<StoreModel>,
    request: RequestModel,
    model_id: Option<Text>,
    dimension: usize,
) -> Option<ErrorModel> {
    if request.mode != EmbedMode::All && existing is Some && existing->0.model_id is Some
        && model_id != existing->0.model_id {
        Some(
            ErrorModel::Output(
                "the existing relationship embedding store was generated by model '"@
                    + existing->0.model_id->0 + "', but the current model is "@ + model_text(
                    model_id,
                ) + "; use mode='all' to rebuild the selected slice"@,
            ),
        )
    } else if dimension == 0 {
        Some(ErrorModel::Output("embedder declared dimension 0"@))
    } else if existing is Some && existing->0.dimension != dimension && (request.mode
        != EmbedMode::All || unselected_remain(existing, request.selected)) {
        Some(ErrorModel::Dimension { store: existing->0.dimension, model: dimension })
    } else {
        None
    }
}

/// Why a pass over a selection is refused before the model is loaded.
pub open spec fn generation_fault(
    topology: Topology,
    existing: Option<StoreModel>,
    request: RequestModel,
    model_id: Option<Text>,
    dimension: usize,
) -> Option<ErrorModel> {
    if selection_fault(topology, request.connection_type, request.selected, 0) is Some {
        Some(
            ErrorModel::Output(
                selection_fault(topology, request.connection_type, request.selected, 0)->0,
            ),
        )
    } else {
        match metric_written(existing, request.metric, request.mode) {
            Err(fault) => Some(ErrorModel::Output(fault)),
            Ok(_) => model_fault(existing, request, model_id, dimension),
        }
    }
}

/// What a pass writes with the vectors that were made.
pub open spec fn write_of(
    existing: Option<StoreModel>,
    request: RequestModel,
    model_id: Option<Text>,
    dimension: usize,
    generated: Seq<(EdgeIndex, Seq<u32>, u64)>,
) -> WriteModel {
    let plan = plan_of(existing, request.selected, request.mode, request.selected.len());
    WriteModel {
        dimension,
        metric: metric_written(existing, request.metric, request.mode)->Ok_0,
        model_id: model_after(
            match existing {
                Some(store) => store.model_id,
                None => None,
            },
            model_id,
            request.mode,
            unselected_remain(existing, request.selected),
            existing is Some && existing->0.nodes.len() > 0,
        ),
        generated,
        removed: plan.removed,
        affected: plan.affected,
    }
}

/// What a pass reports after its write.
pub open spec fn report_of(plan: PlanModel, write: WriteModel, stored: EdgeEmbeddingWriteReport) -> ReportModel {
    ReportModel {
        embedded: plan.pending.len(),
        skipped: plan.skipped,
        skipped_existing: plan.skipped_existing,
        reembedded: plan.reembedded,
        removed: plan.removed.len(),
        stored: stored.stored as nat,
        dimension: stored.dimension as nat,
        model_id: write.model_id,
    }
}

/// What a pass over no relationships reports.
pub open spec fn idle_report(existing: Option<StoreModel>) -> ReportModel {
    ReportModel {
        embedded: 0,
        skipped: 0,
        skipped_existing: 0,
        reembedded: 0,
        removed: 0,
        stored: match existing {
            Some(store) => store.nodes.len(),
            None => 0,
        },
        dimension: match existing {
            Some(store) => store.dimension as nat,
            None => 0,
        },
        model_id: match existing {
            Some(store) => store.model_id,
            None => None,
        },
    }
}

/// A pass that may go to the model.
pub struct PreparedGeneration {
    /// What goes to the model, what is removed and what is left.
    pub plan: SelectionPlan,
    /// The metric the store is to declare.
    pub metric: Option<String>,
    /// The model the store is to name.
    pub model_id: Option<String>,
    /// The numbers in a vector.
    pub dimension: usize,
}

/// Whether a pass was prepared for a store and a model.
pub open spec fn prepared_for(
    prepared: PreparedGeneration,
    existing: Option<StoreModel>,
    request: RequestModel,
    model_id: Option<Text>,
    dimension: usize,
) -> bool {
    let write = write_of(existing, request, model_id, dimension, Seq::empty());
    &&& prepared.plan@ == plan_of(
        existing,
        request.selected,
        request.mode,
        request.selected.len(),
    )
    &&& prepared.plan.removed_missing == prepared.plan@.removed.len()
    &&& text_option(prepared.metric) == write.metric
    &&& text_option(prepared.model_id) == write.model_id
    &&& prepared.dimension == dimension
}

fn edges_selected(selected: &Vec<SelectedEdgeText>) -> (edges: Vec<EdgeIndex>)
    ensures
        edges@ == selected_edges(selection_of(selected@)),
{
    let mut edges: Vec<EdgeIndex> = Vec::new();
    let mut i: usize = 0;
    while i < selected.len()
        invariant
            i <= selected@.len(),
            edges@.len() == i,
            forall|k: int|
                0 <= k < i ==> #[trigger] edges@[k] == selection_of(selected@)[k].0,
        decreases selected@.len() - i,
    {
        edges.push(selected[i].edge);
        i = i + 1;
    }
    assert(edges@ =~= selected_edges(selection_of(selected@)));
    edges
}

/// Checks a selection against a store and a model, and plans the pass.
pub fn prepare_generation(
    graph: &DirGraph,
    request: &EdgeGenerationRequest,
    model_id: Option<&str>,
    dimension: usize,
) -> (result: Result<PreparedGeneration, EmbedError>)
    requires
        graph.well_formed(),
    ensures
        ({
            let existing = lookup(
                graph.edge_embeddings@,
                request@.connection_type,
                store_name_of(request@.text_property),
            );
            match result {
                Ok(prepared) => {
                    &&& generation_fault(
                        graph.topology,
                        existing,
                        request@,
                        str_option(model_id),
                        dimension,
                    ) is None
                    &&& prepared_for(
                        prepared,
                        existing,
                        request@,
                        str_option(model_id),
                        dimension,
                    )
                },
                Err(error) => generation_fault(
                    graph.topology,
                    existing,
                    request@,
                    str_option(model_id),
                    dimension,
                ) == Some(error@),
            }
        }),
{
    let name = store_name(request.text_property.as_str());
    let existing = graph.edge_embeddings.get(request.connection_type.as_str(), name.as_str());
    assert(existing_model(existing) == lookup(
        graph.edge_embeddings@,
        request@.connection_type,
        store_name_of(request@.text_property),
    ));
    if let Err(message) = validate_selection(
        graph,
        request.connection_type.as_str(),
        &request.selected,
    ) {
        return Err(EmbedError::Output(message));
    }
    let requested: Option<&str> = match &request.metric {
        Some(metric) => Some(metric.as_str()),
        None => None,
    };
    let metric = match resolve_generation_metric(existing, requested, request.mode) {
        Ok(metric) => metric,
        Err(message) => {
            return Err(EmbedError::Output(message));
        },
    };
    let prior: Option<&str> = match existing {
        Some(store) => store.model_id(),
        None => None,
    };
    if request.mode != EmbedMode::All {
        if let Some(made_by) = prior {
            if !text_option_eq(model_id, prior) {
                let mut message =
                    "the existing relationship embedding store was generated by model '".to_owned();
                message.append(made_by);
                message.append("', but the current model is ");
                push_model(&mut message, model_id);
                message.append("; use mode='all' to rebuild the selected slice");
                return Err(EmbedError::Output(message));
            }
        }
    }
    let edges = edges_selected(&request.selected);
    let remain = match existing {
        Some(store) => !covers_owners(store, &edges),
        None => false,
    };
    if dimension == 0 {
        return Err(EmbedError::Output("embedder declared dimension 0".to_owned()));
    }
    if let Some(store) = existing {
        if store.dimension() != dimension && (request.mode != EmbedMode::All || remain) {
            return Err(EmbedError::Dimension { store: store.dimension(), model: dimension });
        }
    }
    let plan = plan_selection(existing, &request.selected, request.mode);
    let had_vectors = match existing {
        Some(store) => !store.is_empty(),
        None => false,
    };
    let model = final_model_id(prior, model_id, request.mode, remain, had_vectors);
    Ok(PreparedGeneration { plan, metric, model_id: model, dimension })
}

/// What a pass did with the vectors that were made.
pub open spec fn pass_done(
    before: DirGraph,
    after: DirGraph,
    request: RequestModel,
    model_id: Option<Text>,
    dimension: usize,
    generated: Seq<(EdgeIndex, Seq<u32>, u64)>,
    report: ReportModel,
) -> bool {
    let existing = lookup(
        before.edge_embeddings@,
        request.connection_type,
        store_name_of(request.text_property),
    );
    let write = write_of(existing, request, model_id, dimension, generated);
    let plan = plan_of(existing, request.selected, request.mode, request.selected.len());
    &&& generation_fault(before.topology, existing, request, model_id, dimension) is None
    &&& install_fault(before.topology, request.connection_type, existing, write) is None
    &&& exists|stored: EdgeEmbeddingWriteReport|
        #[trigger] install_done(
            before,
            after,
            request.connection_type,
            request.text_property,
            write,
            stored,
        ) && report == report_of(plan, write, stored)
}

/// Writes the vectors that were made for a prepared pass.
pub fn finish_generation(
    graph: &mut DirGraph,
    request: &EdgeGenerationRequest,
    prepared: PreparedGeneration,
    generated: Vec<GeneratedVector>,
    model_id: Option<&str>,
) -> (result: Result<EdgeGenerationReport, EmbedError>)
    requires
        old(graph).well_formed(),
        ({
            let existing = lookup(
                old(graph).edge_embeddings@,
                request@.connection_type,
                store_name_of(request@.text_property),
            );
            &&& generation_fault(
                old(graph).topology,
                existing,
                request@,
                str_option(model_id),
                prepared.dimension,
            ) is None
            &&& prepared_for(
                prepared,
                existing,
                request@,
                str_option(model_id),
                prepared.dimension,
            )
        }),
    ensures
        final(graph).well_formed(),
        match result {
            Ok(report) => pass_done(
                *old(graph),
                *final(graph),
                request@,
                str_option(model_id),
                prepared.dimension,
                generated_rows(generated@),
                report@,
            ),
            Err(error) => {
                let existing = lookup(
                    old(graph).edge_embeddings@,
                    request@.connection_type,
                    store_name_of(request@.text_property),
                );
                &&& *final(graph) == *old(graph)
                &&& error@ is Output
                &&& install_fault(
                    old(graph).topology,
                    request@.connection_type,
                    existing,
                    write_of(
                        existing,
                        request@,
                        str_option(model_id),
                        prepared.dimension,
                        generated_rows(generated@),
                    ),
                ) == Some(error@->Output_0)
            },
        },
{
    let ghost existing = lookup(
        graph.edge_embeddings@,
        request@.connection_type,
        store_name_of(request@.text_property),
    );
    let ghost before = *graph;
    let plan = prepared.plan;
    let ghost planned = plan@;
    let embedded: usize = plan.pending.len();
    assert(planned.pending.len() == plan.pending@.len());
    let model: Option<String> = match &prepared.model_id {
        Some(name) => Some(name.as_str().to_owned()),
        None => None,
    };
    let write = GeneratedEdgeEmbeddingWrite {
        dimension: prepared.dimension,
        metric: prepared.metric,
        final_model_id: prepared.model_id,
        generated,
        remove_selected: plan.remove_selected,
        affected: plan.affected,
    };
    proof {
        let expected = write_of(
            existing,
            request@,
            str_option(model_id),
            prepared.dimension,
            generated_rows(generated@),
        );
        assert(write@.generated =~= expected.generated);
        assert(write@ == expected);
    }
    match install_generated_edge_embeddings(
        graph,
        request.connection_type.as_str(),
        request.text_property.as_str(),
        &write,
    ) {
        Err(message) => Err(EmbedError::Output(message)),
        Ok(stored) => {
            let report = EdgeGenerationReport {
                embedded,
                skipped: plan.skipped,
                skipped_existing: plan.skipped_existing,
                reembedded_changed: plan.reembedded_changed,
                removed_missing: plan.removed_missing,
                stored: stored.stored,
                dimension: stored.dimension,
                model_id: model,
            };
            assert(report@ == report_of(planned, write@, stored));
            assert(install_done(
                before,
                *graph,
                request@.connection_type,
                request@.text_property,
                write@,
                stored,
            ));
            Ok(report)
        },
    }
}

/// What a result says.
pub open spec fn report_said(result: Result<EdgeGenerationReport, EmbedError>) -> Result<
    ReportModel,
    ErrorModel,
> {
    match result {
        Ok(report) => Ok(report@),
        Err(error) => Err(error@),
    }
}

/// What a refused pass leaves: nothing was written.
pub open spec fn refused(
    before: DirGraph,
    after: DirGraph,
    result: Result<ReportModel, ErrorModel>,
    message: Text,
) -> bool {
    after == before && result == Err::<ReportModel, ErrorModel>(ErrorModel::Output(message))
}

/// Whether a model can say so of itself: its name and its dimension.
pub open spec fn model_says<M: Embedder>(
    model: &M,
    model_id: Option<String>,
    dimension: usize,
) -> bool {
    &&& call_ensures(M::model_id, (model,), model_id)
    &&& call_ensures(M::dimension, (model,), dimension)
}

/// What goes to the model in a pass.
pub open spec fn pass_pending(before: DirGraph, request: RequestModel) -> Seq<PendingModel> {
    let existing = lookup(
        before.edge_embeddings@,
        request.connection_type,
        store_name_of(request.text_property),
    );
    plan_of(existing, request.selected, request.mode, request.selected.len()).pending
}

/// Whether a pass wrote the vectors that the model made, under what the model
/// says of itself.
pub open spec fn pass_taken<M: Embedder, I: Interrupt, C: EmbedCalls>(
    model: &M,
    interrupt: I,
    hooks: Option<&EmbedHooks<C>>,
    before: DirGraph,
    after: DirGraph,
    request: RequestModel,
    model_id: Option<String>,
    dimension: usize,
    generated: Seq<(EdgeIndex, Seq<u32>, u64)>,
    calls: Seq<ModelCall>,
    report: ReportModel,
) -> bool {
    let pending = pass_pending(before, request);
    &&& model_says(model, model_id, dimension)
    &&& generated_said(
        model,
        interrupt,
        hooks,
        before.topology,
        pending,
        request.batch_size,
        calls,
        Ok::<Seq<(EdgeIndex, Seq<u32>, u64)>, ErrorModel>(generated),
    )
    &&& all_made(generated, pending)
    &&& pass_done(
        before,
        after,
        request,
        text_option(model_id),
        dimension,
        generated,
        report,
    )
}

/// Whether vectors that the model made cannot be written.
pub open spec fn pass_spoilt<M: Embedder, I: Interrupt, C: EmbedCalls>(
    model: &M,
    interrupt: I,
    hooks: Option<&EmbedHooks<C>>,
    before: DirGraph,
    request: RequestModel,
    model_id: Option<String>,
    dimension: usize,
    generated: Seq<(EdgeIndex, Seq<u32>, u64)>,
    calls: Seq<ModelCall>,
    error: ErrorModel,
) -> bool {
    let existing = lookup(
        before.edge_embeddings@,
        request.connection_type,
        store_name_of(request.text_property),
    );
    &&& generated_said(
        model,
        interrupt,
        hooks,
        before.topology,
        pass_pending(before, request),
        request.batch_size,
        calls,
        Ok::<Seq<(EdgeIndex, Seq<u32>, u64)>, ErrorModel>(generated),
    )
    &&& error is Output
    &&& install_fault(
        before.topology,
        request.connection_type,
        existing,
        write_of(existing, request, text_option(model_id), dimension, generated),
    ) == Some(error->Output_0)
}

/// Whether a pass is refused for what the model says of itself, or fails because
/// it is stopped, the model fails, or what it made cannot be written.
pub open spec fn pass_fails<M: Embedder, I: Interrupt, C: EmbedCalls>(
    model: &M,
    interrupt: I,
    hooks: Option<&EmbedHooks<C>>,
    before: DirGraph,
    request: RequestModel,
    model_id: Option<String>,
    dimension: usize,
    calls: Seq<ModelCall>,
    error: ErrorModel,
) -> bool {
    let existing = lookup(
        before.edge_embeddings@,
        request.connection_type,
        store_name_of(request.text_property),
    );
    let fault = generation_fault(
        before.topology,
        existing,
        request,
        text_option(model_id),
        dimension,
    );
    &&& model_says(model, model_id, dimension)
    &&& if fault is Some {
        fault == Some(error) && calls.len() == 0
    } else {
        ||| generated_said(
            model,
            interrupt,
            hooks,
            before.topology,
            pass_pending(before, request),
            request.batch_size,
            calls,
            Err::<Seq<(EdgeIndex, Seq<u32>, u64)>, ErrorModel>(error),
        )
        ||| exists|generated: Seq<(EdgeIndex, Seq<u32>, u64)>| #[trigger]
            pass_spoilt(
                model,
                interrupt,
                hooks,
                before,
                request,
                model_id,
                dimension,
                generated,
                calls,
                error,
            )
    }
}

/// Whether a pass can be written, for some answers of the model.
pub open spec fn pass_written<M: Embedder, I: Interrupt, C: EmbedCalls>(
    model: &M,
    interrupt: I,
    hooks: Option<&EmbedHooks<C>>,
    before: DirGraph,
    after: DirGraph,
    request: RequestModel,
    calls: Seq<ModelCall>,
    report: ReportModel,
) -> bool {
    exists|
        model_id: Option<String>,
        dimension: usize,
        generated: Seq<(EdgeIndex, Seq<u32>, u64)>,
    | #[trigger]
        pass_taken(
            model,
            interrupt,
            hooks,
            before,
            after,
            request,
            model_id,
            dimension,
            generated,
            calls,
            report,
        )
}

/// Whether a pass can fail so, for some answers of the model.
pub open spec fn pass_failed<M: Embedder, I: Interrupt, C: EmbedCalls>(
    model: &M,
    interrupt: I,
    hooks: Option<&EmbedHooks<C>>,
    before: DirGraph,
    request: RequestModel,
    calls: Seq<ModelCall>,
    error: ErrorModel,
) -> bool {
    exists|model_id: Option<String>, dimension: usize| #[trigger]
        pass_fails(
            model,
            interrupt,
            hooks,
            before,
            request,
            model_id,
            dimension,
            calls,
            error,
        )
}

/// What a pass comes to, and what is called for it: a request, a selection or a
/// metric that cannot be is refused, a selection of nothing changes nothing and
/// needs no model, and neither calls anything; a failure leaves the graph as it
/// was, and a success wrote what the plan and the vectors that the model made say.
pub open spec fn pass_outcome<M: Embedder, I: Interrupt, C: EmbedCalls>(
    before: DirGraph,
    after: DirGraph,
    request: RequestModel,
    service: Option<(&M, I)>,
    hooks: Option<&EmbedHooks<C>>,
    calls: Seq<ModelCall>,
    result: Result<ReportModel, ErrorModel>,
) -> bool {
    let existing = lookup(
        before.edge_embeddings@,
        request.connection_type,
        store_name_of(request.text_property),
    );
    let unfit = selection_fault(before.topology, request.connection_type, request.selected, 0);
    let metric = metric_written(existing, request.metric, request.mode);
    if syntax_fault(request) is Some {
        calls.len() == 0 && refused(before, after, result, syntax_fault(request)->0)
    } else if request.selected.len() == 0 {
        &&& calls.len() == 0
        &&& after == before
        &&& result == Ok::<ReportModel, ErrorModel>(idle_report(existing))
    } else if service is None {
        calls.len() == 0 && refused(
            before,
            after,
            result,
            "relationship embedding generation requires a registered embedder"@,
        )
    } else if unfit is Some {
        calls.len() == 0 && refused(before, after, result, unfit->0)
    } else if metric is Err {
        calls.len() == 0 && refused(before, after, result, metric->Err_0)
    } else {
        let (model, interrupt) = service->0;
        match result {
            Ok(report) => pass_written(
                model,
                interrupt,
                hooks,
                before,
                after,
                request,
                calls,
                report,
            ),
            Err(error) => after == before && pass_failed(
                model,
                interrupt,
                hooks,
                before,
                request,
                calls,
                error,
            ),
        }
    }
}

/// The report of a selection of nothing, where the request is that.
fn answer_at_once(graph: &DirGraph, request: &EdgeGenerationRequest) -> (result: Result<
    Option<EdgeGenerationReport>,
    EmbedError,
>)
    ensures
        match result {
            Ok(Some(report)) => {
                &&& syntax_fault(request@) is None
                &&& request@.selected.len() == 0
                &&& report@ == idle_report(
                    lookup(
                        graph.edge_embeddings@,
                        request@.connection_type,
                        store_name_of(request@.text_property),
                    ),
                )
            },
            Ok(None) => syntax_fault(request@) is None && request@.selected.len() > 0,
            Err(error) => syntax_fault(request@) is Some && error@ == ErrorModel::Output(
                syntax_fault(request@)->0,
            ),
        },
{
    if let Err(message) = validate_request_syntax(request) {
        return Err(EmbedError::Output(message));
    }
    assert(request.selected@.len() == request@.selected.len());
    if request.selected.len() > 0 {
        return Ok(None);
    }
    let name = store_name(request.text_property.as_str());
    let (stored, dimension, model_id) = match graph.edge_embeddings.get(
        request.connection_type.as_str(),
        name.as_str(),
    ) {
        Some(store) => (store.len(), store.dimension(), owned_option(store.model_id())),
        None => (0, 0, None),
    };
    Ok(
        Some(
            EdgeGenerationReport {
                embedded: 0,
                skipped: 0,
                skipped_existing: 0,
                reembedded_changed: 0,
                removed_missing: 0,
                stored,
                dimension,
                model_id,
            },
        ),
    )
}

proof fn an_outcome_is_orderly<M: Embedder, I: Interrupt, C: EmbedCalls>(
    before: DirGraph,
    after: DirGraph,
    request: RequestModel,
    service: Option<(&M, I)>,
    hooks: Option<&EmbedHooks<C>>,
    calls: Seq<ModelCall>,
    result: Result<ReportModel, ErrorModel>,
)
    requires
        pass_outcome(before, after, request, service, hooks, calls, result),
    ensures
        orderly(calls),
{
    if calls.len() > 0 {
        let (model, interrupt) = service->0;
        let pending = pass_pending(before, request);
        match result {
            Ok(report) => {
                let (model_id, dimension, generated) = choose|
                    model_id: Option<String>,
                    dimension: usize,
                    generated: Seq<(EdgeIndex, Seq<u32>, u64)>,
                | #[trigger]
                    pass_taken(
                        model,
                        interrupt,
                        hooks,
                        before,
                        after,
                        request,
                        model_id,
                        dimension,
                        generated,
                        calls,
                        report,
                    );
                generating_is_orderly(
                    model,
                    interrupt,
                    hooks,
                    before.topology,
                    pending,
                    request.batch_size,
                    calls,
                    Ok(generated),
                );
            },
            Err(error) => {
                let (model_id, dimension) = choose|model_id: Option<String>, dimension: usize|
                    #[trigger]
                    pass_fails(
                        model,
                        interrupt,
                        hooks,
                        before,
                        request,
                        model_id,
                        dimension,
                        calls,
                        error,
                    );
                if exists|generated: Seq<(EdgeIndex, Seq<u32>, u64)>| #[trigger]
                    pass_spoilt(
                        model,
                        interrupt,
                        hooks,
                        before,
                        request,
                        model_id,
                        dimension,
                        generated,
                        calls,
                        error,
                    ) {
                    let generated = choose|generated: Seq<(EdgeIndex, Seq<u32>, u64)>| #[trigger]
                        pass_spoilt(
                            model,
                            interrupt,
                            hooks,
                            before,
                            request,
                            model_id,
                            dimension,
                            generated,
                            calls,
                            error,
                        );
                    generating_is_orderly(
                        model,
                        interrupt,
                        hooks,
                        before.topology,
                        pending,
                        request.batch_size,
                        calls,
                        Ok(generated),
                    );
                } else {
                    generating_is_orderly(
                        model,
                        interrupt,
                        hooks,
                        before.topology,
                        pending,
                        request.batch_size,
                        calls,
                        Err(error),
                    );
                }
            },
        }
    }
}

fn run_pass<M: Embedder, I: Interrupt, C: EmbedCalls>(
    graph: &mut DirGraph,
    request: EdgeGenerationRequest,
    model: &mut ModelCalls<'_, M>,
    interrupt: &I,
    hooks: Option<&EmbedHooks<C>>,
) -> (result: Result<EdgeGenerationReport, EmbedError>)
    requires
        old(graph).well_formed(),
    ensures
        final(graph).well_formed(),
        final(model).follows(*old(model)),
        pass_outcome(
            *old(graph),
            *final(graph),
            request@,
            Some((old(model).model(), *interrupt)),
            hooks,
            final(model).since(*old(model)),
            report_said(result),
        ),
{
    let ghost before = *graph;
    let ghost first = *model;
    let ghost m = model.model();
    proof {
        assert(first.made() =~= first.made() + (Seq::<ModelCall>::empty()));
        more_calls(first, first, Seq::<ModelCall>::empty());
    }
    match answer_at_once(graph, &request) {
        Ok(Some(report)) => {
            return Ok(report);
        },
        Ok(None) => {},
        Err(error) => {
            return Err(error);
        },
    }
    let requested = model.model_id();
    let model_id: Option<&str> = match &requested {
        Some(name) => Some(name.as_str()),
        None => None,
    };
    let declared: usize = model.dimension();
    assert(model_says(m, requested, declared));
    assert(str_option(model_id) == text_option(requested));
    let prepared = match prepare_generation(graph, &request, model_id, declared) {
        Ok(prepared) => prepared,
        Err(error) => {
            assert(pass_fails(
                m,
                *interrupt,
                hooks,
                before,
                request@,
                requested,
                declared,
                model.since(first),
                error@,
            ));
            assert(pass_failed(
                m,
                *interrupt,
                hooks,
                before,
                request@,
                model.since(first),
                error@,
            ));
            return Err(error);
        },
    };
    assert(pending_models(prepared.plan.pending@) == pass_pending(before, request@));
    let generated = match make_vectors(
        model,
        interrupt,
        graph,
        &prepared.plan.pending,
        request.batch_size,
        hooks,
    ) {
        Ok(generated) => generated,
        Err(error) => {
            assert(pass_fails(
                m,
                *interrupt,
                hooks,
                before,
                request@,
                requested,
                declared,
                model.since(first),
                error@,
            ));
            assert(pass_failed(
                m,
                *interrupt,
                hooks,
                before,
                request@,
                model.since(first),
                error@,
            ));
            return Err(error);
        },
    };
    let ghost made = generated_rows(generated@);
    let ghost calls = model.since(first);
    let result = finish_generation(graph, &request, prepared, generated, model_id);
    proof {
        match &result {
            Ok(report) => {
                assert(pass_taken(
                    m,
                    *interrupt,
                    hooks,
                    before,
                    *graph,
                    request@,
                    requested,
                    declared,
                    made,
                    calls,
                    report@,
                ));
                assert(pass_written(
                    m,
                    *interrupt,
                    hooks,
                    before,
                    *graph,
                    request@,
                    calls,
                    report@,
                ));
            },
            Err(error) => {
                assert(pass_spoilt(
                    m,
                    *interrupt,
                    hooks,
                    before,
                    request@,
                    requested,
                    declared,
                    made,
                    calls,
                    error@,
                ));
                assert(pass_fails(
                    m,
                    *interrupt,
                    hooks,
                    before,
                    request@,
                    requested,
                    declared,
                    calls,
                    error@,
                ));
                assert(pass_failed(m, *interrupt, hooks, before, request@, calls, error@));
            },
        }
    }
    result
}

/// Runs a pass over selected relationships. Everything is checked before the
/// model is loaded, and the store is written once, at the end.
pub fn generate_selected<M: Embedder, I: Interrupt, C: EmbedCalls>(
    graph: &mut DirGraph,
    request: EdgeGenerationRequest,
    service: Option<&mut EmbeddingExecutionService<'_, M, I>>,
    hooks: Option<&EmbedHooks<C>>,
) -> (result: Result<EdgeGenerationReport, EmbedError>)
    requires
        old(graph).well_formed(),
    ensures
        final(graph).well_formed(),
        match service {
            Some(s) => {
                &&& final(s).interrupt == s.interrupt
                &&& final(s).model.follows(s.model)
                &&& orderly(final(s).model.since(s.model))
                &&& pass_outcome(
                    *old(graph),
                    *final(graph),
                    request@,
                    Some((s.model.model(), s.interrupt)),
                    hooks,
                    final(s).model.since(s.model),
                    report_said(result),
                )
            },
            None => pass_outcome(
                *old(graph),
                *final(graph),
                request@,
                None::<(&M, I)>,
                hooks,
                Seq::empty(),
                report_said(result),
            ),
        },
{
    match service {
        Some(s) => {
            let ghost before = *graph;
            let ghost first = s.model;
            let ghost asked = request@;
            let result = run_pass(graph, request, &mut s.model, &s.interrupt, hooks);
            proof {
                an_outcome_is_orderly(
                    before,
                    *graph,
                    asked,
                    Some((first.model(), s.interrupt)),
                    hooks,
                    s.model.since(first),
                    report_said(result),
                );
            }
            result
        },
        None => match answer_at_once(graph, &request) {
            Ok(Some(report)) => Ok(report),
            Ok(None) => Err(
                EmbedError::Output(
                    "relationship embedding generation requires a registered embedder".to_owned(),
                ),
            ),
            Err(error) => Err(error),
        },
    }
}

/// A refusal in words, as a statement over relationships says it.
pub open spec fn refusal_said(error: ErrorModel) -> Text {
    match error {
        ErrorModel::Dimension { store, model } => "the model produces "@ + decimal(model as nat)
            + "-d vectors but the existing relationship store is "@ + decimal(store as nat)
            + "-d and retained vectors would remain"@,
        _ => error_text(error),
    }
}

/// What a pass comes to, with what went wrong in words.
pub open spec fn pass_outcome_told<M: Embedder, I: Interrupt>(
    before: DirGraph,
    after: DirGraph,
    request: RequestModel,
    service: Option<(&M, I)>,
    calls: Seq<ModelCall>,
    result: Result<ReportModel, Text>,
) -> bool {
    match result {
        Ok(report) => pass_outcome(
            before,
            after,
            request,
            service,
            None::<&EmbedHooks<PlainCalls>>,
            calls,
            Ok(report),
        ),
        Err(message) => pass_refused_so(before, after, request, service, calls, message),
    }
}

/// Whether a pass fails with an error that these words tell.
pub open spec fn pass_refused_so<M: Embedder, I: Interrupt>(
    before: DirGraph,
    after: DirGraph,
    request: RequestModel,
    service: Option<(&M, I)>,
    calls: Seq<ModelCall>,
    message: Text,
) -> bool {
    exists|error: ErrorModel| #[trigger]
        refusal_said(error) == message && pass_outcome(
            before,
            after,
            request,
            service,
            None::<&EmbedHooks<PlainCalls>>,
            calls,
            Err(error),
        )
}

/// What a pass reports, or says in words.
pub open spec fn report_told(result: Result<EdgeGenerationReport, String>) -> Result<
    ReportModel,
    Text,
> {
    match result {
        Ok(report) => Ok(report@),
        Err(message) => Err(message@),
    }
}

/// Runs a pass over selected relationships, with what went wrong in words.
pub fn embed_selected_relationships<M: Embedder, I: Interrupt>(
    graph: &mut DirGraph,
    request: EdgeGenerationRequest,
    service: Option<&mut EmbeddingExecutionService<'_, M, I>>,
) -> (result: Result<EdgeGenerationReport, String>)
    requires
        old(graph).well_formed(),
    ensures
        final(graph).well_formed(),
        match service {
            Some(s) => {
                &&& final(s).interrupt == s.interrupt
                &&& final(s).model.follows(s.model)
                &&& orderly(final(s).model.since(s.model))
                &&& pass_outcome_told(
                    *old(graph),
                    *final(graph),
                    request@,
                    Some((s.model.model(), s.interrupt)),
                    final(s).model.since(s.model),
                    report_told(result),
                )
            },
            None => pass_outcome_told(
                *old(graph),
                *final(graph),
                request@,
                None::<(&M, I)>,
                Seq::empty(),
                report_told(result),
            ),
        },
{
    match generate_selected::<M, I, PlainCalls>(graph, request, service, None) {
        Ok(report) => Ok(report),
        Err(error) => {
            let message = match &error {
                EmbedError::Dimension { store, model } => {
                    let mut message = "the model produces ".to_owned();
                    push_number(&mut message, *model);
                    message.append("-d vectors but the existing relationship store is ");
                    push_number(&mut message, *store);
                    message.append("-d and retained vectors would remain");
                    message
                },
                _ => error.message(),
            };
            assert(refusal_said(error@) == message@);
            Err(message)
        },
    }
}

/// A relationship's text in a column: a text that is not empty.
pub open spec fn text_of(topology: Topology, edge: EdgeIndex, column: Text) -> Option<Text> {
    match property_in(topology.record(edge).data.properties@, column) {
        Some(ValueModel::String(text)) => if text.len() > 0 {
            Some(text)
        } else {
            None
        },
        _ => None,
    }
}

/// Every relationship of a type with its text in a column.
pub open spec fn texts_of_type(topology: Topology, relationship_type: Text, column: Text) -> Seq<
    (EdgeIndex, Option<Text>),
> {
    let edges = typed_edges(topology.edges@, relationship_type);
    Seq::new(edges.len(), |i: int| (edges[i], text_of(topology, edges[i], column)))
}

/// Every relationship of a type with its text.
pub fn relationship_texts(graph: &DirGraph, relationship_type: &str, text_column: &str) -> (selected:
    Vec<SelectedEdgeText>)
    ensures
        selection_of(selected@) == texts_of_type(
            graph.topology,
            relationship_type@,
            text_column@,
        ),
{
    let edges = graph.topology.edges_of_type(relationship_type);
    let bound: usize = graph.topology.edges.len();
    proof {
        typed_edges_live(graph.topology, relationship_type@);
    }
    let ghost expected = texts_of_type(graph.topology, relationship_type@, text_column@);
    let mut selected: Vec<SelectedEdgeText> = Vec::new();
    let mut i: usize = 0;
    while i < edges.len()
        invariant
            i <= edges@.len(),
            edges@ == typed_edges(graph.topology.edges@, relationship_type@),
            expected == texts_of_type(graph.topology, relationship_type@, text_column@),
            forall|k: int|
                0 <= k < edges@.len() ==> graph.topology.live(#[trigger] edges@[k]),
            selected@.len() == i,
            forall|k: int|
                0 <= k < i ==> #[trigger] selection_of(selected@)[k] == expected[k],
        decreases edges@.len() - i,
    {
        let edge = edges[i];
        assert(graph.topology.live(edges@[i as int]));
        let text: Option<String> = match graph.topology.edge_weight(edge) {
            Some(data) => match data.get_property(text_column) {
                Some(Value::String(text)) => if text.as_str().is_empty() {
                    None
                } else {
                    Some(text.as_str().to_owned())
                },
                _ => None,
            },
            None => None,
        };
        let ghost before = selected@;
        selected.push(SelectedEdgeText { edge, text });
        proof {
            assert(text_option(text) == text_of(graph.topology, edge, text_column@));
            assert forall|k: int| 0 <= k < i + 1 implies #[trigger] selection_of(selected@)[k]
                == expected[k] by {
                if k < i {
                    assert(selection_of(before)[k] == selection_of(selected@)[k]);
                }
            }
        }
        i = i + 1;
    }
    assert(selection_of(selected@) =~= expected);
    selected
}

/// The request of a pass over every relationship of a type.
pub open spec fn type_request(
    topology: Topology,
    relationship_type: Text,
    text_column: Text,
    mode: EmbedMode,
    batch_size: usize,
    metric: Option<Text>,
) -> RequestModel {
    RequestModel {
        connection_type: relationship_type,
        text_property: text_column,
        selected: texts_of_type(topology, relationship_type, text_column),
        mode,
        batch_size: if batch_size == 0 {
            1
        } else {
            batch_size
        },
        metric,
    }
}

/// The outcome that a report gives. Where nothing was embedded the dimension is
/// the model's own.
pub open spec fn outcome_of<M: Embedder>(
    model: &M,
    outcome: EmbedOutcome,
    report: ReportModel,
) -> bool {
    &&& outcome.embedded == report.embedded
    &&& outcome.skipped == report.skipped
    &&& outcome.skipped_existing == report.skipped_existing
    &&& outcome.reembedded_changed == report.reembedded
    &&& if report.embedded == 0 {
        call_ensures(M::dimension, (model,), outcome.dimension)
    } else {
        outcome.dimension == report.dimension
    }
}

/// What a pass that succeeded did and says.
pub open spec fn type_embedded<M: Embedder, C: EmbedCalls>(
    before: DirGraph,
    after: DirGraph,
    request: RequestModel,
    model: &M,
    hooks: &EmbedHooks<C>,
    calls: Seq<ModelCall>,
    outcome: EmbedOutcome,
) -> bool {
    exists|report: ReportModel| #[trigger]
        outcome_of(model, outcome, report) && pass_outcome(
            before,
            after,
            request,
            Some((model, NeverInterrupted)),
            Some(hooks),
            calls,
            Ok(report),
        )
}

/// Embeds a text column for every relationship of a type. A column that no
/// relationship of the type carries is refused where there is no store. The model
/// is loaded only where there is a text to embed, and let go on every way out.
pub fn embed_relationship_texts<M: Embedder, C: EmbedCalls>(
    graph: &mut DirGraph,
    relationship_type: &str,
    text_column: &str,
    mode: EmbedMode,
    model: &mut ModelCalls<'_, M>,
    hooks: &EmbedHooks<C>,
    metric: Option<&str>,
) -> (result: Result<EmbedOutcome, EmbedError>)
    requires
        old(graph).well_formed(),
    ensures
        final(graph).well_formed(),
        final(model).follows(*old(model)),
        orderly(final(model).since(*old(model))),
        result matches Ok(outcome) && outcome.embedded == 0 ==> final(model).since(
            *old(model),
        ).len() == 0,
        ({
            let calls = final(model).since(*old(model));
            let request = type_request(
                old(graph).topology,
                relationship_type@,
                text_column@,
                mode,
                hooks.batch_size,
                str_option(metric),
            );
            match carried_fault(*old(graph), "column"@, relationship_type@, text_column@) {
                Some(fault) => {
                    &&& calls.len() == 0
                    &&& *final(graph) == *old(graph)
                    &&& result matches Err(error) && error@ == ErrorModel::Column(fault)
                },
                None => match result {
                    Ok(outcome) => type_embedded(
                        *old(graph),
                        *final(graph),
                        request,
                        old(model).model(),
                        hooks,
                        calls,
                        outcome,
                    ),
                    Err(error) => pass_outcome(
                        *old(graph),
                        *final(graph),
                        request,
                        Some((old(model).model(), NeverInterrupted)),
                        Some(hooks),
                        calls,
                        Err(error@),
                    ),
                },
            }
        }),
{
    let ghost before = *graph;
    let ghost first = *model;
    proof {
        assert(first.made() =~= first.made() + (Seq::<ModelCall>::empty()));
        more_calls(first, first, Seq::<ModelCall>::empty());
    }
    if let Err(message) = require_carried(graph, "column", relationship_type, text_column) {
        return Err(EmbedError::Column(message));
    }
    let batch_size: usize = if hooks.batch_size == 0 {
        1
    } else {
        hooks.batch_size
    };
    let request = EdgeGenerationRequest {
        connection_type: relationship_type.to_owned(),
        text_property: text_column.to_owned(),
        selected: relationship_texts(graph, relationship_type, text_column),
        mode,
        batch_size,
        metric: owned_option(metric),
    };
    let ghost asked = request@;
    assert(asked == type_request(
        graph.topology,
        relationship_type@,
        text_column@,
        mode,
        hooks.batch_size,
        str_option(metric),
    ));
    let interrupt = NeverInterrupted;
    let result = run_pass(graph, request, model, &interrupt, Some(hooks));
    let ghost calls = model.since(first);
    proof {
        an_outcome_is_orderly(
            before,
            *graph,
            asked,
            Some((first.model(), interrupt)),
            Some(hooks),
            calls,
            report_said(result),
        );
    }
    match result {
        Ok(report) => {
            let dimension: usize = if report.embedded == 0 {
                model.dimension()
            } else {
                report.dimension
            };
            let outcome = EmbedOutcome {
                embedded: report.embedded,
                skipped: report.skipped,
                skipped_existing: report.skipped_existing,
                reembedded_changed: report.reembedded_changed,
                dimension,
            };
            assert(outcome_of(first.model(), outcome, report@) && pass_outcome(
                before,
                *graph,
                asked,
                Some((first.model(), interrupt)),
                Some(hooks),
                calls,
                Ok(report@),
            ));
            assert(type_embedded(
                before,
                *graph,
                asked,
                first.model(),
                hooks,
                calls,
                outcome,
            ));
            Ok(outcome)
        },
        Err(error) => Err(error),
    }
}

} // verus!
