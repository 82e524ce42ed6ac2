//! The calls that a pass makes to a model, and what was called.

use crate::embed::{EmbedCalls, EmbedHooks, Embedder, ErrorModel};
use crate::text::{texts, Text};
use vstd::prelude::*;

verus! {

/// A call of a pass.
pub enum ModelCall {
    /// The model was to be made ready, and is or is not.
    Load { ready: bool },
    /// The caller was told how many texts there are.
    Started { texts: nat },
    /// A batch of texts was sent: through the caller's own call, or to the model.
    Sent { batch: Seq<Text> },
    /// The caller was told that a batch is done.
    Finished { texts: nat },
    /// The model was let go.
    Unload,
}

/// A model, and the calls that were made of it. A pass has no other way to the
/// model, so what it called is what is kept here.
pub struct ModelCalls<'a, M: Embedder> {
    model: &'a M,
    made: Ghost<Seq<ModelCall>>,
}

/// Whether a batch can be answered with a reply: by the hook, where it answers,
/// and else by the model.
pub open spec fn replies<M: Embedder, C: EmbedCalls>(
    model: &M,
    hooks: Option<&EmbedHooks<C>>,
    batch: Vec<String>,
    reply: Result<Vec<Vec<u32>>, String>,
) -> bool {
    match hooks {
        Some(h) => call_ensures(C::embed_batch, (&h.calls, &batch), Some(reply)) || (call_ensures(
            C::embed_batch,
            (&h.calls, &batch),
            None::<Result<Vec<Vec<u32>>, String>>,
        ) && call_ensures(M::embed, (model, &batch), reply)),
        None => call_ensures(M::embed, (model, &batch), reply),
    }
}

/// Whether texts that are sent can be answered with a reply.
pub open spec fn answered<M: Embedder, C: EmbedCalls>(
    model: &M,
    hooks: Option<&EmbedHooks<C>>,
    sent: Seq<Text>,
    reply: Result<Vec<Vec<u32>>, String>,
) -> bool {
    exists|batch: Vec<String>|
        texts(batch@) == sent && #[trigger] replies(model, hooks, batch, reply)
}

/// Whether the model can be loaded.
pub open spec fn loads<M: Embedder>(model: &M) -> bool {
    exists|loaded: Result<(), String>|
        #[trigger] call_ensures(M::load, (model,), loaded) && loaded is Ok
}

/// Whether loading the model can fail with an error.
pub open spec fn load_fails<M: Embedder>(model: &M, error: ErrorModel) -> bool {
    exists|message: String|
        #[trigger] call_ensures(M::load, (model,), Err::<(), String>(message)) && error
            == ErrorModel::Model(message@)
}

/// That the caller, where there is one, was told how many texts there are.
pub open spec fn started(hooked: bool, count: nat) -> Seq<ModelCall> {
    if hooked {
        seq![ModelCall::Started { texts: count }]
    } else {
        Seq::empty()
    }
}

/// That the caller, where there is one, was told that a batch is done.
pub open spec fn finished(hooked: bool, count: nat) -> Seq<ModelCall> {
    if hooked {
        seq![ModelCall::Finished { texts: count }]
    } else {
        Seq::empty()
    }
}

impl<'a, M: Embedder> ModelCalls<'a, M> {
    /// The model.
    pub closed spec fn model(self) -> &'a M {
        self.model
    }

    /// The calls that were made, in order.
    pub closed spec fn made(self) -> Seq<ModelCall> {
        self.made@
    }

    /// Whether this is the same model after more calls.
    pub open spec fn follows(self, earlier: Self) -> bool {
        &&& self.model() == earlier.model()
        &&& self.made() == earlier.made() + self.since(earlier)
    }

    /// The calls that were made since.
    pub open spec fn since(self, earlier: Self) -> Seq<ModelCall> {
        self.made().skip(earlier.made().len() as int)
    }

    /// A model of which no calls were made yet.
    pub fn new(model: &'a M) -> (calls: Self)
        ensures
            calls.model() == model,
            calls.made() == Seq::<ModelCall>::empty(),
    {
        ModelCalls { model, made: Ghost(Seq::empty()) }
    }

    /// The numbers in a vector, as the model declares them.
    pub fn dimension(&self) -> (dimension: usize)
        ensures
            call_ensures(M::dimension, (self.model(),), dimension),
    {
        self.model.dimension()
    }

    /// The name of the model, where it has one.
    pub fn model_id(&self) -> (id: Option<String>)
        ensures
            call_ensures(M::model_id, (self.model(),), id),
    {
        self.model.model_id()
    }

    /// Makes the model ready.
    pub fn load(&mut self) -> (result: Result<(), String>)
        ensures
            final(self).model() == old(self).model(),
            final(self).made() == old(self).made().push(
                ModelCall::Load { ready: result is Ok },
            ),
            call_ensures(M::load, (final(self).model(),), result),
    {
        let result = self.model.load();
        self.made = Ghost(self.made@.push(ModelCall::Load { ready: result is Ok }));
        result
    }

    /// Lets the model go.
    pub fn unload(&mut self)
        ensures
            final(self).model() == old(self).model(),
            final(self).made() == old(self).made().push(ModelCall::Unload),
    {
        self.model.unload();
        self.made = Ghost(self.made@.push(ModelCall::Unload));
    }

    /// Sends one batch of texts.
    pub fn send<C: EmbedCalls>(&mut self, batch: &Vec<String>, hooks: Option<&EmbedHooks<C>>) -> (reply:
        Result<Vec<Vec<u32>>, String>)
        ensures
            final(self).model() == old(self).model(),
            final(self).made() == old(self).made().push(
                ModelCall::Sent { batch: texts(batch@) },
            ),
            replies(final(self).model(), hooks, *batch, reply),
    {
        let wrapped = match hooks {
            Some(h) => h.calls.embed_batch(batch),
            None => None,
        };
        let reply = match wrapped {
            Some(reply) => reply,
            None => self.model.embed(batch),
        };
        self.made = Ghost(self.made@.push(ModelCall::Sent { batch: texts(batch@) }));
        reply
    }

    /// Tells the caller, where there is one, how many texts there are.
    pub fn start<C: EmbedCalls>(&mut self, count: usize, hooks: Option<&EmbedHooks<C>>)
        ensures
            final(self).model() == old(self).model(),
            final(self).made() == old(self).made() + started(hooks is Some, count as nat),
    {
        if let Some(h) = hooks {
            h.calls.on_start(count);
        }
        self.made = Ghost(self.made@ + started(hooks is Some, count as nat));
    }

    /// Tells the caller, where there is one, that a batch is done.
    pub fn finish<C: EmbedCalls>(&mut self, count: usize, hooks: Option<&EmbedHooks<C>>)
        ensures
            final(self).model() == old(self).model(),
            final(self).made() == old(self).made() + finished(hooks is Some, count as nat),
    {
        if let Some(h) = hooks {
            h.calls.on_batch(count);
        }
        self.made = Ghost(self.made@ + finished(hooks is Some, count as nat));
    }
}

/// A model of which more calls were made.
pub(crate) proof fn more_calls<M: Embedder>(
    later: ModelCalls<'_, M>,
    earlier: ModelCalls<'_, M>,
    calls: Seq<ModelCall>,
)
    requires
        later.model() == earlier.model(),
        later.made() == earlier.made() + calls,
    ensures
        later.follows(earlier),
        later.since(earlier) == calls,
{
    assert(later.since(earlier) =~= calls);
}

/// Where the batch that starts at `from` ends.
pub open spec fn batch_end(total: int, batch_size: usize, from: int) -> int {
    if batch_size < total - from {
        from + batch_size
    } else {
        total
    }
}

/// Whether a batch was sent and done after the calls before it.
pub open spec fn batch_called(
    sent: Seq<Text>,
    hooked: bool,
    from: int,
    before: Seq<ModelCall>,
    to: int,
    calls: Seq<ModelCall>,
) -> bool {
    calls == before.push(ModelCall::Sent { batch: sent.subrange(from, to) }) + finished(
        hooked,
        (to - from) as nat,
    )
}

/// Whether the texts up to `to` were sent in batches, one after the other, and
/// each is done.
pub open spec fn batches_called(
    sent: Seq<Text>,
    hooked: bool,
    batch_size: usize,
    to: int,
    calls: Seq<ModelCall>,
) -> bool
    decreases to,
{
    if to <= 0 {
        calls == Seq::<ModelCall>::empty()
    } else {
        exists|from: int, before: Seq<ModelCall>|
            0 <= from < to && to == batch_end(sent.len() as int, batch_size, from)
                && batches_called(sent, hooked, batch_size, from, before) && #[trigger] batch_called(
                sent,
                hooked,
                from,
                before,
                to,
                calls,
            )
    }
}

/// Whether a run sent every text, batch by batch, after it told how many there
/// are.
pub open spec fn run_called(
    sent: Seq<Text>,
    hooked: bool,
    batch_size: usize,
    calls: Seq<ModelCall>,
) -> bool {
    let head = started(hooked, sent.len());
    &&& head.len() <= calls.len()
    &&& calls == head + calls.skip(head.len() as int)
    &&& batches_called(
        sent,
        hooked,
        batch_size,
        sent.len() as int,
        calls.skip(head.len() as int),
    )
}

/// Whether a run stopped at the batch that starts at `from`, before it was sent
/// or after.
pub open spec fn run_cut_at(
    sent: Seq<Text>,
    hooked: bool,
    batch_size: usize,
    from: int,
    last_sent: bool,
    calls: Seq<ModelCall>,
) -> bool {
    exists|before: Seq<ModelCall>| #[trigger]
        batches_called(sent, hooked, batch_size, from, before) && calls == started(
            hooked,
            sent.len(),
        ) + if last_sent {
            before.push(
                ModelCall::Sent {
                    batch: sent.subrange(from, batch_end(sent.len() as int, batch_size, from)),
                },
            )
        } else {
            before
        }
}

/// Whether a run stopped before its first batch or at one.
pub open spec fn run_cut(
    sent: Seq<Text>,
    hooked: bool,
    batch_size: usize,
    calls: Seq<ModelCall>,
) -> bool {
    ||| calls.len() == 0
    ||| exists|from: int, last_sent: bool|
        0 <= from < sent.len() && #[trigger] run_cut_at(
            sent,
            hooked,
            batch_size,
            from,
            last_sent,
            calls,
        )
}

/// Whether the model was made ready, then called so, and then let go.
pub open spec fn around(calls: Seq<ModelCall>, run: Seq<ModelCall>) -> bool {
    calls == seq![ModelCall::Load { ready: true }] + run + seq![ModelCall::Unload]
}

/// The calls that tell that the model could not be made ready.
pub open spec fn not_ready() -> Seq<ModelCall> {
    seq![ModelCall::Load { ready: false }]
}

/// How often a call is among the calls.
pub open spec fn times(calls: Seq<ModelCall>, call: ModelCall) -> nat
    decreases calls.len(),
{
    if calls.len() == 0 {
        0
    } else {
        times(calls.drop_last(), call) + if calls.last() == call {
            1nat
        } else {
            0
        }
    }
}

/// Whether a call neither makes the model ready nor lets it go.
pub open spec fn between(call: ModelCall) -> bool {
    !(call is Load) && !(call is Unload)
}

/// Whether the calls of a pass are in order: none; a model that could not be made
/// ready; or a model that was made ready first, let go last, and neither in
/// between.
pub open spec fn orderly(calls: Seq<ModelCall>) -> bool {
    ||| calls.len() == 0
    ||| calls == not_ready()
    ||| {
        &&& calls.len() >= 2
        &&& calls[0] == (ModelCall::Load { ready: true })
        &&& calls.last() == ModelCall::Unload
        &&& forall|i: int| 0 < i < calls.len() - 1 ==> between(#[trigger] calls[i])
    }
}

proof fn batches_are_between(
    sent: Seq<Text>,
    hooked: bool,
    batch_size: usize,
    to: int,
    calls: Seq<ModelCall>,
)
    requires
        batches_called(sent, hooked, batch_size, to, calls),
    ensures
        forall|i: int| 0 <= i < calls.len() ==> between(#[trigger] calls[i]),
    decreases to,
{
    if to > 0 {
        let (from, before) = choose|from: int, before: Seq<ModelCall>|
            0 <= from < to && to == batch_end(sent.len() as int, batch_size, from)
                && batches_called(sent, hooked, batch_size, from, before) && #[trigger] batch_called(
                sent,
                hooked,
                from,
                before,
                to,
                calls,
            );
        batches_are_between(sent, hooked, batch_size, from, before);
        assert forall|i: int| 0 <= i < calls.len() implies between(#[trigger] calls[i]) by {
            if i < before.len() {
                assert(calls[i] == before[i]);
            }
        }
    }
}

/// A run neither makes the model ready nor lets it go.
pub proof fn a_run_is_between(
    sent: Seq<Text>,
    hooked: bool,
    batch_size: usize,
    calls: Seq<ModelCall>,
)
    requires
        run_called(sent, hooked, batch_size, calls) || run_cut(sent, hooked, batch_size, calls),
    ensures
        forall|i: int| 0 <= i < calls.len() ==> between(#[trigger] calls[i]),
{
    let head = started(hooked, sent.len());
    if run_called(sent, hooked, batch_size, calls) {
        let rest = calls.skip(head.len() as int);
        batches_are_between(sent, hooked, batch_size, sent.len() as int, rest);
        assert forall|i: int| 0 <= i < calls.len() implies between(#[trigger] calls[i]) by {
            if i >= head.len() {
                assert(calls[i] == rest[i - head.len()]);
            } else {
                assert(calls[i] == head[i]);
            }
        }
    } else if calls.len() > 0 {
        let (from, last_sent) = choose|from: int, last_sent: bool|
            0 <= from < sent.len() && #[trigger] run_cut_at(
                sent,
                hooked,
                batch_size,
                from,
                last_sent,
                calls,
            );
        let last = ModelCall::Sent {
            batch: sent.subrange(from, batch_end(sent.len() as int, batch_size, from)),
        };
        let before = choose|before: Seq<ModelCall>| #[trigger]
            batches_called(sent, hooked, batch_size, from, before) && calls == head + if last_sent {
                before.push(last)
            } else {
                before
            };
        batches_are_between(sent, hooked, batch_size, from, before);
        assert forall|i: int| 0 <= i < calls.len() implies between(#[trigger] calls[i]) by {
            if i < head.len() {
                assert(calls[i] == head[i]);
            } else if i - head.len() < before.len() {
                assert(calls[i] == before[i - head.len()]);
            } else {
                assert(calls[i] == last);
            }
        }
    }
}

/// Calls around a run are in order.
pub proof fn around_a_run_is_orderly(calls: Seq<ModelCall>, run: Seq<ModelCall>)
    requires
        around(calls, run),
        forall|i: int| 0 <= i < run.len() ==> between(#[trigger] run[i]),
    ensures
        orderly(calls),
{
    assert forall|i: int| 0 < i < calls.len() - 1 implies between(#[trigger] calls[i]) by {
        assert(calls[i] == run[i - 1]);
    }
}

proof fn none_between(calls: Seq<ModelCall>, call: ModelCall)
    requires
        !between(call),
        forall|i: int| 0 <= i < calls.len() ==> between(#[trigger] calls[i]),
    ensures
        times(calls, call) == 0,
    decreases calls.len(),
{
    if calls.len() > 0 {
        let rest = calls.drop_last();
        assert forall|i: int| 0 <= i < rest.len() implies between(#[trigger] rest[i]) by {
            assert(rest[i] == calls[i]);
        }
        none_between(rest, call);
        assert(between(calls[calls.len() - 1]));
    }
}

proof fn times_after_first(calls: Seq<ModelCall>, call: ModelCall)
    requires
        calls.len() > 0,
    ensures
        times(calls, call) == (if calls[0] == call {
            1nat
        } else {
            0
        }) + times(calls.drop_first(), call),
    decreases calls.len(),
{
    reveal_with_fuel(times, 2);
    let rest = calls.drop_first();
    if calls.len() == 1 {
        assert(calls.drop_last().len() == 0);
    } else {
        times_after_first(calls.drop_last(), call);
        assert(calls.drop_last().drop_first() =~= rest.drop_last());
        assert(rest.last() == calls.last());
    }
}

/// A pass whose calls are in order makes the model ready at most once, whether it
/// succeeds or not, and lets it go exactly as often as it became ready.
pub proof fn an_orderly_pass_lets_go_what_it_loads(calls: Seq<ModelCall>)
    requires
        orderly(calls),
    ensures
        times(calls, ModelCall::Load { ready: true }) + times(
            calls,
            ModelCall::Load { ready: false },
        ) <= 1,
        times(calls, ModelCall::Unload) == times(calls, ModelCall::Load { ready: true }),
{
    let ready = ModelCall::Load { ready: true };
    let unready = ModelCall::Load { ready: false };
    if calls.len() == 0 {
    } else if calls == not_ready() {
        reveal_with_fuel(times, 2);
        assert(calls.drop_last().len() == 0);
    } else {
        let inner = calls.drop_first().drop_last();
        assert forall|i: int| 0 <= i < inner.len() implies between(#[trigger] inner[i]) by {
            assert(inner[i] == calls[i + 1]);
        }
        none_between(inner, ready);
        none_between(inner, unready);
        none_between(inner, ModelCall::Unload);
        times_after_first(calls, ready);
        times_after_first(calls, unready);
        times_after_first(calls, ModelCall::Unload);
        assert(calls.drop_first().last() == ModelCall::Unload);
    }
}

/// How many batches were sent.
pub open spec fn batches_sent(calls: Seq<ModelCall>) -> nat
    decreases calls.len(),
{
    if calls.len() == 0 {
        0
    } else {
        batches_sent(calls.drop_last()) + if calls.last() is Sent {
            1nat
        } else {
            0
        }
    }
}

proof fn sent_after(calls: Seq<ModelCall>, more: Seq<ModelCall>)
    ensures
        batches_sent(calls + more) == batches_sent(calls) + batches_sent(more),
    decreases more.len(),
{
    if more.len() == 0 {
        assert(calls + more =~= calls);
    } else {
        sent_after(calls, more.drop_last());
        assert((calls + more).drop_last() =~= calls + more.drop_last());
    }
}

proof fn few_are_no_batches(hooked: bool, count: nat)
    ensures
        batches_sent(started(hooked, count)) == 0,
        batches_sent(finished(hooked, count)) == 0,
{
    reveal_with_fuel(batches_sent, 2);
}

proof fn full_batches(
    sent: Seq<Text>,
    hooked: bool,
    batch_size: usize,
    to: int,
    calls: Seq<ModelCall>,
)
    requires
        batch_size > 0,
        0 <= to <= sent.len(),
        batches_called(sent, hooked, batch_size, to, calls),
    ensures
        ({
            let count = batches_sent(calls);
            ||| to == count * batch_size
            ||| count > 0 && to == sent.len() && (count - 1) * batch_size < to < count * batch_size
        }),
    decreases to,
{
    if to > 0 {
        let (from, before) = choose|from: int, before: Seq<ModelCall>|
            0 <= from < to && to == batch_end(sent.len() as int, batch_size, from)
                && batches_called(sent, hooked, batch_size, from, before) && #[trigger] batch_called(
                sent,
                hooked,
                from,
                before,
                to,
                calls,
            );
        full_batches(sent, hooked, batch_size, from, before);
        let one = before.push(ModelCall::Sent { batch: sent.subrange(from, to) });
        sent_after(one, finished(hooked, (to - from) as nat));
        few_are_no_batches(hooked, (to - from) as nat);
        assert(one.drop_last() =~= before);
        let count = batches_sent(before) as int;
        let now = batches_sent(calls) as int;
        assert(now == count + 1);
        assert(now * batch_size == count * batch_size + batch_size) by (nonlinear_arith)
            requires
                now == count + 1,
        ;
        assert((now - 1) * batch_size == count * batch_size);
    } else {
        let none = batches_sent(calls) as int;
        assert(none * batch_size == 0) by (nonlinear_arith)
            requires
                none == 0,
        ;
    }
}

/// A run that sends every text sends as few batches as hold them.
pub proof fn a_run_sends_the_fewest_batches(
    sent: Seq<Text>,
    hooked: bool,
    batch_size: usize,
    calls: Seq<ModelCall>,
)
    requires
        batch_size > 0,
        run_called(sent, hooked, batch_size, calls),
    ensures
        batches_sent(calls) == (sent.len() + batch_size - 1) / (batch_size as int),
{
    let head = started(hooked, sent.len());
    let rest = calls.skip(head.len() as int);
    full_batches(sent, hooked, batch_size, sent.len() as int, rest);
    sent_after(head, rest);
    few_are_no_batches(hooked, sent.len());
    let count = batches_sent(rest) as int;
    let size = batch_size as int;
    let all = sent.len() + size - 1;
    assert((count + 1) * size == count * size + size) by (nonlinear_arith);
    assert((count - 1) * size == count * size - size) by (nonlinear_arith);
    vstd::arithmetic::div_mod::lemma_fundamental_div_mod_converse(
        all,
        size,
        count,
        all - count * size,
    );
}

} // verus!
