//! Making node vectors with a model.

use crate::catalog::lookup;
use crate::coordinate::{fault_of, non_finite_message, validate_finite_vector};
use crate::embed::{
    model_text, push_model, EmbedCalls, EmbedError, EmbedHooks, EmbedMode, EmbedOutcome, Embedder,
    ErrorModel,
};
use crate::generation::vector_rows;
use crate::graph::{members_or_none, DirGraph};
use crate::model_calls::{
    a_run_is_between, answered, around, around_a_run_is_orderly, batch_called, batch_end,
    batches_called, finished, load_fails, loads, more_calls, not_ready, orderly, replies,
    run_called, run_cut_at, started, ModelCall, ModelCalls,
};
use crate::names::{store_name, store_name_of};
use crate::node_ingest::{
    alias_of, is_soft_alias, node_store_written, resolve_source_column, soft_alias, source_fault,
};
use crate::node_store::text_moved;
use crate::recording::EmbeddingWrite;
use crate::store::{empty_store, holds, with_hash, with_vector, EmbeddingStore, StoreModel};
use crate::text::{
    decimal, push_number, str_option, text_eq, text_option, text_option_eq, Text,
};
use crate::text_hash::{hash_of_text, text_hash};
use crate::topology::{property_in, NodeData, Topology};
use crate::value::{NodeIndex, Value, ValueModel};
use vstd::prelude::*;

verus! {

/// What a node has in a field: its id, its title, a property, or its title or
/// type under another name.
pub open spec fn field_of(node: NodeData, field: Text) -> Option<ValueModel> {
    if field == "id"@ {
        Some(node.id@)
    } else if field == "title"@ {
        Some(node.title@)
    } else if property_in(node.properties@, field) is Some {
        property_in(node.properties@, field)
    } else if field == "name"@ {
        Some(node.title@)
    } else if soft_alias(field) {
        Some(ValueModel::String(node.node_type@))
    } else {
        None
    }
}

/// A node's text in a field: a text that is not empty.
pub open spec fn node_text(node: NodeData, field: Text) -> Option<Text> {
    match field_of(node, field) {
        Some(ValueModel::String(text)) => if text.len() > 0 {
            Some(text)
        } else {
            None
        },
        _ => None,
    }
}

fn text_value(value: &Value) -> (text: Option<&str>)
    ensures
        str_option(text) == match value@ {
            ValueModel::String(text) => if text.len() > 0 {
                Some(text)
            } else {
                None
            },
            _ => None,
        },
{
    match value {
        Value::String(text) => if text.as_str().is_empty() {
            None
        } else {
            Some(text.as_str())
        },
        _ => None,
    }
}

fn read_text<'a>(node: &'a NodeData, field: &str) -> (text: Option<&'a str>)
    ensures
        str_option(text) == node_text(*node, field@),
{
    if text_eq(field, "id") {
        return text_value(&node.id);
    }
    if text_eq(field, "title") {
        return text_value(&node.title);
    }
    if let Some(value) = node.get_property(field) {
        return text_value(value);
    }
    if text_eq(field, "name") {
        return text_value(&node.title);
    }
    if is_soft_alias(field) {
        if node.node_type.as_str().is_empty() {
            return None;
        }
        return Some(node.node_type.as_str());
    }
    None
}

/// A text to embed: its node, the text, and the text's hash.
pub type NodeText = (usize, String, u64);

/// What texts to embed say.
pub open spec fn node_texts(texts: Seq<NodeText>) -> Seq<(usize, Text, u64)> {
    Seq::new(texts.len(), |i: int| (texts[i].0, texts[i].1@, texts[i].2))
}

/// What a pass decided about the nodes of a type before the model is asked.
#[derive(Debug, Clone)]
pub struct EmbedCandidates {
    /// The texts to embed.
    pub texts: Vec<NodeText>,
    /// Nodes without a text.
    pub skipped: usize,
    /// Nodes whose vector is current.
    pub skipped_existing: usize,
    /// Nodes with a vector whose text changed.
    pub reembedded_changed: usize,
}

/// What a pass decided.
#[verifier::ext_equal]
pub struct CandidatesModel {
    pub texts: Seq<(usize, Text, u64)>,
    pub skipped: nat,
    pub skipped_existing: nat,
    pub reembedded: nat,
}

impl View for EmbedCandidates {
    type V = CandidatesModel;

    open spec fn view(&self) -> CandidatesModel {
        CandidatesModel {
            texts: node_texts(self.texts@),
            skipped: self.skipped as nat,
            skipped_existing: self.skipped_existing as nat,
            reembedded: self.reembedded_changed as nat,
        }
    }
}

/// The outcome that a pass reports.
pub open spec fn outcome_says(
    outcome: EmbedOutcome,
    found: CandidatesModel,
    embedded: nat,
    dimension: usize,
) -> bool {
    &&& outcome.embedded == embedded
    &&& outcome.skipped == found.skipped
    &&& outcome.skipped_existing == found.skipped_existing
    &&& outcome.reembedded_changed == found.reembedded
    &&& outcome.dimension == dimension
}

impl EmbedCandidates {
    fn outcome(&self, embedded: usize, dimension: usize) -> (outcome: EmbedOutcome)
        ensures
            outcome_says(outcome, self@, embedded as nat, dimension),
    {
        EmbedOutcome {
            embedded,
            skipped: self.skipped,
            skipped_existing: self.skipped_existing,
            reembedded_changed: self.reembedded_changed,
            dimension,
        }
    }
}

/// Whether a node's text goes to the model.
pub open spec fn node_takes(
    existing: Option<StoreModel>,
    node: usize,
    hash: u64,
    mode: EmbedMode,
) -> bool {
    match mode {
        EmbedMode::All => true,
        EmbedMode::Missing => existing is None || !holds(existing->0, node),
        EmbedMode::Changed => existing is None || text_moved(existing->0, node, hash),
    }
}

/// What is decided with one more node.
pub open spec fn candidates_step(
    found: CandidatesModel,
    topology: Topology,
    field: Text,
    existing: Option<StoreModel>,
    mode: EmbedMode,
    node: NodeIndex,
) -> CandidatesModel {
    if !topology.node_lives(node) {
        found
    } else {
        match node_text(topology.node(node), field) {
            None => CandidatesModel { skipped: found.skipped + 1, ..found },
            Some(text) => {
                let hash = hash_of_text(text);
                if node_takes(existing, node.slot, hash, mode) {
                    CandidatesModel {
                        texts: found.texts.push((node.slot, text, hash)),
                        reembedded: found.reembedded + if mode == EmbedMode::Changed
                            && existing is Some && holds(existing->0, node.slot) {
                            1nat
                        } else {
                            0nat
                        },
                        ..found
                    }
                } else {
                    CandidatesModel { skipped_existing: found.skipped_existing + 1, ..found }
                }
            },
        }
    }
}

/// Nothing decided yet.
pub open spec fn no_candidates() -> CandidatesModel {
    CandidatesModel { texts: Seq::empty(), skipped: 0, skipped_existing: 0, reembedded: 0 }
}

/// What is decided about the first `count` nodes.
pub open spec fn candidates_of(
    topology: Topology,
    members: Seq<NodeIndex>,
    field: Text,
    existing: Option<StoreModel>,
    mode: EmbedMode,
    count: nat,
) -> CandidatesModel
    decreases count,
{
    if count == 0 {
        no_candidates()
    } else {
        candidates_step(
            candidates_of(topology, members, field, existing, mode, (count - 1) as nat),
            topology,
            field,
            existing,
            mode,
            members[count - 1],
        )
    }
}

/// The nodes among the first `count` that live.
pub open spec fn living(topology: Topology, members: Seq<NodeIndex>, count: nat) -> nat
    decreases count,
{
    if count == 0 {
        0
    } else {
        living(topology, members, (count - 1) as nat) + if topology.node_lives(
            members[count - 1],
        ) {
            1nat
        } else {
            0nat
        }
    }
}

/// The counters are disjoint: what is embedded, what has no text and what is
/// current is every node that lives, and what is re-embedded is embedded.
pub proof fn every_node_is_counted_once(
    topology: Topology,
    members: Seq<NodeIndex>,
    field: Text,
    existing: Option<StoreModel>,
    mode: EmbedMode,
    count: nat,
)
    requires
        count <= members.len(),
    ensures
        ({
            let found = candidates_of(topology, members, field, existing, mode, count);
            &&& found.texts.len() + found.skipped + found.skipped_existing == living(
                topology,
                members,
                count,
            )
            &&& found.reembedded <= found.texts.len()
            &&& living(topology, members, count) <= count
        }),
    decreases count,
{
    if count > 0 {
        every_node_is_counted_once(
            topology,
            members,
            field,
            existing,
            mode,
            (count - 1) as nat,
        );
    }
}

fn collect_embed_candidates(
    graph: &DirGraph,
    members: &Vec<NodeIndex>,
    source_field: &str,
    existing: Option<&EmbeddingStore>,
    mode: EmbedMode,
) -> (found: EmbedCandidates)
    requires
        existing is Some ==> existing->0.well_formed(),
    ensures
        found@ == candidates_of(
            graph.topology,
            members@,
            source_field@,
            store_model(existing),
            mode,
            members@.len(),
        ),
{
    let ghost store = store_model(existing);
    let mut found = EmbedCandidates {
        texts: Vec::new(),
        skipped: 0,
        skipped_existing: 0,
        reembedded_changed: 0,
    };
    assert(found@ =~= no_candidates());
    let mut i: usize = 0;
    while i < members.len()
        invariant
            i <= members@.len(),
            store == store_model(existing),
            existing is Some ==> existing->0.well_formed(),
            found@ == candidates_of(
                graph.topology,
                members@,
                source_field@,
                store,
                mode,
                i as nat,
            ),
        decreases members@.len() - i,
    {
        let node = members[i];
        let ghost before = found@;
        let ghost listed = found.texts@;
        proof {
            every_node_is_counted_once(
                graph.topology,
                members@,
                source_field@,
                store,
                mode,
                i as nat,
            );
        }
        if let Some(data) = graph.topology.node_view(node) {
            match read_text(data, source_field) {
                None => {
                    found.skipped = found.skipped + 1;
                },
                Some(text) => {
                    let hash: u64 = text_hash(text);
                    let has_vector = match existing {
                        Some(held) => held.contains(node.slot),
                        None => false,
                    };
                    let take = match mode {
                        EmbedMode::All => true,
                        EmbedMode::Missing => !has_vector,
                        EmbedMode::Changed => match existing {
                            Some(held) => !has_vector || match held.text_hash(node.slot) {
                                Some(made_from) => made_from != hash,
                                None => true,
                            },
                            None => true,
                        },
                    };
                    assert(take == node_takes(store, node.slot, hash, mode));
                    if take {
                        if has_vector && mode == EmbedMode::Changed {
                            found.reembedded_changed = found.reembedded_changed + 1;
                        }
                        let one = (node.slot, text.to_owned(), hash);
                        found.texts.push(one);
                        assert(node_texts(found.texts@) =~= node_texts(listed).push(
                            (one.0, one.1@, one.2),
                        ));
                    } else {
                        found.skipped_existing = found.skipped_existing + 1;
                    }
                },
            }
        }
        assert(found@ =~= candidates_step(
            before,
            graph.topology,
            source_field@,
            store,
            mode,
            node,
        ));
        i = i + 1;
    }
    found
}

/// A store that may be there.
pub open spec fn store_model(existing: Option<&EmbeddingStore>) -> Option<StoreModel> {
    match existing {
        Some(store) => Some(store@),
        None => None,
    }
}

/// The store a pass reads and keeps: none where it rebuilds.
pub open spec fn kept_store(graph: DirGraph, node_type: Text, text_column: Text, mode: EmbedMode) -> Option<
    StoreModel,
> {
    if mode == EmbedMode::All {
        None
    } else {
        lookup(graph.embeddings@, node_type, store_name_of(text_column))
    }
}

/// The field a pass reads. A type without nodes has no field to find, so the
/// column is taken as it is.
pub open spec fn read_field(graph: DirGraph, node_type: Text, text_column: Text) -> Text {
    if members_or_none(graph.node_types@, node_type).len() == 0 {
        text_column
    } else {
        alias_of(graph, node_type, text_column)
    }
}

/// Why a pass is refused before the model is loaded.
pub open spec fn property_fault(
    graph: DirGraph,
    node_type: Text,
    text_column: Text,
    mode: EmbedMode,
    model_id: Option<Text>,
) -> Option<ErrorModel> {
    let existing = kept_store(graph, node_type, text_column, mode);
    if members_or_none(graph.node_types@, node_type).len() > 0 && source_fault(
        graph,
        node_type,
        text_column,
    ) is Some {
        Some(ErrorModel::Column(source_fault(graph, node_type, text_column)->0))
    } else if existing is Some && existing->0.model_id is Some && model_id
        != existing->0.model_id {
        Some(
            ErrorModel::Output(
                "the existing embedding store was generated by model '"@
                    + existing->0.model_id->0 + "', but the current model is "@ + model_text(
                    model_id,
                ) + "; use mode='all' to rebuild the store"@,
            ),
        )
    } else {
        None
    }
}

/// What a pass decides about a type.
pub open spec fn property_candidates(
    graph: DirGraph,
    node_type: Text,
    text_column: Text,
    mode: EmbedMode,
) -> CandidatesModel {
    let members = members_or_none(graph.node_types@, node_type);
    candidates_of(
        graph.topology,
        members,
        read_field(graph, node_type, text_column),
        kept_store(graph, node_type, text_column, mode),
        mode,
        members.len(),
    )
}

/// Checks a column and a model, and decides which texts go to the model.
pub fn find_candidates(
    graph: &DirGraph,
    node_type: &str,
    text_column: &str,
    mode: EmbedMode,
    model_id: Option<&str>,
) -> (result: Result<EmbedCandidates, EmbedError>)
    requires
        graph.well_formed(),
    ensures
        match result {
            Ok(found) => {
                &&& property_fault(
                    *graph,
                    node_type@,
                    text_column@,
                    mode,
                    str_option(model_id),
                ) is None
                &&& found@ == property_candidates(*graph, node_type@, text_column@, mode)
            },
            Err(error) => property_fault(
                *graph,
                node_type@,
                text_column@,
                mode,
                str_option(model_id),
            ) == Some(error@),
        },
{
    let nobody: Vec<NodeIndex> = Vec::new();
    let members = match graph.type_members(node_type) {
        Some(members) => members,
        None => &nobody,
    };
    assert(members@ =~= members_or_none(graph.node_types@, node_type@));
    let field: &str = if members.len() == 0 {
        text_column
    } else {
        match resolve_source_column(graph, node_type, text_column) {
            Ok(field) => field,
            Err(message) => {
                return Err(EmbedError::Column(message));
            },
        }
    };
    let name = store_name(text_column);
    let existing: Option<&EmbeddingStore> = if mode == EmbedMode::All {
        None
    } else {
        graph.embeddings.get(node_type, name.as_str())
    };
    assert(store_model(existing) == kept_store(*graph, node_type@, text_column@, mode));
    if let Some(store) = existing {
        if let Some(made_by) = &store.model_id {
            if !text_option_eq(model_id, Some(made_by.as_str())) {
                let mut message =
                    "the existing embedding store was generated by model '".to_owned();
                message.append(made_by.as_str());
                message.append("', but the current model is ");
                push_model(&mut message, model_id);
                message.append("; use mode='all' to rebuild the store");
                return Err(EmbedError::Output(message));
            }
        }
    }
    Ok(collect_embed_candidates(graph, members, field, existing, mode))
}

/// The first vector of a reply, from `position`, that cannot be used.
pub open spec fn vectors_unusable(dimension: usize, vectors: Seq<Seq<u32>>, position: int) -> Option<
    Text,
>
    decreases vectors.len() - position,
{
    if position < 0 || position >= vectors.len() {
        None
    } else if vectors[position].len() != dimension {
        Some(
            "the model returned a vector of dimension "@ + decimal(vectors[position].len())
                + " (expected "@ + decimal(dimension as nat) + ")"@,
        )
    } else if fault_of(vectors[position]) is Some {
        Some(
            "the model returned an invalid vector: "@ + non_finite_message(
                fault_of(vectors[position])->0,
            ),
        )
    } else {
        vectors_unusable(dimension, vectors, position + 1)
    }
}

/// Why a reply to `count` texts cannot be used.
pub open spec fn reply_unusable(count: nat, dimension: usize, vectors: Seq<Seq<u32>>) -> Option<Text> {
    if vectors.len() != count {
        Some(
            "the model returned "@ + decimal(vectors.len()) + " vectors for "@ + decimal(count)
                + " texts"@,
        )
    } else {
        vectors_unusable(dimension, vectors, 0)
    }
}

/// Checks a reply of the model to `count` texts.
pub fn check_reply(count: usize, dimension: usize, vectors: &Vec<Vec<u32>>) -> (result: Result<
    (),
    EmbedError,
>)
    ensures
        match result {
            Ok(_) => reply_unusable(count as nat, dimension, vector_rows(vectors@)) is None,
            Err(error) => error@ is Output && reply_unusable(
                count as nat,
                dimension,
                vector_rows(vectors@),
            ) == Some(error@->Output_0),
        },
{
    let ghost rows = vector_rows(vectors@);
    if vectors.len() != count {
        let mut message = "the model returned ".to_owned();
        push_number(&mut message, vectors.len());
        message.append(" vectors for ");
        push_number(&mut message, count);
        message.append(" texts");
        return Err(EmbedError::Output(message));
    }
    let mut i: usize = 0;
    while i < vectors.len()
        invariant
            i <= vectors@.len(),
            vectors@.len() == count,
            rows == vector_rows(vectors@),
            vectors_unusable(dimension, rows, 0) == vectors_unusable(dimension, rows, i as int),
        decreases vectors@.len() - i,
    {
        let vector = &vectors[i];
        assert(rows[i as int] == vector@);
        if vector.len() != dimension {
            let mut message = "the model returned a vector of dimension ".to_owned();
            push_number(&mut message, vector.len());
            message.append(" (expected ");
            push_number(&mut message, dimension);
            message.append(")");
            return Err(EmbedError::Output(message));
        }
        if let Err(error) = validate_finite_vector(vector.as_slice()) {
            let mut message = "the model returned an invalid vector: ".to_owned();
            message.append(error.message().as_str());
            return Err(EmbedError::Output(message));
        }
        i = i + 1;
    }
    Ok(())
}

proof fn usable_at(dimension: usize, vectors: Seq<Seq<u32>>, position: int, at: int)
    requires
        0 <= position <= at < vectors.len(),
        vectors_unusable(dimension, vectors, position) is None,
    ensures
        vectors[at].len() == dimension,
        fault_of(vectors[at]) is None,
    decreases at - position,
{
    if position < at {
        usable_at(dimension, vectors, position + 1, at);
    }
}

/// The store with the vectors of the first `count` texts, each with the hash of
/// its text.
pub open spec fn embedded_into(
    store: StoreModel,
    texts: Seq<(usize, Text, u64)>,
    vectors: Seq<Seq<u32>>,
    count: nat,
) -> StoreModel
    decreases count,
{
    if count == 0 {
        store
    } else {
        with_hash(
            with_vector(
                embedded_into(store, texts, vectors, (count - 1) as nat),
                texts[count - 1].0,
                vectors[count - 1],
            ),
            texts[count - 1].0,
            Some(texts[count - 1].2),
        )
    }
}

/// Vectors that fit: one for each text, all of a dimension and finite.
pub open spec fn vectors_fit(vectors: Seq<Seq<u32>>, count: nat, dimension: usize) -> bool {
    &&& vectors.len() == count
    &&& forall|i: int|
        0 <= i < count ==> (#[trigger] vectors[i]).len() == dimension && fault_of(vectors[i])
            is None
}

fn text_batch(texts: &Vec<NodeText>, from: usize, count: usize) -> (batch: Vec<String>)
    requires
        from + count <= texts@.len(),
    ensures
        batch@.len() == count,
        forall|i: int| 0 <= i < count ==> (#[trigger] batch@[i])@ == texts@[from + i].1@,
{
    let mut batch: Vec<String> = Vec::new();
    let mut i: usize = 0;
    while i < count
        invariant
            i <= count,
            from + count <= texts@.len(),
            batch@.len() == i,
            forall|k: int| 0 <= k < i ==> (#[trigger] batch@[k])@ == texts@[from + k].1@,
        decreases count - i,
    {
        assert(from + i < texts.len());
        batch.push(texts[from + i].1.as_str().to_owned());
        i = i + 1;
    }
    batch
}

/// The texts from `from` to `to`.
pub open spec fn texts_sent(texts: Seq<(usize, Text, u64)>, from: int, to: int) -> Seq<Text> {
    Seq::new((to - from) as nat, |i: int| texts[from + i].1)
}

/// All the texts.
pub open spec fn all_sent(texts: Seq<(usize, Text, u64)>) -> Seq<Text> {
    texts_sent(texts, 0, texts.len() as int)
}

/// The texts in one call: one at least.
pub open spec fn texts_at_once<C: EmbedCalls>(hooks: &EmbedHooks<C>) -> usize {
    if hooks.batch_size == 0 {
        1
    } else {
        hooks.batch_size
    }
}

/// Whether the batch from `from` to `to` is answered with vectors that can be
/// used, and they are added to those that came before.
pub open spec fn node_batch_taken<M: Embedder, C: EmbedCalls>(
    model: &M,
    hooks: &EmbedHooks<C>,
    texts: Seq<(usize, Text, u64)>,
    dimension: usize,
    from: int,
    before: Seq<Seq<u32>>,
    to: int,
    vectors: Seq<Seq<u32>>,
) -> bool {
    exists|reply: Vec<Vec<u32>>| #[trigger]
        answered(
            model,
            Some(hooks),
            texts_sent(texts, from, to),
            Ok::<Vec<Vec<u32>>, String>(reply),
        ) && reply_unusable((to - from) as nat, dimension, vector_rows(reply@)) is None && vectors
            == before + vector_rows(reply@)
}

/// Whether the texts up to `to` are sent in batches, and each is answered with
/// vectors that can be used.
pub open spec fn node_batches_taken<M: Embedder, C: EmbedCalls>(
    model: &M,
    hooks: &EmbedHooks<C>,
    texts: Seq<(usize, Text, u64)>,
    dimension: usize,
    to: int,
    vectors: Seq<Seq<u32>>,
) -> bool
    decreases to,
{
    if to <= 0 {
        vectors == Seq::<Seq<u32>>::empty()
    } else {
        exists|from: int, before: Seq<Seq<u32>>|
            0 <= from < to && to == batch_end(texts.len() as int, texts_at_once(hooks), from)
                && node_batches_taken(model, hooks, texts, dimension, from, before)
                && #[trigger] node_batch_taken(
                model,
                hooks,
                texts,
                dimension,
                from,
                before,
                to,
                vectors,
            )
    }
}

/// Whether the batch that starts at `from` can fail with an error: the model's
/// own, or that what it answers cannot be used.
pub open spec fn node_batch_refused<M: Embedder, C: EmbedCalls>(
    model: &M,
    hooks: &EmbedHooks<C>,
    texts: Seq<(usize, Text, u64)>,
    dimension: usize,
    from: int,
    error: ErrorModel,
) -> bool {
    let to = batch_end(texts.len() as int, texts_at_once(hooks), from);
    exists|reply: Result<Vec<Vec<u32>>, String>| #[trigger]
        answered(model, Some(hooks), texts_sent(texts, from, to), reply) && match reply {
            Ok(vectors) => match reply_unusable(
                (to - from) as nat,
                dimension,
                vector_rows(vectors@),
            ) {
                Some(fault) => error == ErrorModel::Output(fault),
                None => false,
            },
            Err(message) => error == ErrorModel::Model(message@),
        }
}

/// Whether a batch fails after those before it were taken.
pub open spec fn node_run_broken<M: Embedder, C: EmbedCalls>(
    model: &M,
    hooks: &EmbedHooks<C>,
    texts: Seq<(usize, Text, u64)>,
    dimension: usize,
    from: int,
    before: Seq<Seq<u32>>,
    calls: Seq<ModelCall>,
    error: ErrorModel,
) -> bool {
    &&& 0 <= from < texts.len()
    &&& run_cut_at(all_sent(texts), true, texts_at_once(hooks), from, true, calls)
    &&& node_batches_taken(model, hooks, texts, dimension, from, before)
    &&& node_batch_refused(model, hooks, texts, dimension, from, error)
}

/// Whether some batch can fail with an error.
pub open spec fn node_run_fails<M: Embedder, C: EmbedCalls>(
    model: &M,
    hooks: &EmbedHooks<C>,
    texts: Seq<(usize, Text, u64)>,
    dimension: usize,
    calls: Seq<ModelCall>,
    error: ErrorModel,
) -> bool {
    exists|from: int, before: Seq<Seq<u32>>| #[trigger]
        node_run_broken(model, hooks, texts, dimension, from, before, calls, error)
}

fn embed_batches<M: Embedder, C: EmbedCalls>(
    pending: &Vec<NodeText>,
    model: &mut ModelCalls<'_, M>,
    dimension: usize,
    hooks: &EmbedHooks<C>,
) -> (result: Result<Vec<Vec<u32>>, EmbedError>)
    ensures
        final(model).follows(*old(model)),
        match result {
            Ok(vectors) => {
                &&& run_called(
                    all_sent(node_texts(pending@)),
                    true,
                    texts_at_once(hooks),
                    final(model).since(*old(model)),
                )
                &&& vectors_fit(vector_rows(vectors@), pending@.len(), dimension)
                &&& node_batches_taken(
                    old(model).model(),
                    hooks,
                    node_texts(pending@),
                    dimension,
                    pending@.len() as int,
                    vector_rows(vectors@),
                )
            },
            Err(error) => node_run_fails(
                old(model).model(),
                hooks,
                node_texts(pending@),
                dimension,
                final(model).since(*old(model)),
                error@,
            ),
        },
{
    let batch_size: usize = if hooks.batch_size == 0 {
        1
    } else {
        hooks.batch_size
    };
    let ghost first = *model;
    let ghost m = model.model();
    let ghost texts = node_texts(pending@);
    let ghost sent = all_sent(texts);
    let ghost opening = started(true, sent.len());
    let ghost mut done: Seq<ModelCall> = Seq::empty();
    model.start(pending.len(), Some(hooks));
    let mut all: Vec<Vec<u32>> = Vec::new();
    assert(vector_rows(all@) =~= Seq::<Seq<u32>>::empty());
    let mut from: usize = 0;
    while from < pending.len()
        invariant
            from <= pending@.len(),
            batch_size > 0,
            batch_size == texts_at_once(hooks),
            texts == node_texts(pending@),
            sent == all_sent(texts),
            opening == started(true, sent.len()),
            first == *old(model),
            first.model() == m,
            model.model() == m,
            model.made() == first.made() + (opening + done),
            batches_called(sent, true, batch_size, from as int, done),
            vectors_fit(vector_rows(all@), from as nat, dimension),
            node_batches_taken(
                m,
                hooks,
                texts,
                dimension,
                from as int,
                vector_rows(all@),
            ),
        decreases pending@.len() - from,
    {
        let left: usize = pending.len() - from;
        let count: usize = if batch_size < left {
            batch_size
        } else {
            left
        };
        let batch = text_batch(pending, from, count);
        let reply = model.send(&batch, Some(hooks));
        let ghost to = batch_end(texts.len() as int, batch_size, from as int);
        let ghost earlier = vector_rows(all@);
        proof {
            assert(to == from + count);
            assert(crate::text::texts(batch@) =~= texts_sent(texts, from as int, to));
            assert(replies(m, Some(hooks), batch, reply));
            assert(answered(m, Some(hooks), texts_sent(texts, from as int, to), reply));
            let batch_sent = ModelCall::Sent { batch: sent.subrange(from as int, to) };
            assert(sent.subrange(from as int, to) =~= texts_sent(texts, from as int, to));
            assert(model.made() =~= first.made() + (opening + done.push(batch_sent)));
            more_calls(*model, first, opening + done.push(batch_sent));
            assert(run_cut_at(
                sent,
                true,
                batch_size,
                from as int,
                true,
                opening + done.push(batch_sent),
            ));
        }
        let mut vectors = match reply {
            Ok(vectors) => vectors,
            Err(message) => {
                proof {
                    let error = ErrorModel::Model(message@);
                    assert(node_batch_refused(
                        m,
                        hooks,
                        texts,
                        dimension,
                        from as int,
                        error,
                    ));
                    assert(node_run_broken(
                        m,
                        hooks,
                        texts,
                        dimension,
                        from as int,
                        earlier,
                        model.since(first),
                        error,
                    ));
                }
                return Err(EmbedError::Model(message));
            },
        };
        if let Err(error) = check_reply(count, dimension, &vectors) {
            proof {
                assert(node_batch_refused(
                    m,
                    hooks,
                    texts,
                    dimension,
                    from as int,
                    error@,
                ));
                assert(node_run_broken(
                    m,
                    hooks,
                    texts,
                    dimension,
                    from as int,
                    earlier,
                    model.since(first),
                    error@,
                ));
            }
            return Err(error);
        }
        let ghost rows = vector_rows(vectors@);
        all.append(&mut vectors);
        proof {
            let now = vector_rows(all@);
            assert(now =~= earlier + rows);
            assert forall|i: int| 0 <= i < from + count implies (#[trigger] now[i]).len()
                == dimension && fault_of(now[i]) is None by {
                if i < from {
                    assert(now[i] == earlier[i]);
                } else {
                    usable_at(dimension, rows, 0, i - from);
                    assert(now[i] == rows[i - from]);
                }
            }
            assert(node_batch_taken(
                m,
                hooks,
                texts,
                dimension,
                from as int,
                earlier,
                to,
                now,
            ));
            assert(node_batches_taken(m, hooks, texts, dimension, to, now));
        }
        model.finish(count, Some(hooks));
        proof {
            let now = done.push(ModelCall::Sent { batch: sent.subrange(from as int, to) })
                + finished(true, (to - from) as nat);
            assert(batch_called(sent, true, from as int, done, to, now));
            assert(batches_called(sent, true, batch_size, to, now));
            assert(model.made() =~= first.made() + (opening + now));
            done = now;
        }
        from = from + count;
    }
    proof {
        let calls = opening + done;
        assert(model.made() =~= first.made() + (calls));
        more_calls(*model, first, calls);
        assert(calls.skip(opening.len() as int) =~= done);
        assert(run_called(sent, true, batch_size, calls));
    }
    Ok(all)
}

/// What a pass over a type did with the vectors the model gave.
pub open spec fn property_embedded(
    before: DirGraph,
    after: DirGraph,
    node_type: Text,
    text_column: Text,
    mode: EmbedMode,
    model_id: Option<Text>,
    dimension: usize,
    vectors: Seq<Seq<u32>>,
) -> bool {
    let existing = kept_store(before, node_type, text_column, mode);
    let found = property_candidates(before, node_type, text_column, mode);
    let base = match existing {
        Some(store) => store,
        None => empty_store(dimension, None),
    };
    let made = embedded_into(base, found.texts, vectors, found.texts.len());
    let store = StoreModel {
        model_id: if existing is None {
            model_id
        } else {
            made.model_id
        },
        ..made
    };
    &&& existing is Some ==> existing->0.dimension == dimension
    &&& vectors_fit(vectors, found.texts.len(), dimension)
    &&& node_store_written(
        before,
        after,
        node_type,
        text_column,
        store,
        EmbeddingWrite::Replace,
        store.nodes,
    )
}

/// Why a store cannot take vectors of a dimension: it is there, and it has
/// another one.
pub open spec fn dimension_fault(existing: Option<StoreModel>, dimension: usize) -> Option<
    ErrorModel,
> {
    if existing is Some && existing->0.dimension != dimension {
        Some(ErrorModel::Dimension { store: existing->0.dimension, model: dimension })
    } else {
        None
    }
}

/// What writing vectors of a dimension for the texts of a type comes to.
pub open spec fn property_finished(
    before: DirGraph,
    after: DirGraph,
    node_type: Text,
    text_column: Text,
    mode: EmbedMode,
    model_id: Option<Text>,
    dimension: usize,
    vectors: Seq<Seq<u32>>,
    result: Result<EmbedOutcome, ErrorModel>,
) -> bool {
    let found = property_candidates(before, node_type, text_column, mode);
    let clash = dimension_fault(kept_store(before, node_type, text_column, mode), dimension);
    let unusable = reply_unusable(found.texts.len(), dimension, vectors);
    if clash is Some {
        after == before && result == Err::<EmbedOutcome, ErrorModel>(clash->0)
    } else if unusable is Some {
        after == before && result == Err::<EmbedOutcome, ErrorModel>(
            ErrorModel::Output(unusable->0),
        )
    } else {
        &&& result matches Ok(outcome) && outcome_says(
            outcome,
            found,
            found.texts.len(),
            dimension,
        )
        &&& if found.texts.len() == 0 {
            after == before
        } else {
            property_embedded(
                before,
                after,
                node_type,
                text_column,
                mode,
                model_id,
                dimension,
                vectors,
            )
        }
    }
}

proof fn fitting_is_usable(vectors: Seq<Seq<u32>>, dimension: usize, position: int)
    requires
        0 <= position <= vectors.len(),
        vectors_fit(vectors, vectors.len(), dimension),
    ensures
        vectors_unusable(dimension, vectors, position) is None,
    decreases vectors.len() - position,
{
    if position < vectors.len() {
        assert(vectors[position].len() == dimension);
        fitting_is_usable(vectors, dimension, position + 1);
    }
}

/// Writes the vectors that a model of a name and a dimension made for the texts
/// of a type, each with the hash of its text. A store of another dimension that
/// is to be kept refuses them, and so does a vector that cannot be used.
pub fn finish_property(
    graph: &mut DirGraph,
    node_type: &str,
    text_column: &str,
    mode: EmbedMode,
    found: &EmbedCandidates,
    model_id: Option<&str>,
    dimension: usize,
    vectors: &Vec<Vec<u32>>,
) -> (result: Result<EmbedOutcome, EmbedError>)
    requires
        old(graph).well_formed(),
        found@ == property_candidates(*old(graph), node_type@, text_column@, mode),
    ensures
        final(graph).well_formed(),
        property_finished(
            *old(graph),
            *final(graph),
            node_type@,
            text_column@,
            mode,
            str_option(model_id),
            dimension,
            vector_rows(vectors@),
            outcome_said(result),
        ),
{
    let name = store_name(text_column);
    let ghost existing = kept_store(*graph, node_type@, text_column@, mode);
    let ghost rows = vector_rows(vectors@);
    let ghost texts = found@.texts;
    assert(texts.len() == found.texts@.len());
    let held: Option<&EmbeddingStore> = if mode == EmbedMode::All {
        None
    } else {
        graph.embeddings.get(node_type, name.as_str())
    };
    assert(store_model(held) == existing);
    if let Some(kept) = held {
        if kept.dimension != dimension {
            return Err(EmbedError::Dimension { store: kept.dimension, model: dimension });
        }
    }
    if let Err(error) = check_reply(found.texts.len(), dimension, vectors) {
        return Err(error);
    }
    if found.texts.len() == 0 {
        return Ok(found.outcome(0, dimension));
    }
    let fresh = held.is_none();
    let mut store = match held {
        Some(kept) => kept.duplicate(),
        None => EmbeddingStore::new(dimension),
    };
    let ghost base = store@;
    let mut i: usize = 0;
    while i < found.texts.len()
        invariant
            i <= found.texts@.len(),
            texts == node_texts(found.texts@),
            vectors@.len() == found.texts@.len(),
            rows == vector_rows(vectors@),
            vectors_unusable(dimension, rows, 0) is None,
            store.well_formed(),
            store@.dimension == dimension,
            store@ == embedded_into(base, texts, rows, i as nat),
        decreases found.texts@.len() - i,
    {
        let node: usize = found.texts[i].0;
        let hash: u64 = found.texts[i].2;
        let ghost earlier = store@;
        proof {
            assert(texts[i as int] == (node, found.texts@[i as int].1@, hash));
            assert(rows[i as int] == vectors@[i as int]@);
            usable_at(dimension, rows, 0, i as int);
            store.is_coherent();
        }
        store.set_embedding(node, vectors[i].as_slice());
        proof {
            crate::store::a_written_vector_reads_back(earlier, node, vectors@[i as int]@);
        }
        store.set_text_hash(node, hash);
        i = i + 1;
    }
    proof {
        assert forall|k: int| 0 <= k < rows.len() implies (#[trigger] rows[k]).len() == dimension
            && fault_of(rows[k]) is None by {
            usable_at(dimension, rows, 0, k);
        }
        assert(vectors_fit(rows, texts.len(), dimension));
    }
    if fresh {
        store.model_id = match model_id {
            Some(name) => Some(name.to_owned()),
            None => None,
        };
    }
    graph.set_embedding_store(node_type, text_column, store);
    graph.bump_version();
    Ok(found.outcome(found.texts.len(), dimension))
}

/// What a pass over a type comes to, once the model is loaded and has declared a
/// dimension, and what is called until it is let go.
pub open spec fn property_run<M: Embedder, C: EmbedCalls>(
    before: DirGraph,
    after: DirGraph,
    node_type: Text,
    text_column: Text,
    mode: EmbedMode,
    model: &M,
    hooks: &EmbedHooks<C>,
    model_id: Option<Text>,
    dimension: usize,
    calls: Seq<ModelCall>,
    result: Result<EmbedOutcome, ErrorModel>,
) -> bool {
    let found = property_candidates(before, node_type, text_column, mode);
    let clash = dimension_fault(kept_store(before, node_type, text_column, mode), dimension);
    &&& call_ensures(M::dimension, (model,), dimension)
    &&& if clash is Some {
        calls.len() == 0 && after == before && result == Err::<EmbedOutcome, ErrorModel>(clash->0)
    } else if found.texts.len() == 0 {
        &&& calls.len() == 0
        &&& after == before
        &&& result matches Ok(outcome) && outcome_says(outcome, found, 0, dimension)
    } else {
        match result {
            Err(error) => after == before && node_run_fails(
                model,
                hooks,
                found.texts,
                dimension,
                calls,
                error,
            ),
            Ok(outcome) => {
                &&& run_called(all_sent(found.texts), true, texts_at_once(hooks), calls)
                &&& outcome_says(outcome, found, found.texts.len(), dimension)
                &&& property_made(
                    before,
                    after,
                    node_type,
                    text_column,
                    mode,
                    model,
                    hooks,
                    model_id,
                    dimension,
                )
            },
        }
    }
}

/// Whether a pass over a type wrote the vectors that the model answers with.
pub open spec fn property_made<M: Embedder, C: EmbedCalls>(
    before: DirGraph,
    after: DirGraph,
    node_type: Text,
    text_column: Text,
    mode: EmbedMode,
    model: &M,
    hooks: &EmbedHooks<C>,
    model_id: Option<Text>,
    dimension: usize,
) -> bool {
    let texts = property_candidates(before, node_type, text_column, mode).texts;
    exists|vectors: Seq<Seq<u32>>| #[trigger]
        property_embedded(
            before,
            after,
            node_type,
            text_column,
            mode,
            model_id,
            dimension,
            vectors,
        ) && node_batches_taken(model, hooks, texts, dimension, texts.len() as int, vectors)
}

/// Whether the model is made ready, the pass comes to this for some dimension that
/// it declares, and the model is let go.
pub open spec fn property_runs<M: Embedder, C: EmbedCalls>(
    before: DirGraph,
    after: DirGraph,
    node_type: Text,
    text_column: Text,
    mode: EmbedMode,
    model: &M,
    hooks: &EmbedHooks<C>,
    model_id: Option<Text>,
    calls: Seq<ModelCall>,
    result: Result<EmbedOutcome, ErrorModel>,
) -> bool {
    exists|dimension: usize, run: Seq<ModelCall>|
        around(calls, run) && #[trigger] property_run(
            before,
            after,
            node_type,
            text_column,
            mode,
            model,
            hooks,
            model_id,
            dimension,
            run,
            result,
        )
}

/// What a pass over a type comes to with a model of a name. A column that cannot
/// be read and a store that another model made are refused. Where no text goes
/// to the model, and it need not be loaded, nothing is written; else it is loaded
/// and run.
pub open spec fn property_pass<M: Embedder, C: EmbedCalls>(
    before: DirGraph,
    after: DirGraph,
    node_type: Text,
    text_column: Text,
    mode: EmbedMode,
    model: &M,
    hooks: &EmbedHooks<C>,
    model_id: Option<String>,
    calls: Seq<ModelCall>,
    result: Result<EmbedOutcome, ErrorModel>,
) -> bool {
    let found = property_candidates(before, node_type, text_column, mode);
    let existing = kept_store(before, node_type, text_column, mode);
    let fault = property_fault(before, node_type, text_column, mode, text_option(model_id));
    &&& call_ensures(M::model_id, (model,), model_id)
    &&& if fault is Some {
        calls.len() == 0 && after == before && result == Err::<EmbedOutcome, ErrorModel>(fault->0)
    } else if found.texts.len() == 0 && !hooks.load_when_idle {
        &&& calls.len() == 0
        &&& after == before
        &&& result matches Ok(outcome) && outcome_says(
            outcome,
            found,
            0,
            match existing {
                Some(store) => store.dimension,
                None => 0,
            },
        )
    } else {
        ||| calls == not_ready() && after == before && result is Err && load_fails(
            model,
            result->Err_0,
        )
        ||| loads(model) && property_runs(
            before,
            after,
            node_type,
            text_column,
            mode,
            model,
            hooks,
            text_option(model_id),
            calls,
            result,
        )
    }
}

/// What a pass over a type comes to, for a name that the model has.
pub open spec fn property_outcome<M: Embedder, C: EmbedCalls>(
    before: DirGraph,
    after: DirGraph,
    node_type: Text,
    text_column: Text,
    mode: EmbedMode,
    model: &M,
    hooks: &EmbedHooks<C>,
    calls: Seq<ModelCall>,
    result: Result<EmbedOutcome, ErrorModel>,
) -> bool {
    exists|model_id: Option<String>| #[trigger]
        property_pass(
            before,
            after,
            node_type,
            text_column,
            mode,
            model,
            hooks,
            model_id,
            calls,
            result,
        )
}

/// What a result says.
pub open spec fn outcome_said(result: Result<EmbedOutcome, EmbedError>) -> Result<
    EmbedOutcome,
    ErrorModel,
> {
    match result {
        Ok(outcome) => Ok(outcome),
        Err(error) => Err(error@),
    }
}

/// Embeds a column of a type. The model is loaded once around the whole pass,
/// and let go on every way out; the store is written once, at the end.
pub fn embed_property<M: Embedder, C: EmbedCalls>(
    graph: &mut DirGraph,
    node_type: &str,
    text_column: &str,
    mode: EmbedMode,
    model: &mut ModelCalls<'_, M>,
    hooks: &EmbedHooks<C>,
) -> (result: Result<EmbedOutcome, EmbedError>)
    requires
        old(graph).well_formed(),
    ensures
        final(graph).well_formed(),
        final(model).follows(*old(model)),
        orderly(final(model).since(*old(model))),
        property_candidates(*old(graph), node_type@, text_column@, mode).texts.len() == 0
            && !hooks.load_when_idle ==> final(model).since(*old(model)).len() == 0,
        property_outcome(
            *old(graph),
            *final(graph),
            node_type@,
            text_column@,
            mode,
            old(model).model(),
            hooks,
            final(model).since(*old(model)),
            outcome_said(result),
        ),
{
    let ghost first = *model;
    let requested = model.model_id();
    let result = embed_named(graph, node_type, text_column, mode, model, hooks, &requested);
    assert(property_pass(
        *old(graph),
        *graph,
        node_type@,
        text_column@,
        mode,
        first.model(),
        hooks,
        requested,
        model.since(first),
        outcome_said(result),
    ));
    proof {
        a_pass_is_orderly(
            *old(graph),
            *graph,
            node_type@,
            text_column@,
            mode,
            first.model(),
            hooks,
            requested,
            model.since(first),
            outcome_said(result),
        );
    }
    result
}

proof fn a_pass_is_orderly<M: Embedder, C: EmbedCalls>(
    before: DirGraph,
    after: DirGraph,
    node_type: Text,
    text_column: Text,
    mode: EmbedMode,
    model: &M,
    hooks: &EmbedHooks<C>,
    model_id: Option<String>,
    calls: Seq<ModelCall>,
    result: Result<EmbedOutcome, ErrorModel>,
)
    requires
        property_pass(
            before,
            after,
            node_type,
            text_column,
            mode,
            model,
            hooks,
            model_id,
            calls,
            result,
        ),
    ensures
        orderly(calls),
{
    if calls.len() > 0 && calls != not_ready() {
        let (dimension, run) = choose|dimension: usize, run: Seq<ModelCall>|
            around(calls, run) && #[trigger] property_run(
                before,
                after,
                node_type,
                text_column,
                mode,
                model,
                hooks,
                text_option(model_id),
                dimension,
                run,
                result,
            );
        let texts = property_candidates(before, node_type, text_column, mode).texts;
        let size = texts_at_once(hooks);
        if run.len() > 0 {
            if result is Err {
                let (from, earlier) = choose|from: int, earlier: Seq<Seq<u32>>| #[trigger]
                    node_run_broken(
                        model,
                        hooks,
                        texts,
                        dimension,
                        from,
                        earlier,
                        run,
                        result->Err_0,
                    );
                assert(run_cut_at(all_sent(texts), true, size, from, true, run));
            }
            a_run_is_between(all_sent(texts), true, size, run);
        }
        around_a_run_is_orderly(calls, run);
    }
}

fn embed_named<M: Embedder, C: EmbedCalls>(
    graph: &mut DirGraph,
    node_type: &str,
    text_column: &str,
    mode: EmbedMode,
    model: &mut ModelCalls<'_, M>,
    hooks: &EmbedHooks<C>,
    requested: &Option<String>,
) -> (result: Result<EmbedOutcome, EmbedError>)
    requires
        old(graph).well_formed(),
        call_ensures(M::model_id, (old(model).model(),), *requested),
    ensures
        final(graph).well_formed(),
        final(model).follows(*old(model)),
        property_pass(
            *old(graph),
            *final(graph),
            node_type@,
            text_column@,
            mode,
            old(model).model(),
            hooks,
            *requested,
            final(model).since(*old(model)),
            outcome_said(result),
        ),
{
    let ghost before = *graph;
    let ghost first = *model;
    let ghost m = model.model();
    proof {
        assert(first.made() =~= first.made() + (Seq::<ModelCall>::empty()));
        more_calls(first, first, Seq::<ModelCall>::empty());
    }
    let model_id: Option<&str> = match requested {
        Some(name) => Some(name.as_str()),
        None => None,
    };
    assert(str_option(model_id) == text_option(*requested));
    let found = match find_candidates(graph, node_type, text_column, mode, model_id) {
        Ok(found) => found,
        Err(error) => {
            return Err(error);
        },
    };
    let name = store_name(text_column);
    let ghost existing = kept_store(*graph, node_type@, text_column@, mode);
    let store_dimension: Option<usize> = if mode == EmbedMode::All {
        None
    } else {
        match graph.embeddings.get(node_type, name.as_str()) {
            Some(store) => Some(store.dimension),
            None => None,
        }
    };
    assert(found@.texts.len() == found.texts@.len());
    if found.texts.len() == 0 && !hooks.load_when_idle {
        let dimension: usize = match store_dimension {
            Some(dimension) => dimension,
            None => 0,
        };
        return Ok(found.outcome(0, dimension));
    }
    if let Err(message) = model.load() {
        proof {
            assert(model.made() =~= first.made() + (not_ready()));
            more_calls(*model, first, not_ready());
        }
        return Err(EmbedError::Model(message));
    }
    assert(loads(m));
    let ghost ready = *model;
    let ghost idle = Seq::<ModelCall>::empty();
    let dimension: usize = model.dimension();
    if let Some(store) = store_dimension {
        if store != dimension {
            model.unload();
            proof {
                assert(model.made() =~= first.made() + (seq![ModelCall::Load { ready: true }] + idle + seq![
                ModelCall::Unload,
            ]));
                more_calls(*model, first, seq![ModelCall::Load { ready: true }] + idle + seq![
                ModelCall::Unload,
            ]);
            }
            assert(around(model.since(first), idle));
            let result = Err(EmbedError::Dimension { store, model: dimension });
            assert(property_run(
                before,
                *graph,
                node_type@,
                text_column@,
                mode,
                m,
                hooks,
                text_option(*requested),
                dimension,
                idle,
                outcome_said(result),
            ));
            return result;
        }
    }
    if found.texts.len() == 0 {
        model.unload();
        proof {
            assert(model.made() =~= first.made() + (seq![ModelCall::Load { ready: true }] + idle + seq![
            ModelCall::Unload,
        ]));
            more_calls(*model, first, seq![ModelCall::Load { ready: true }] + idle + seq![
            ModelCall::Unload,
        ]);
        }
        assert(around(model.since(first), idle));
        let result = Ok(found.outcome(0, dimension));
        assert(property_run(
            before,
            *graph,
            node_type@,
            text_column@,
            mode,
            m,
            hooks,
            text_option(*requested),
            dimension,
            idle,
            outcome_said(result),
        ));
        return result;
    }
    let made = embed_batches(&found.texts, model, dimension, hooks);
    let ghost run = model.since(ready);
    model.unload();
    proof {
        assert(model.made() =~= first.made() + (seq![ModelCall::Load { ready: true }] + run + seq![
        ModelCall::Unload,
    ]));
        more_calls(*model, first, seq![ModelCall::Load { ready: true }] + run + seq![
        ModelCall::Unload,
    ]);
    }
    assert(around(model.since(first), run));
    let vectors = match made {
        Ok(vectors) => vectors,
        Err(error) => {
            let result = Err(error);
            assert(property_run(
                before,
                *graph,
                node_type@,
                text_column@,
                mode,
                m,
                hooks,
                text_option(*requested),
                dimension,
                run,
                outcome_said(result),
            ));
            return result;
        },
    };
    let ghost rows = vector_rows(vectors@);
    proof {
        fitting_is_usable(rows, dimension, 0);
    }
    let result = finish_property(
        graph,
        node_type,
        text_column,
        mode,
        &found,
        model_id,
        dimension,
        &vectors,
    );
    proof {
        assert(property_embedded(
            before,
            *graph,
            node_type@,
            text_column@,
            mode,
            text_option(*requested),
            dimension,
            rows,
        ));
        assert(property_made(
            before,
            *graph,
            node_type@,
            text_column@,
            mode,
            m,
            hooks,
            text_option(*requested),
            dimension,
        ));
        assert(property_run(
            before,
            *graph,
            node_type@,
            text_column@,
            mode,
            m,
            hooks,
            text_option(*requested),
            dimension,
            run,
            outcome_said(result),
        ));
    }
    result
}

} // verus!
