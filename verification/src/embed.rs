//! What an embedding pass is asked for, what it reports, and the model that
//! makes the vectors.

use crate::text::{decimal, push_number, str_option, text_option, text_option_eq, Text};
use vstd::prelude::*;

verus! {

/// A model that turns texts into vectors.
pub trait Embedder {
    /// The numbers in a vector.
    fn dimension(&self) -> usize;

    /// The name of the model, where it has one.
    fn model_id(&self) -> Option<String> {
        None
    }

    /// One vector for each text.
    fn embed(&self, texts: &Vec<String>) -> Result<Vec<Vec<u32>>, String>;

    /// Makes the model ready.
    fn load(&self) -> Result<(), String> {
        Ok(())
    }

    /// Lets the model go.
    fn unload(&self) {
    }
}

/// What may stop a pass.
pub trait Interrupt {
    /// The time is over.
    fn deadline_expired(&self) -> bool;

    /// The caller gave up.
    fn is_cancelled(&self) -> bool;
}

/// Nothing stops the pass.
pub struct NeverInterrupted;

impl Interrupt for NeverInterrupted {
    fn deadline_expired(&self) -> (expired: bool)
        ensures
            !expired,
    {
        false
    }

    fn is_cancelled(&self) -> (cancelled: bool)
        ensures
            !cancelled,
    {
        false
    }
}

/// The calls that a pass makes beside those to the model.
pub trait EmbedCalls {
    /// Runs one batch through the model, or `None` where the model is to be
    /// called directly.
    fn embed_batch(&self, texts: &Vec<String>) -> Option<Result<Vec<Vec<u32>>, String>>;

    /// Called once, before the first batch, with the number of texts.
    fn on_start(&self, texts: usize);

    /// Called after each batch with its size.
    fn on_batch(&self, texts: usize);
}

/// No calls beside those to the model.
pub struct PlainCalls;

impl EmbedCalls for PlainCalls {
    fn embed_batch(&self, texts: &Vec<String>) -> (reply: Option<Result<Vec<Vec<u32>>, String>>)
        ensures
            reply is None,
    {
        None
    }

    fn on_start(&self, texts: usize) {
    }

    fn on_batch(&self, texts: usize) {
    }
}

/// How a pass runs the model.
pub struct EmbedHooks<C: EmbedCalls> {
    /// Texts in one call.
    pub batch_size: usize,
    /// Whether the model is loaded though nothing needs embedding, so that the
    /// outcome has its dimension.
    pub load_when_idle: bool,
    /// The calls beside those to the model.
    pub calls: C,
}

impl Default for EmbedHooks<PlainCalls> {
    fn default() -> (hooks: EmbedHooks<PlainCalls>)
        ensures
            hooks.batch_size == 256,
            !hooks.load_when_idle,
    {
        EmbedHooks { batch_size: 256, load_when_idle: false, calls: PlainCalls }
    }
}

/// Which texts a pass sends to the model.
#[derive(Debug, Clone, Copy, PartialEq, Eq, Structural)]
pub enum EmbedMode {
    /// Those without a vector.
    Missing,
    /// Those without a vector and those that changed since.
    Changed,
    /// All of them.
    All,
}

/// What one pass did.
#[derive(Debug, Clone, Copy, PartialEq, Eq, Structural)]
pub struct EmbedOutcome {
    /// Vectors that were made.
    pub embedded: usize,
    /// Owners without a text.
    pub skipped: usize,
    /// Owners whose vector is already current.
    pub skipped_existing: usize,
    /// Owners with a vector whose text changed.
    pub reembedded_changed: usize,
    /// The store's dimension; zero where there is none and the model was not
    /// asked.
    pub dimension: usize,
}

impl Default for EmbedOutcome {
    fn default() -> (outcome: EmbedOutcome)
        ensures
            outcome == (EmbedOutcome {
                embedded: 0,
                skipped: 0,
                skipped_existing: 0,
                reembedded_changed: 0,
                dimension: 0,
            }),
    {
        EmbedOutcome {
            embedded: 0,
            skipped: 0,
            skipped_existing: 0,
            reembedded_changed: 0,
            dimension: 0,
        }
    }
}

/// Why a pass could not run.
#[derive(Debug, Clone, PartialEq, Eq)]
pub enum EmbedError {
    /// The column cannot be read.
    Column(String),
    /// The model's dimension is not the store's.
    Dimension { store: usize, model: usize },
    /// What the model or the caller gave cannot be used.
    Output(String),
    /// The model failed.
    Model(String),
}

/// What an error says.
pub enum ErrorModel {
    Column(Text),
    Dimension { store: usize, model: usize },
    Output(Text),
    Model(Text),
}

impl View for EmbedError {
    type V = ErrorModel;

    open spec fn view(&self) -> ErrorModel {
        match self {
            EmbedError::Column(message) => ErrorModel::Column(message@),
            EmbedError::Dimension { store, model } => ErrorModel::Dimension {
                store: *store,
                model: *model,
            },
            EmbedError::Output(message) => ErrorModel::Output(message@),
            EmbedError::Model(message) => ErrorModel::Model(message@),
        }
    }
}

/// An error in words.
pub open spec fn error_text(error: ErrorModel) -> Text {
    match error {
        ErrorModel::Column(message) => message,
        ErrorModel::Output(message) => message,
        ErrorModel::Model(message) => message,
        ErrorModel::Dimension { store, model } => "the model produces "@ + decimal(model as nat)
            + "-d vectors but the existing store is "@ + decimal(store as nat)
            + "-d — embedding into it would mix dimensions and corrupt search"@,
    }
}

impl EmbedError {
    /// The error in words.
    pub fn message(&self) -> (message: String)
        ensures
            message@ == error_text(self@),
    {
        match self {
            EmbedError::Column(message) => message.as_str().to_owned(),
            EmbedError::Output(message) => message.as_str().to_owned(),
            EmbedError::Model(message) => message.as_str().to_owned(),
            EmbedError::Dimension { store, model } => {
                let mut message = "the model produces ".to_owned();
                push_number(&mut message, *model);
                message.append("-d vectors but the existing store is ");
                push_number(&mut message, *store);
                message.append(
                    "-d — embedding into it would mix dimensions and corrupt search",
                );
                message
            },
        }
    }
}

/// The model a store names after a pass: the model that made every vector in
/// it, or none.
pub open spec fn model_after(
    prior: Option<Text>,
    requested: Option<Text>,
    mode: EmbedMode,
    unselected_remain: bool,
    had_vectors: bool,
) -> Option<Text> {
    if (prior is Some && prior == requested) || !had_vectors || (mode == EmbedMode::All
        && !unselected_remain) {
        requested
    } else {
        None
    }
}

/// The model a store names after a pass, `None` where no one model made every
/// vector in it.
pub fn final_model_id(
    prior: Option<&str>,
    requested: Option<&str>,
    mode: EmbedMode,
    unselected_vectors_remain: bool,
    had_existing_vectors: bool,
) -> (model: Option<String>)
    ensures
        text_option(model) == model_after(
            str_option(prior),
            str_option(requested),
            mode,
            unselected_vectors_remain,
            had_existing_vectors,
        ),
{
    let keeps = (prior.is_some() && text_option_eq(prior, requested)) || !had_existing_vectors || (
    mode == EmbedMode::All && !unselected_vectors_remain);
    match requested {
        Some(name) => if keeps {
            Some(name.to_owned())
        } else {
            None
        },
        None => None,
    }
}

/// A model in words: its name in quotes, or that it is unknown.
pub open spec fn model_text(model: Option<Text>) -> Text {
    match model {
        Some(name) => "'"@ + name + "'"@,
        None => "unknown"@,
    }
}

/// Says a model in words.
pub(crate) fn push_model(message: &mut String, model: Option<&str>)
    ensures
        final(message)@ == old(message)@ + model_text(str_option(model)),
{
    match model {
        Some(name) => {
            message.append("'");
            message.append(name);
            message.append("'");
            assert(message@ =~= old(message)@ + model_text(str_option(model)));
        },
        None => {
            message.append("unknown");
        },
    }
}

} // verus!
