//! What a durable graph records of its changes, and what a statement can undo.
use vstd::prelude::*;
use crate::edge_store::EdgeEmbeddingStore;
use crate::store::{
    IndexStateModel, RemovedEmbedding, RemovedModel, SlotCoverage, StoreModel, VectorIndexState,
};
use crate::text::{text_option, texts, Text};
use crate::text_index::{TextIndexStore, TextStoreModel};
use crate::topology::{EdgeRecord, Property};
use crate::value::{EdgeIndex, Value, ValueModel};

verus! {

/// A relationship's vector and the hash of its text, as they were.
#[derive(Debug, Clone)]
pub struct EdgeVectorWalState {
    /// The vector.
    pub vector: Vec<u32>,
    /// The hash of the text it was made from.
    pub text_hash: Option<u64>,
}

/// What a vector and its hash were.
#[verifier::ext_equal]
pub struct VectorStateModel {
    pub vector: Seq<u32>,
    pub text_hash: Option<u64>,
}

/// One cell of a store, as it was before a write.
#[derive(Debug, Clone)]
pub struct EdgeEmbeddingPriorCell {
    /// The relationship.
    pub edge: EdgeIndex,
    /// The store's text column.
    pub text_column: String,
    /// The vector, where there was one.
    pub state: Option<EdgeVectorWalState>,
}

/// What a cell was.
#[verifier::ext_equal]
pub struct PriorCellModel {
    pub edge: EdgeIndex,
    pub text_column: Text,
    pub state: Option<VectorStateModel>,
}

impl View for EdgeEmbeddingPriorCell {
    type V = PriorCellModel;

    open spec fn view(&self) -> PriorCellModel {
        PriorCellModel {
            edge: self.edge,
            text_column: self.text_column@,
            state: match self.state {
                Some(s) => Some(VectorStateModel { vector: s.vector@, text_hash: s.text_hash }),
                None => None,
            },
        }
    }
}

/// One parallel group a write touches: its endpoints, the stores of its type,
/// and the cells as they were.
#[derive(Debug, Clone)]
pub struct EdgeEmbeddingBaseTouch {
    /// The relationship type.
    pub conn_type: String,
    /// The source node's type.
    pub src_type: String,
    /// The source node's id.
    pub src_id: Value,
    /// The target node's type.
    pub tgt_type: String,
    /// The target node's id.
    pub tgt_id: Value,
    /// The text columns of the type's stores, sorted.
    pub base_stores: Vec<String>,
    /// The touched cells.
    pub prior_cells: Vec<EdgeEmbeddingPriorCell>,
}

/// What a touch says.
#[verifier::ext_equal]
pub struct TouchModel {
    pub conn_type: Text,
    pub src_type: Text,
    pub src_id: ValueModel,
    pub tgt_type: Text,
    pub tgt_id: ValueModel,
    pub base_stores: Seq<Text>,
    pub prior_cells: Seq<PriorCellModel>,
}

/// What a list of cells was.
pub open spec fn cells_were(cells: Seq<EdgeEmbeddingPriorCell>) -> Seq<PriorCellModel> {
    Seq::new(cells.len(), |i: int| cells[i]@)
}

impl View for EdgeEmbeddingBaseTouch {
    type V = TouchModel;

    open spec fn view(&self) -> TouchModel {
        TouchModel {
            conn_type: self.conn_type@,
            src_type: self.src_type@,
            src_id: self.src_id@,
            tgt_type: self.tgt_type@,
            tgt_id: self.tgt_id@,
            base_stores: texts(self.base_stores@),
            prior_cells: cells_were(self.prior_cells@),
        }
    }
}

/// How a node store was written.
#[derive(Clone, Copy, Debug, PartialEq, Eq, Structural)]
pub enum EmbeddingWrite {
    /// The store was replaced.
    Replace,
    /// Vectors were written into the store.
    Upsert,
}

/// A vector index that was declared or dropped.
#[derive(Debug, Clone)]
pub struct VectorIndexDeclaration {
    /// Whether the store is one of relationships.
    pub relationship: bool,
    /// The type the store is kept for.
    pub owner_type: String,
    /// The store's text column.
    pub text_column: String,
    /// The metric asked for.
    pub metric: Option<String>,
    /// The neighbours asked for.
    pub m: Option<usize>,
    /// The candidates asked for while building.
    pub ef_construction: Option<usize>,
    /// The candidates asked for while searching.
    pub ef_search: Option<usize>,
    /// The vectors a query may fold in by itself.
    pub auto_refresh_limit: Option<usize>,
    /// Whether there is an index.
    pub present: bool,
}

/// What a declaration says.
#[verifier::ext_equal]
pub struct DeclarationModel {
    pub relationship: bool,
    pub owner_type: Text,
    pub text_column: Text,
    pub metric: Option<Text>,
    pub m: Option<usize>,
    pub ef_construction: Option<usize>,
    pub ef_search: Option<usize>,
    pub auto_refresh_limit: Option<usize>,
    pub present: bool,
}

impl View for VectorIndexDeclaration {
    type V = DeclarationModel;

    open spec fn view(&self) -> DeclarationModel {
        DeclarationModel {
            relationship: self.relationship,
            owner_type: self.owner_type@,
            text_column: self.text_column@,
            metric: text_option(self.metric),
            m: self.m,
            ef_construction: self.ef_construction,
            ef_search: self.ef_search,
            auto_refresh_limit: self.auto_refresh_limit,
            present: self.present,
        }
    }
}

/// One recorded change.
#[derive(Debug, Clone)]
pub enum RawOp {
    /// A relationship's parallel group was touched.
    WalGroup { edge: EdgeIndex, base_members: Vec<EdgeIndex> },
    /// What a relationship store declares was touched.
    EdgeEmbeddingStore { conn_type: String, text_column: String },
    /// What a touched group was before.
    EdgeEmbeddingBase(EdgeEmbeddingBaseTouch),
    /// A node store was written.
    NodeEmbeddings {
        node_type: String,
        text_column: String,
        write: EmbeddingWrite,
        slots: Vec<usize>,
    },
    /// An index was declared.
    Declaration(VectorIndexDeclaration),
}

/// What one recorded change says.
#[verifier::ext_equal]
pub enum OpModel {
    WalGroup { edge: EdgeIndex, base_members: Seq<EdgeIndex> },
    EdgeEmbeddingStore { conn_type: Text, text_column: Text },
    EdgeEmbeddingBase(TouchModel),
    NodeEmbeddings {
        node_type: Text,
        text_column: Text,
        write: EmbeddingWrite,
        slots: Seq<usize>,
    },
    Declaration(DeclarationModel),
}

impl View for RawOp {
    type V = OpModel;

    open spec fn view(&self) -> OpModel {
        match *self {
            RawOp::WalGroup { edge, base_members } => OpModel::WalGroup {
                edge,
                base_members: base_members@,
            },
            RawOp::EdgeEmbeddingStore { conn_type, text_column } => OpModel::EdgeEmbeddingStore {
                conn_type: conn_type@,
                text_column: text_column@,
            },
            RawOp::EdgeEmbeddingBase(touch) => OpModel::EdgeEmbeddingBase(touch@),
            RawOp::NodeEmbeddings { node_type, text_column, write, slots } => {
                OpModel::NodeEmbeddings {
                    node_type: node_type@,
                    text_column: text_column@,
                    write,
                    slots: slots@,
                }
            },
            RawOp::Declaration(declaration) => OpModel::Declaration(declaration@),
        }
    }
}

/// The changes of a durable graph since they were last taken.
#[derive(Debug, Clone)]
pub struct Recording {
    /// Whether a touched group is recorded with the members it had.
    pub base_capture: bool,
    /// The changes, in order.
    pub ops: Vec<RawOp>,
}

/// What a recording says.
#[verifier::ext_equal]
pub struct RecordingModel {
    pub base_capture: bool,
    pub ops: Seq<OpModel>,
}

impl View for Recording {
    type V = RecordingModel;

    open spec fn view(&self) -> RecordingModel {
        RecordingModel {
            base_capture: self.base_capture,
            ops: Seq::new(self.ops@.len(), |i: int| self.ops@[i]@),
        }
    }
}

impl Recording {
    /// Nothing recorded.
    pub fn new(base_capture: bool) -> (recording: Recording)
        ensures
            recording@ == (RecordingModel { base_capture, ops: Seq::empty() }),
    {
        let recording = Recording { base_capture, ops: Vec::new() };
        assert(recording@.ops =~= Seq::<OpModel>::empty());
        recording
    }

    /// Records a change.
    pub fn note(&mut self, op: RawOp)
        ensures
            final(self)@ == (RecordingModel { ops: old(self)@.ops.push(op@), ..old(self)@ }),
    {
        self.ops.push(op);
        assert(self@.ops =~= old(self)@.ops.push(op@));
    }
}

/// One change that a statement can undo.
#[derive(Debug, Clone)]
pub enum UndoEntry {
    /// A relationship was removed.
    EdgeRemoved { edge: EdgeIndex, record: EdgeRecord },
    /// A relationship's properties were written.
    EdgePropertiesReplaced { edge: EdgeIndex, prior: Vec<Property> },
    /// A relationship store's index was taken or replaced.
    EdgeVectorIndexReplaced { conn_type: String, name: String, prior: VectorIndexState },
    /// A relationship's vector was removed.
    EdgeEmbeddingRemoved {
        conn_type: String,
        name: String,
        edge: EdgeIndex,
        prior: RemovedEmbedding,
    },
    /// A relationship store was replaced, created or dropped.
    EdgeEmbeddingStoreReplaced {
        conn_type: String,
        name: String,
        prior: Option<EdgeEmbeddingStore>,
    },
    /// A relationship store's model was replaced.
    EdgeEmbeddingModelIdReplaced { conn_type: String, name: String, prior: Option<String> },
    /// A relationship's cell was overwritten or appended.
    EdgeEmbeddingCellReplaced {
        conn_type: String,
        name: String,
        edge: EdgeIndex,
        prior: Option<(RemovedEmbedding, SlotCoverage)>,
    },
    /// A relationship text index was replaced, created or dropped.
    EdgeTextIndexReplaced { conn_type: String, name: String, prior: Option<TextIndexStore> },
    /// A relationship's document was dropped.
    EdgeTextDocPruned { conn_type: String, name: String, edge: EdgeIndex },
}

/// What one undo entry says.
#[verifier::ext_equal]
pub enum UndoModel {
    EdgeRemoved { edge: EdgeIndex, record: EdgeRecord },
    EdgePropertiesReplaced { edge: EdgeIndex, prior: Vec<Property> },
    EdgeVectorIndexReplaced { conn_type: Text, name: Text, prior: IndexStateModel },
    EdgeEmbeddingRemoved { conn_type: Text, name: Text, edge: EdgeIndex, prior: RemovedModel },
    EdgeEmbeddingStoreReplaced { conn_type: Text, name: Text, prior: Option<StoreModel> },
    EdgeEmbeddingModelIdReplaced { conn_type: Text, name: Text, prior: Option<Text> },
    EdgeEmbeddingCellReplaced {
        conn_type: Text,
        name: Text,
        edge: EdgeIndex,
        prior: Option<(RemovedModel, SlotCoverage)>,
    },
    EdgeTextIndexReplaced { conn_type: Text, name: Text, prior: Option<TextStoreModel> },
    EdgeTextDocPruned { conn_type: Text, name: Text, edge: EdgeIndex },
}

impl View for UndoEntry {
    type V = UndoModel;

    open spec fn view(&self) -> UndoModel {
        match *self {
            UndoEntry::EdgeRemoved { edge, record } => UndoModel::EdgeRemoved { edge, record },
            UndoEntry::EdgePropertiesReplaced { edge, prior } => {
                UndoModel::EdgePropertiesReplaced { edge, prior }
            },
            UndoEntry::EdgeVectorIndexReplaced { conn_type, name, prior } => {
                UndoModel::EdgeVectorIndexReplaced {
                    conn_type: conn_type@,
                    name: name@,
                    prior: prior@,
                }
            },
            UndoEntry::EdgeEmbeddingRemoved { conn_type, name, edge, prior } => {
                UndoModel::EdgeEmbeddingRemoved {
                    conn_type: conn_type@,
                    name: name@,
                    edge,
                    prior: prior@,
                }
            },
            UndoEntry::EdgeEmbeddingStoreReplaced { conn_type, name, prior } => {
                UndoModel::EdgeEmbeddingStoreReplaced {
                    conn_type: conn_type@,
                    name: name@,
                    prior: match prior {
                        Some(store) => Some(store@),
                        None => None,
                    },
                }
            },
            UndoEntry::EdgeEmbeddingModelIdReplaced { conn_type, name, prior } => {
                UndoModel::EdgeEmbeddingModelIdReplaced {
                    conn_type: conn_type@,
                    name: name@,
                    prior: text_option(prior),
                }
            },
            UndoEntry::EdgeEmbeddingCellReplaced { conn_type, name, edge, prior } => {
                UndoModel::EdgeEmbeddingCellReplaced {
                    conn_type: conn_type@,
                    name: name@,
                    edge,
                    prior: match prior {
                        Some((cell, coverage)) => Some((cell@, coverage)),
                        None => None,
                    },
                }
            },
            UndoEntry::EdgeTextIndexReplaced { conn_type, name, prior } => {
                UndoModel::EdgeTextIndexReplaced {
                    conn_type: conn_type@,
                    name: name@,
                    prior: match prior {
                        Some(store) => Some(store@),
                        None => None,
                    },
                }
            },
            UndoEntry::EdgeTextDocPruned { conn_type, name, edge } => {
                UndoModel::EdgeTextDocPruned { conn_type: conn_type@, name: name@, edge }
            },
        }
    }
}

impl UndoEntry {
    /// What the entry puts back is well formed.
    pub open spec fn well_formed(self) -> bool {
        match self {
            UndoEntry::EdgeVectorIndexReplaced { prior, .. } => prior.well_formed(),
            UndoEntry::EdgeEmbeddingStoreReplaced { name, prior, .. } => {
                &&& crate::names::column_of(name@) is Some
                &&& prior is Some ==> prior->0.well_formed()
            },
            UndoEntry::EdgeTextIndexReplaced { prior, .. } => prior is Some
                ==> prior->0.well_formed(),
            _ => true,
        }
    }
}

/// What a journal says.
pub open spec fn journal_says(entries: Seq<UndoEntry>) -> Seq<UndoModel> {
    Seq::new(entries.len(), |i: int| entries[i]@)
}

/// The undo entries of the statement that is running.
#[derive(Debug, Clone)]
pub struct UndoJournal {
    /// The entries, in order.
    pub entries: Vec<UndoEntry>,
}

impl View for UndoJournal {
    type V = Seq<UndoModel>;

    open spec fn view(&self) -> Seq<UndoModel> {
        journal_says(self.entries@)
    }
}

impl UndoJournal {
    /// Every entry is well formed.
    pub open spec fn well_formed(self) -> bool {
        forall|i: int| 0 <= i < self.entries@.len() ==> (#[trigger] self.entries@[i]).well_formed()
    }

    /// Adds an entry.
    pub fn note(&mut self, entry: UndoEntry)
        requires
            old(self).well_formed(),
            entry.well_formed(),
        ensures
            final(self).well_formed(),
            final(self)@ == old(self)@.push(entry@),
    {
        self.entries.push(entry);
        assert(self@ =~= old(self)@.push(entry@));
    }
}

} // verus!
