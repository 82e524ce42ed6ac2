//! A graph with its embedding stores, its text indexes and its logs.
use vstd::prelude::*;
use crate::catalog::{keys_distinct, Catalog};
use crate::edge_store::EdgeEmbeddingStore;
use crate::names::column_of;
use crate::recording::{
    OpModel, RawOp, Recording, RecordingModel, UndoEntry, UndoJournal, UndoModel,
    VectorIndexDeclaration,
};
use crate::store::EmbeddingStore;
use crate::text::{text_eq, Text};
use crate::text_index::TextIndexStore;
use crate::topology::{group_edges, NodeData, Topology};
use crate::value::{EdgeIndex, NodeIndex, Value, ValueModel};

verus! {

/// The nodes of a type, in the order they were added.
#[derive(Debug, Clone)]
pub struct TypeMembers {
    /// The type.
    pub name: String,
    /// The nodes.
    pub members: Vec<NodeIndex>,
}

/// The column that a type's ids or titles were read from.
#[derive(Debug, Clone)]
pub struct FieldAlias {
    /// The type.
    pub node_type: String,
    /// The column.
    pub field: String,
}

/// A graph.
#[derive(Debug, Clone)]
pub struct DirGraph {
    /// The nodes and relationships.
    pub topology: Topology,
    /// The nodes by type.
    pub node_types: Vec<TypeMembers>,
    /// The relationship types that were registered.
    pub connection_types: Vec<String>,
    /// The node stores, by node type and store name.
    pub embeddings: Catalog<EmbeddingStore>,
    /// The relationship stores, by relationship type and store name.
    pub edge_embeddings: Catalog<EdgeEmbeddingStore>,
    /// The relationship text indexes, by relationship type and property.
    pub edge_text_indexes: Catalog<TextIndexStore>,
    /// The columns that ids were read from.
    pub id_field_aliases: Vec<FieldAlias>,
    /// The columns that titles were read from.
    pub title_field_aliases: Vec<FieldAlias>,
    /// Whether the graph may not change.
    pub read_only: bool,
    /// How often the graph was written.
    pub version: u64,
    /// What the running statement can undo, where one is running.
    pub undo: Option<UndoJournal>,
    /// What a durable graph recorded.
    pub recording: Option<Recording>,
}

/// The version after a write.
pub open spec fn bumped(version: u64) -> u64 {
    if version == u64::MAX {
        0
    } else {
        (version + 1) as u64
    }
}

/// What the running statement can undo.
pub open spec fn undo_of(graph: DirGraph) -> Option<Seq<UndoModel>> {
    match graph.undo {
        Some(journal) => Some(journal@),
        None => None,
    }
}

/// What was recorded.
pub open spec fn recorded(graph: DirGraph) -> Option<RecordingModel> {
    match graph.recording {
        Some(recording) => Some(recording@),
        None => None,
    }
}

/// A journal, where there is one, with entries added.
pub open spec fn undo_with(undo: Option<Seq<UndoModel>>, entries: Seq<UndoModel>) -> Option<
    Seq<UndoModel>,
> {
    match undo {
        Some(journal) => Some(journal + entries),
        None => None,
    }
}

/// A recording, where there is one, with changes added.
pub open spec fn recorded_with(recording: Option<RecordingModel>, ops: Seq<OpModel>) -> Option<
    RecordingModel,
> {
    match recording {
        Some(r) => Some(RecordingModel { ops: r.ops + ops, ..r }),
        None => None,
    }
}

/// The nodes of a type.
pub open spec fn members_of(types: Seq<TypeMembers>, name: Text) -> Option<Seq<NodeIndex>>
    decreases types.len(),
{
    if types.len() == 0 {
        None
    } else if types[0].name@ == name {
        Some(types[0].members@)
    } else {
        members_of(types.drop_first(), name)
    }
}

/// The first node among `members` that lives and has the id.
pub open spec fn node_with_id(topology: Topology, members: Seq<NodeIndex>, id: ValueModel) -> Option<
    NodeIndex,
>
    decreases members.len(),
{
    if members.len() == 0 {
        None
    } else if topology.node_lives(members[0]) && topology.node(members[0]).id@ == id {
        Some(members[0])
    } else {
        node_with_id(topology, members.drop_first(), id)
    }
}

/// The node of a type that has an id.
pub open spec fn node_by_id(graph: DirGraph, node_type: Text, id: ValueModel) -> Option<NodeIndex> {
    match members_of(graph.node_types@, node_type) {
        Some(members) => node_with_id(graph.topology, members, id),
        None => None,
    }
}

/// A relationship type was registered.
pub open spec fn type_registered(graph: DirGraph, connection_type: Text) -> bool {
    exists|i: int|
        0 <= i < graph.connection_types@.len() && (#[trigger] graph.connection_types@[i])@
            == connection_type
}

/// The members of the parallel group a relationship is in.
pub open spec fn group_of(topology: Topology, edge: EdgeIndex) -> Seq<EdgeIndex> {
    if topology.live(edge) {
        group_edges(
            topology.edges@,
            topology.record(edge).source,
            topology.record(edge).target,
            topology.type_of(edge),
        )
    } else {
        Seq::empty()
    }
}

/// How a touched group is recorded: with its members where bases are captured.
pub open spec fn group_touch(topology: Topology, base_capture: bool, edge: EdgeIndex) -> OpModel {
    OpModel::WalGroup {
        edge,
        base_members: if base_capture {
            group_of(topology, edge)
        } else {
            Seq::empty()
        },
    }
}

impl DirGraph {
    /// Every part is well formed; no key names two stores; and every
    /// relationship store is kept under a store name.
    pub open spec fn well_formed(self) -> bool {
        &&& self.topology.well_formed()
        &&& keys_distinct(self.embeddings@)
        &&& keys_distinct(self.edge_embeddings@)
        &&& keys_distinct(self.edge_text_indexes@)
        &&& self.node_stores_well_formed()
        &&& self.edge_stores_well_formed()
        &&& forall|i: int|
            0 <= i < self.edge_text_indexes.entries@.len() ==> (
            #[trigger] self.edge_text_indexes.entries@[i]).store.well_formed()
                && self.edge_text_indexes.entries@[i].store.freshness.covered
                <= self.topology.edges@.len()
        &&& self.undo is Some ==> self.undo->0.well_formed()
    }

    /// Every node store is well formed and kept under a store name.
    pub open spec fn node_stores_well_formed(self) -> bool {
        forall|i: int|
            0 <= i < self.embeddings.entries@.len() ==> (
            #[trigger] self.embeddings.entries@[i]).store.well_formed() && column_of(
                self.embeddings.entries@[i].name@,
            ) is Some
    }

    /// Every relationship store is well formed and kept under a store name.
    pub open spec fn edge_stores_well_formed(self) -> bool {
        forall|i: int|
            0 <= i < self.edge_embeddings.entries@.len() ==> (
            #[trigger] self.edge_embeddings.entries@[i]).store.well_formed() && column_of(
                self.edge_embeddings.entries@[i].name@,
            ) is Some
    }

    /// An empty graph.
    pub fn new() -> (graph: DirGraph)
        ensures
            graph.well_formed(),
            graph.topology.nodes@.len() == 0,
            graph.topology.edges@.len() == 0,
            graph.node_types@.len() == 0,
            graph.connection_types@.len() == 0,
            graph.embeddings@.len() == 0,
            graph.edge_embeddings@.len() == 0,
            graph.edge_text_indexes@.len() == 0,
            graph.id_field_aliases@.len() == 0,
            graph.title_field_aliases@.len() == 0,
            !graph.read_only,
            graph.version == 0,
            graph.undo is None,
            graph.recording is None,
    {
        DirGraph {
            topology: Topology::new(),
            node_types: Vec::new(),
            connection_types: Vec::new(),
            embeddings: Catalog::new(),
            edge_embeddings: Catalog::new(),
            edge_text_indexes: Catalog::new(),
            id_field_aliases: Vec::new(),
            title_field_aliases: Vec::new(),
            read_only: false,
            version: 0,
            undo: None,
            recording: None,
        }
    }

    /// How often the graph was written.
    pub fn version(&self) -> (version: u64)
        ensures
            version == self.version,
    {
        self.version
    }

    /// Counts a write.
    pub fn bump_version(&mut self)
        ensures
            *final(self) == (DirGraph { version: bumped(old(self).version), ..*old(self) }),
    {
        self.version = if self.version == u64::MAX { 0 } else { self.version + 1 };
    }

    /// Whether changes are recorded.
    pub fn records_payloads(&self) -> (records: bool)
        ensures
            records == (self.recording is Some),
    {
        self.recording.is_some()
    }

    /// Whether a statement is running that can be undone.
    pub fn is_journalling(&self) -> (journalling: bool)
        ensures
            journalling == (self.undo is Some),
    {
        self.undo.is_some()
    }

    /// Adds an undo entry, where a statement is running.
    pub fn note_undo(&mut self, entry: UndoEntry)
        requires
            old(self).undo is Some ==> old(self).undo->0.well_formed(),
            entry.well_formed(),
        ensures
            *final(self) == (DirGraph { undo: final(self).undo, ..*old(self) }),
            final(self).undo is Some <==> old(self).undo is Some,
            final(self).undo is Some ==> final(self).undo->0.well_formed(),
            undo_of(*final(self)) == undo_with(undo_of(*old(self)), seq![entry@]),
    {
        match &mut self.undo {
            Some(journal) => {
                journal.note(entry);
            },
            None => {},
        }
        assert(undo_of(*self) =~= undo_with(undo_of(*old(self)), seq![entry@])) by {
            if old(self).undo is Some {
                assert(old(self).undo->0@.push(entry@) =~= old(self).undo->0@ + seq![entry@]);
            }
        }
    }

    /// Records a change, where changes are recorded.
    pub fn note_op(&mut self, op: RawOp)
        ensures
            *final(self) == (DirGraph { recording: final(self).recording, ..*old(self) }),
            final(self).recording is Some <==> old(self).recording is Some,
            recorded(*final(self)) == recorded_with(recorded(*old(self)), seq![op@]),
    {
        match &mut self.recording {
            Some(recording) => {
                recording.note(op);
            },
            None => {},
        }
        proof {
            if old(self).recording is Some {
                assert(old(self).recording->0@.ops.push(op@) =~= old(self).recording->0@.ops
                    + seq![op@]);
            }
        }
    }

    /// Says whether a touched group is to be recorded with its members.
    pub fn set_edge_embedding_base_capture(&mut self, capture: bool)
        ensures
            *final(self) == (DirGraph { recording: final(self).recording, ..*old(self) }),
            recorded(*final(self)) == match recorded(*old(self)) {
                Some(r) => Some(RecordingModel { base_capture: capture, ..r }),
                None => None,
            },
    {
        match &mut self.recording {
            Some(recording) => {
                recording.base_capture = capture;
            },
            None => {},
        }
        proof {
            if old(self).recording is Some {
                assert(self.recording->0@.ops =~= old(self).recording->0@.ops);
            }
        }
    }

    /// Records that a relationship's group was touched.
    pub fn note_wal_group(&mut self, edge: EdgeIndex)
        ensures
            *final(self) == (DirGraph { recording: final(self).recording, ..*old(self) }),
            final(self).recording is Some <==> old(self).recording is Some,
            recorded(*old(self)) is None ==> recorded(*final(self)) is None,
            recorded(*old(self)) is Some ==> recorded(*final(self)) == recorded_with(
                recorded(*old(self)),
                seq![
                    group_touch(
                        old(self).topology,
                        recorded(*old(self))->0.base_capture,
                        edge,
                    ),
                ],
            ),
    {
        let capture = match &self.recording {
            Some(recording) => recording.base_capture,
            None => {
                return ;
            },
        };
        let mut base_members: Vec<EdgeIndex> = Vec::new();
        if capture && edge.slot < self.topology.edges.len() {
            match &self.topology.edges[edge.slot] {
                Some(record) => {
                    base_members = self.topology.edges_connecting(
                        record.source,
                        record.target,
                        record.data.connection_type.as_str(),
                    );
                },
                None => {},
            }
        }
        assert(base_members@ =~= if capture {
            group_of(self.topology, edge)
        } else {
            Seq::empty()
        });
        self.note_op(RawOp::WalGroup { edge, base_members });
    }

    /// Records a declaration.
    pub fn note_declaration(&mut self, declaration: VectorIndexDeclaration)
        ensures
            *final(self) == (DirGraph { recording: final(self).recording, ..*old(self) }),
            final(self).recording is Some <==> old(self).recording is Some,
            recorded(*final(self)) == recorded_with(
                recorded(*old(self)),
                seq![OpModel::Declaration(declaration@)],
            ),
    {
        self.note_op(RawOp::Declaration(declaration));
    }

    /// The nodes of a type.
    pub fn type_members(&self, node_type: &str) -> (members: Option<&Vec<NodeIndex>>)
        ensures
            match members {
                Some(m) => members_of(self.node_types@, node_type@) == Some(m@),
                None => members_of(self.node_types@, node_type@) is None,
            },
    {
        let mut i: usize = 0;
        assert(self.node_types@.skip(0) =~= self.node_types@);
        while i < self.node_types.len()
            invariant
                i <= self.node_types@.len(),
                members_of(self.node_types@, node_type@) == members_of(
                    self.node_types@.skip(i as int),
                    node_type@,
                ),
            decreases self.node_types@.len() - i,
        {
            if text_eq(self.node_types[i].name.as_str(), node_type) {
                return Some(&self.node_types[i].members);
            }
            assert(self.node_types@.skip(i as int).drop_first() =~= self.node_types@.skip(i + 1));
            i = i + 1;
        }
        None
    }

    /// The node of a type that has an id.
    pub fn lookup_by_id(&self, node_type: &str, id: &Value) -> (node: Option<NodeIndex>)
        ensures
            node == node_by_id(*self, node_type@, id@),
    {
        let members = match self.type_members(node_type) {
            Some(members) => members,
            None => {
                return None;
            },
        };
        let mut i: usize = 0;
        assert(members@.skip(0) =~= members@);
        while i < members.len()
            invariant
                i <= members@.len(),
                members_of(self.node_types@, node_type@) == Some(members@),
                node_with_id(self.topology, members@, id@) == node_with_id(
                    self.topology,
                    members@.skip(i as int),
                    id@,
                ),
            decreases members@.len() - i,
        {
            match self.topology.node_view(members[i]) {
                Some(node) => {
                    if node.id.same(id) {
                        return Some(members[i]);
                    }
                },
                None => {},
            }
            assert(members@.skip(i as int).drop_first() =~= members@.skip(i + 1));
            i = i + 1;
        }
        None
    }

    /// Whether a relationship type was registered.
    pub fn has_connection_type(&self, connection_type: &str) -> (has: bool)
        ensures
            has == type_registered(*self, connection_type@),
    {
        let mut i: usize = 0;
        while i < self.connection_types.len()
            invariant
                i <= self.connection_types@.len(),
                forall|k: int| 0 <= k < i ==> (#[trigger] self.connection_types@[k])@
                    != connection_type@,
            decreases self.connection_types@.len() - i,
        {
            if text_eq(self.connection_types[i].as_str(), connection_type) {
                return true;
            }
            i = i + 1;
        }
        false
    }

    /// Registers a relationship type.
    pub fn register_connection_type(&mut self, connection_type: &str)
        requires
            old(self).well_formed(),
        ensures
            final(self).well_formed(),
            *final(self) == (DirGraph {
                connection_types: final(self).connection_types,
                ..*old(self)
            }),
            forall|t: Text|
                #[trigger] type_registered(*final(self), t) <==> (t == connection_type@
                    || type_registered(*old(self), t)),
    {
        if !self.has_connection_type(connection_type) {
            self.connection_types.push(connection_type.to_owned());
            proof {
                let before = old(self).connection_types@;
                let after = self.connection_types@;
                assert forall|t: Text|
                    #[trigger] type_registered(*self, t) <==> (t == connection_type@
                        || type_registered(*old(self), t)) by {
                    assert(after[before.len() as int]@ == connection_type@);
                    if type_registered(*old(self), t) {
                        let i = choose|i: int| 0 <= i < before.len() && (#[trigger] before[i])@ == t;
                        assert(after[i]@ == t);
                    }
                    if type_registered(*self, t) {
                        let i = choose|i: int| 0 <= i < after.len() && (#[trigger] after[i])@ == t;
                        if i < before.len() {
                            assert(before[i]@ == t);
                        }
                    }
                }
            }
        }
    }
}

/// The place of a type among the types, their count where it is not listed.
pub open spec fn type_place(types: Seq<TypeMembers>, name: Text) -> int
    decreases types.len(),
{
    if types.len() == 0 {
        0
    } else if types[0].name@ == name {
        0
    } else {
        1 + type_place(types.drop_first(), name)
    }
}

pub(crate) proof fn members_at_place(types: Seq<TypeMembers>, name: Text)
    ensures
        0 <= type_place(types, name) <= types.len(),
        type_place(types, name) < types.len() ==> types[type_place(types, name)].name@ == name
            && members_of(types, name) == Some(types[type_place(types, name)].members@),
        type_place(types, name) == types.len() ==> members_of(types, name) is None,
        forall|k: int| 0 <= k < type_place(types, name) ==> (#[trigger] types[k]).name@ != name,
    decreases types.len(),
{
    if types.len() > 0 && types[0].name@ != name {
        members_at_place(types.drop_first(), name);
        let place = type_place(types, name);
        assert forall|k: int| 0 <= k < place implies (#[trigger] types[k]).name@ != name by {
            if k > 0 {
                assert(types.drop_first()[k - 1] == types[k]);
            }
        }
    }
}

proof fn place_is(types: Seq<TypeMembers>, name: Text, place: int)
    requires
        0 <= place <= types.len(),
        forall|k: int| 0 <= k < place ==> (#[trigger] types[k]).name@ != name,
        place < types.len() ==> types[place].name@ == name,
    ensures
        type_place(types, name) == place,
{
    members_at_place(types, name);
    let found = type_place(types, name);
    if found < place {
        assert(types[found].name@ != name);
    }
    if place < found {
        assert(types[place].name@ != name);
    }
}

/// The members a type has, none where it is not listed.
pub open spec fn members_or_none(types: Seq<TypeMembers>, name: Text) -> Seq<NodeIndex> {
    match members_of(types, name) {
        Some(members) => members,
        None => Seq::empty(),
    }
}

impl DirGraph {
    /// Lists a node under its type.
    fn list_member(&mut self, node_type: &str, node: NodeIndex)
        ensures
            *final(self) == (DirGraph { node_types: final(self).node_types, ..*old(self) }),
            members_of(final(self).node_types@, node_type@) == Some(
                members_or_none(old(self).node_types@, node_type@).push(node),
            ),
            forall|t: Text|
                t != node_type@ ==> #[trigger] members_of(final(self).node_types@, t) == members_of(
                    old(self).node_types@,
                    t,
                ),
    {
        let ghost before = self.node_types@;
        let mut place: usize = 0;
        while place < self.node_types.len() && !text_eq(
            self.node_types[place].name.as_str(),
            node_type,
        )
            invariant
                place <= self.node_types@.len(),
                self.node_types@ == before,
                *self == *old(self),
                forall|k: int|
                    0 <= k < place ==> (#[trigger] self.node_types@[k]).name@ != node_type@,
            decreases self.node_types@.len() - place,
        {
            place = place + 1;
        }
        proof {
            place_is(before, node_type@, place as int);
            members_at_place(before, node_type@);
        }
        if place < self.node_types.len() {
            self.node_types[place].members.push(node);
        } else {
            let mut members: Vec<NodeIndex> = Vec::new();
            members.push(node);
            assert(members@ =~= Seq::<NodeIndex>::empty().push(node));
            self.node_types.push(TypeMembers { name: node_type.to_owned(), members });
        }
        proof {
            let after = self.node_types@;
            place_is(after, node_type@, place as int);
            members_at_place(after, node_type@);
            assert forall|t: Text| t != node_type@ implies #[trigger] members_of(after, t)
                == members_of(before, t) by {
                members_at_place(before, t);
                let there = type_place(before, t);
                if there < before.len() {
                    assert(there != place);
                    place_is(after, t, there);
                } else {
                    place_is(after, t, after.len() as int);
                }
                members_at_place(after, t);
            }
        }
    }

    /// Adds a node and lists it under its type.
    pub fn add_node(&mut self, data: NodeData) -> (node: NodeIndex)
        requires
            old(self).well_formed(),
        ensures
            final(self).well_formed(),
            node.slot == old(self).topology.nodes@.len(),
            *final(self) == (DirGraph {
                topology: final(self).topology,
                node_types: final(self).node_types,
                ..*old(self)
            }),
            final(self).topology.nodes@ == old(self).topology.nodes@.push(Some(data)),
            final(self).topology.edges == old(self).topology.edges,
            final(self).topology.vacant == old(self).topology.vacant,
            members_of(final(self).node_types@, data.node_type@) == Some(
                members_or_none(old(self).node_types@, data.node_type@).push(node),
            ),
            forall|t: Text|
                t != data.node_type@ ==> #[trigger] members_of(final(self).node_types@, t)
                    == members_of(old(self).node_types@, t),
    {
        let node_type = data.node_type.as_str().to_owned();
        let node = self.topology.add_node(data);
        self.list_member(node_type.as_str(), node);
        node
    }
}

} // verus!
