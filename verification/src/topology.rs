//! Nodes, relationships and the slots they live in.
use vstd::prelude::*;
use crate::text::{text_eq, Text};
use crate::value::{EdgeIndex, NodeIndex, Value, ValueModel};

verus! {

/// A named value.
#[derive(Debug, Clone)]
pub struct Property {
    /// The property's name.
    pub name: String,
    /// The property's value.
    pub value: Value,
}

/// A node.
#[derive(Debug, Clone)]
pub struct NodeData {
    /// The node's id.
    pub id: Value,
    /// The node's title.
    pub title: Value,
    /// The node's type.
    pub node_type: String,
    /// The node's other properties.
    pub properties: Vec<Property>,
}

/// What a relationship holds.
#[derive(Debug, Clone)]
pub struct EdgeData {
    /// The relationship's type.
    pub connection_type: String,
    /// The relationship's properties.
    pub properties: Vec<Property>,
}

/// A relationship with its endpoints.
#[derive(Debug, Clone)]
pub struct EdgeRecord {
    /// The node it starts at.
    pub source: NodeIndex,
    /// The node it ends at.
    pub target: NodeIndex,
    /// What it holds.
    pub data: EdgeData,
}

/// The nodes and relationships of a graph, by slot. A slot that a deleted
/// relationship left is the next one a new relationship takes.
#[derive(Debug, Clone)]
pub struct Topology {
    /// The node slots.
    pub nodes: Vec<Option<NodeData>>,
    /// The relationship slots.
    pub edges: Vec<Option<EdgeRecord>>,
    /// The relationship slots that were left, the last one on top.
    pub vacant: Vec<usize>,
}

/// The value of the first property named `name`.
pub open spec fn property_in(properties: Seq<Property>, name: Text) -> Option<ValueModel>
    decreases properties.len(),
{
    if properties.len() == 0 {
        None
    } else if properties[0].name@ == name {
        Some(properties[0].value@)
    } else {
        property_in(properties.drop_first(), name)
    }
}

/// The relationships of a type among the slots, in slot order.
pub open spec fn typed_edges(edges: Seq<Option<EdgeRecord>>, connection_type: Text) -> Seq<EdgeIndex>
    decreases edges.len(),
{
    if edges.len() == 0 {
        Seq::empty()
    } else {
        let before = typed_edges(edges.drop_last(), connection_type);
        match edges.last() {
            Some(record) if record.data.connection_type@ == connection_type => before.push(
                EdgeIndex { slot: (edges.len() - 1) as usize },
            ),
            _ => before,
        }
    }
}

/// The relationships of a type that run from `source` to `target`, in slot
/// order: a parallel group.
pub open spec fn group_edges(
    edges: Seq<Option<EdgeRecord>>,
    source: NodeIndex,
    target: NodeIndex,
    connection_type: Text,
) -> Seq<EdgeIndex>
    decreases edges.len(),
{
    if edges.len() == 0 {
        Seq::empty()
    } else {
        let before = group_edges(edges.drop_last(), source, target, connection_type);
        match edges.last() {
            Some(record) if record.data.connection_type@ == connection_type && record.source
                == source && record.target == target => before.push(
                EdgeIndex { slot: (edges.len() - 1) as usize },
            ),
            _ => before,
        }
    }
}

impl Topology {
    /// Vacant slots hold no relationship, and none is listed twice; and every
    /// relationship runs between nodes that live.
    pub open spec fn well_formed(self) -> bool {
        &&& self.vacant@.no_duplicates()
        &&& self.endpoints_live()
        &&& forall|i: int|
            0 <= i < self.vacant.len() ==> (#[trigger] self.vacant@[i]) < self.edges.len()
                && self.edges@[self.vacant@[i] as int] is None
    }

    /// Every relationship runs between nodes that live.
    pub open spec fn endpoints_live(self) -> bool {
        forall|i: int|
            0 <= i < self.edges@.len() && (#[trigger] self.edges@[i]) is Some ==> self.node_lives(
                self.edges@[i]->0.source,
            ) && self.node_lives(self.edges@[i]->0.target)
    }

    /// A relationship lives at `edge`.
    pub open spec fn live(self, edge: EdgeIndex) -> bool {
        edge.slot < self.edges.len() && self.edges@[edge.slot as int] is Some
    }

    /// The relationship at `edge`, where one lives.
    pub open spec fn record(self, edge: EdgeIndex) -> EdgeRecord {
        self.edges@[edge.slot as int]->0
    }

    /// The type of the relationship at `edge`.
    pub open spec fn type_of(self, edge: EdgeIndex) -> Text {
        self.record(edge).data.connection_type@
    }

    /// A relationship of the type lives at `edge`.
    pub open spec fn live_of_type(self, edge: EdgeIndex, connection_type: Text) -> bool {
        self.live(edge) && self.type_of(edge) == connection_type
    }

    /// A node lives at `node`.
    pub open spec fn node_lives(self, node: NodeIndex) -> bool {
        node.slot < self.nodes.len() && self.nodes@[node.slot as int] is Some
    }

    /// The node at `node`, where one lives.
    pub open spec fn node(self, node: NodeIndex) -> NodeData {
        self.nodes@[node.slot as int]->0
    }

    /// No nodes and no relationships.
    pub fn new() -> (topology: Topology)
        ensures
            topology.well_formed(),
            topology.nodes@ == Seq::<Option<NodeData>>::empty(),
            topology.edges@ == Seq::<Option<EdgeRecord>>::empty(),
            topology.vacant@ == Seq::<usize>::empty(),
    {
        Topology { nodes: Vec::new(), edges: Vec::new(), vacant: Vec::new() }
    }

    /// Adds a node and says where it lives.
    pub fn add_node(&mut self, node: NodeData) -> (index: NodeIndex)
        requires
            old(self).well_formed(),
        ensures
            final(self).well_formed(),
            index.slot == old(self).nodes.len(),
            final(self).nodes@ == old(self).nodes@.push(Some(node)),
            final(self).edges == old(self).edges,
            final(self).vacant == old(self).vacant,
    {
        let slot: usize = self.nodes.len();
        self.nodes.push(Some(node));
        proof {
            assert forall|n: NodeIndex| old(self).node_lives(n) implies #[trigger] self.node_lives(
                n,
            ) by {
                assert(self.nodes@[n.slot as int] == old(self).nodes@[n.slot as int]);
            }
        }
        NodeIndex { slot }
    }

    /// Adds a relationship, in the slot that was left last if there is one.
    pub fn add_edge(&mut self, source: NodeIndex, target: NodeIndex, data: EdgeData) -> (index:
        EdgeIndex)
        requires
            old(self).well_formed(),
            old(self).node_lives(source),
            old(self).node_lives(target),
        ensures
            final(self).well_formed(),
            final(self).nodes == old(self).nodes,
            !old(self).live(index),
            old(self).vacant.len() > 0 ==> {
                &&& index.slot == old(self).vacant@.last()
                &&& final(self).edges@ == old(self).edges@.update(
                    index.slot as int,
                    Some(EdgeRecord { source, target, data }),
                )
                &&& final(self).vacant@ == old(self).vacant@.drop_last()
            },
            old(self).vacant.len() == 0 ==> {
                &&& index.slot == old(self).edges.len()
                &&& final(self).edges@ == old(self).edges@.push(
                    Some(EdgeRecord { source, target, data }),
                )
                &&& final(self).vacant@ == old(self).vacant@
            },
    {
        let record = EdgeRecord { source, target, data };
        match self.vacant.pop() {
            Some(slot) => {
                assert(old(self).vacant@[old(self).vacant@.len() - 1] == slot);
                self.edges.set(slot, Some(record));
                EdgeIndex { slot }
            },
            None => {
                let slot: usize = self.edges.len();
                self.edges.push(Some(record));
                EdgeIndex { slot }
            },
        }
    }

    /// What the relationship at `edge` holds.
    pub fn edge_weight(&self, edge: EdgeIndex) -> (data: Option<&EdgeData>)
        ensures
            match data {
                Some(d) => self.live(edge) && *d == self.record(edge).data,
                None => !self.live(edge),
            },
    {
        if edge.slot < self.edges.len() {
            match &self.edges[edge.slot] {
                Some(record) => Some(&record.data),
                None => None,
            }
        } else {
            None
        }
    }

    /// The nodes the relationship at `edge` starts and ends at.
    pub fn edge_endpoints(&self, edge: EdgeIndex) -> (endpoints: Option<(NodeIndex, NodeIndex)>)
        ensures
            match endpoints {
                Some((source, target)) => self.live(edge) && source == self.record(edge).source
                    && target == self.record(edge).target,
                None => !self.live(edge),
            },
    {
        if edge.slot < self.edges.len() {
            match &self.edges[edge.slot] {
                Some(record) => Some((record.source, record.target)),
                None => None,
            }
        } else {
            None
        }
    }

    /// The node at `node`.
    pub fn node_view(&self, node: NodeIndex) -> (data: Option<&NodeData>)
        ensures
            match data {
                Some(d) => self.node_lives(node) && *d == self.node(node),
                None => !self.node_lives(node),
            },
    {
        if node.slot < self.nodes.len() {
            match &self.nodes[node.slot] {
                Some(data) => Some(data),
                None => None,
            }
        } else {
            None
        }
    }

    /// Takes the relationship at `edge` out of the graph.
    pub fn remove_edge(&mut self, edge: EdgeIndex) -> (removed: Option<EdgeRecord>)
        requires
            old(self).well_formed(),
        ensures
            final(self).well_formed(),
            final(self).nodes == old(self).nodes,
            match removed {
                Some(record) => {
                    &&& old(self).live(edge)
                    &&& record == old(self).record(edge)
                    &&& final(self).edges@ == old(self).edges@.update(edge.slot as int, None)
                    &&& final(self).vacant@ == old(self).vacant@.push(edge.slot)
                },
                None => !old(self).live(edge) && *final(self) == *old(self),
            },
    {
        if edge.slot >= self.edges.len() {
            return None;
        }
        match &self.edges[edge.slot] {
            None => {
                return None;
            },
            Some(_) => {},
        }
        let mut taken: Option<EdgeRecord> = None;
        self.edges.set_and_swap(edge.slot, &mut taken);
        self.vacant.push(edge.slot);
        proof {
            assert forall|i: int, j: int|
                0 <= i < self.vacant.len() && 0 <= j < self.vacant.len() && i != j implies
                self.vacant@[i] != self.vacant@[j] by {
                if i == old(self).vacant.len() {
                    assert(old(self).vacant@[j] != edge.slot);
                } else if j == old(self).vacant.len() {
                    assert(old(self).vacant@[i] != edge.slot);
                }
            }
        }
        taken
    }

    /// Puts a relationship back into the slot it was last taken from.
    pub fn restore_edge(&mut self, edge: EdgeIndex, record: EdgeRecord)
        requires
            old(self).well_formed(),
            old(self).vacant.len() > 0,
            old(self).vacant@.last() == edge.slot,
            old(self).node_lives(record.source),
            old(self).node_lives(record.target),
        ensures
            final(self).well_formed(),
            final(self).nodes == old(self).nodes,
            final(self).edges@ == old(self).edges@.update(edge.slot as int, Some(record)),
            final(self).vacant@ == old(self).vacant@.drop_last(),
    {
        let _ = self.vacant.pop();
        assert(old(self).vacant@[old(self).vacant@.len() - 1] == edge.slot);
        self.edges.set(edge.slot, Some(record));
    }

    /// Replaces the properties of the relationship at `edge`, and gives back the
    /// ones there were.
    pub fn replace_properties(&mut self, edge: EdgeIndex, properties: Vec<Property>) -> (prior: Vec<
        Property,
    >)
        requires
            old(self).well_formed(),
            old(self).live(edge),
        ensures
            final(self).well_formed(),
            final(self).nodes == old(self).nodes,
            final(self).vacant == old(self).vacant,
            prior == old(self).record(edge).data.properties,
            final(self).edges@ == old(self).edges@.update(
                edge.slot as int,
                Some(
                    EdgeRecord {
                        data: EdgeData { properties, ..old(self).record(edge).data },
                        ..old(self).record(edge)
                    },
                ),
            ),
    {
        let mut taken: Option<EdgeRecord> = None;
        self.edges.set_and_swap(edge.slot, &mut taken);
        match taken {
            Some(record) => {
                let prior = record.data.properties;
                let replaced = EdgeRecord {
                    source: record.source,
                    target: record.target,
                    data: EdgeData { connection_type: record.data.connection_type, properties },
                };
                self.edges.set(edge.slot, Some(replaced));
                proof {
                    assert forall|i: int|
                        0 <= i < self.edges@.len() && (#[trigger] self.edges@[i]) is Some implies
                        self.node_lives(self.edges@[i]->0.source) && self.node_lives(
                        self.edges@[i]->0.target,
                    ) by {
                        assert(old(self).edges@[i] is Some);
                    }
                    assert forall|i: int| 0 <= i < self.vacant.len() implies (
                    #[trigger] self.vacant@[i]) < self.edges.len()
                        && self.edges@[self.vacant@[i] as int] is None by {
                        assert(old(self).edges@[old(self).vacant@[i] as int] is None);
                    }
                }
                prior
            },
            None => {
                assert(false);
                properties
            },
        }
    }

    /// The relationships of a type, in slot order.
    pub fn edges_of_type(&self, connection_type: &str) -> (out: Vec<EdgeIndex>)
        ensures
            out@ == typed_edges(self.edges@, connection_type@),
    {
        let mut out: Vec<EdgeIndex> = Vec::new();
        let mut i: usize = 0;
        while i < self.edges.len()
            invariant
                i <= self.edges.len(),
                out@ == typed_edges(self.edges@.take(i as int), connection_type@),
            decreases self.edges.len() - i,
        {
            assert(self.edges@.take(i + 1).drop_last() == self.edges@.take(i as int));
            match &self.edges[i] {
                Some(record) => {
                    if text_eq(record.data.connection_type.as_str(), connection_type) {
                        out.push(EdgeIndex { slot: i });
                    }
                },
                None => {},
            }
            i = i + 1;
        }
        assert(self.edges@.take(i as int) == self.edges@);
        out
    }

    /// The relationships of a type that run from `source` to `target`.
    pub fn edges_connecting(
        &self,
        source: NodeIndex,
        target: NodeIndex,
        connection_type: &str,
    ) -> (out: Vec<EdgeIndex>)
        ensures
            out@ == group_edges(self.edges@, source, target, connection_type@),
    {
        let mut out: Vec<EdgeIndex> = Vec::new();
        let mut i: usize = 0;
        while i < self.edges.len()
            invariant
                i <= self.edges.len(),
                out@ == group_edges(
                    self.edges@.take(i as int),
                    source,
                    target,
                    connection_type@,
                ),
            decreases self.edges.len() - i,
        {
            assert(self.edges@.take(i + 1).drop_last() == self.edges@.take(i as int));
            match &self.edges[i] {
                Some(record) => {
                    if record.source == source && record.target == target && text_eq(
                        record.data.connection_type.as_str(),
                        connection_type,
                    ) {
                        out.push(EdgeIndex { slot: i });
                    }
                },
                None => {},
            }
            i = i + 1;
        }
        assert(self.edges@.take(i as int) == self.edges@);
        out
    }
}

/// A relationship is among those of a type exactly when it lives and is of it,
/// and each is listed once, in slot order.
pub proof fn typed_edges_are_the_live_ones(edges: Seq<Option<EdgeRecord>>, connection_type: Text)
    requires
        edges.len() <= usize::MAX,
    ensures
        forall|e: EdgeIndex|
            typed_edges(edges, connection_type).contains(e) <==> (e.slot < edges.len()
                && edges[e.slot as int] is Some
                && edges[e.slot as int]->0.data.connection_type@ == connection_type),
        forall|i: int, j: int|
            0 <= i < j < typed_edges(edges, connection_type).len() ==> (#[trigger] typed_edges(
                edges,
                connection_type,
            )[i]).slot < (#[trigger] typed_edges(edges, connection_type)[j]).slot,
    decreases edges.len(),
{
    if edges.len() > 0 {
        let front = edges.drop_last();
        typed_edges_are_the_live_ones(front, connection_type);
        let before = typed_edges(front, connection_type);
        let all = typed_edges(edges, connection_type);
        let here = EdgeIndex { slot: (edges.len() - 1) as usize };
        assert forall|i: int| 0 <= i < before.len() implies (#[trigger] before[i]).slot
            < edges.len() - 1 by {
            assert(before.contains(before[i]));
        }
        assert forall|e: EdgeIndex|
            all.contains(e) <==> (e.slot < edges.len() && edges[e.slot as int] is Some
                && edges[e.slot as int]->0.data.connection_type@ == connection_type) by {
            if all.len() > before.len() {
                assert(all == before.push(here));
                if all.contains(e) {
                    let k = all.index_of(e);
                    if k < before.len() {
                        assert(before[k] == e);
                        assert(before.contains(e));
                    }
                }
                if before.contains(e) {
                    assert(all[before.index_of(e)] == e);
                }
                assert(all[before.len() as int] == here);
            }
            if e.slot < edges.len() - 1 {
                assert(front[e.slot as int] == edges[e.slot as int]);
            }
        }
    }
}

/// The value of the first property named `name`.
pub fn get_property<'a>(properties: &'a Vec<Property>, name: &str) -> (value: Option<&'a Value>)
    ensures
        match value {
            Some(v) => property_in(properties@, name@) == Some(v@),
            None => property_in(properties@, name@) is None,
        },
{
    let mut i: usize = 0;
    assert(properties@.skip(0) == properties@);
    while i < properties.len()
        invariant
            i <= properties.len(),
            property_in(properties@, name@) == property_in(properties@.skip(i as int), name@),
        decreases properties.len() - i,
    {
        if text_eq(properties[i].name.as_str(), name) {
            return Some(&properties[i].value);
        }
        assert(properties@.skip(i as int).drop_first() == properties@.skip(i + 1));
        i = i + 1;
    }
    None
}

impl EdgeData {
    /// A relationship of a type, with the properties given.
    pub fn new(connection_type: &str, properties: Vec<Property>) -> (data: EdgeData)
        ensures
            data.connection_type@ == connection_type@,
            data.properties == properties,
    {
        EdgeData { connection_type: connection_type.to_owned(), properties }
    }

    /// The value of a property.
    pub fn get_property(&self, name: &str) -> (value: Option<&Value>)
        ensures
            match value {
                Some(v) => property_in(self.properties@, name@) == Some(v@),
                None => property_in(self.properties@, name@) is None,
            },
    {
        get_property(&self.properties, name)
    }
}

impl NodeData {
    /// A node of a type.
    pub fn new(id: Value, title: Value, node_type: &str, properties: Vec<Property>) -> (data:
        NodeData)
        ensures
            data.id == id,
            data.title == title,
            data.node_type@ == node_type@,
            data.properties == properties,
    {
        NodeData { id, title, node_type: node_type.to_owned(), properties }
    }

    /// The value of a property.
    pub fn get_property(&self, name: &str) -> (value: Option<&Value>)
        ensures
            match value {
                Some(v) => property_in(self.properties@, name@) == Some(v@),
                None => property_in(self.properties@, name@) is None,
            },
    {
        get_property(&self.properties, name)
    }
}

} // verus!
