//! Reading a property of a relationship: its own value, or what it is.

use crate::graph::DirGraph;
use crate::text::{text_eq, Text};
use crate::topology::{get_property, property_in, EdgeData, Property, Topology};
use crate::value::{model_option, EdgeIndex, NodeIndex, Value, ValueModel};
use vstd::prelude::*;

verus! {

/// What a relationship is, beside its own properties.
pub struct RelationshipEnvelope<'a> {
    /// The relationship's slot.
    pub id: usize,
    /// The relationship's type.
    pub rel_type: &'a str,
    /// Where it starts.
    pub source: NodeIndex,
    /// Where it ends.
    pub target: NodeIndex,
}

/// What an envelope says.
pub struct EnvelopeModel {
    pub id: usize,
    pub rel_type: Text,
    pub source: NodeIndex,
    pub target: NodeIndex,
}

impl<'a> View for RelationshipEnvelope<'a> {
    type V = EnvelopeModel;

    open spec fn view(&self) -> EnvelopeModel {
        EnvelopeModel {
            id: self.id,
            rel_type: self.rel_type@,
            source: self.source,
            target: self.target,
        }
    }
}

/// A relationship as a value of its own.
#[derive(Debug, Clone)]
pub struct RelValue {
    /// The relationship's slot.
    pub id: usize,
    /// The relationship's type.
    pub rel_type: String,
    /// The slot of the node where it starts.
    pub start_id: usize,
    /// The slot of the node where it ends.
    pub end_id: usize,
    /// The relationship's own properties.
    pub properties: Vec<Property>,
}

/// A relationship as it is met in the graph.
pub struct GraphEdgeRef<'a> {
    /// The relationship.
    pub id: EdgeIndex,
    /// Its type.
    pub connection_type: &'a str,
    /// Where it starts.
    pub source: NodeIndex,
    /// Where it ends.
    pub target: NodeIndex,
}

/// The id of a node, null where no node lives.
pub open spec fn id_of(topology: Topology, node: NodeIndex) -> ValueModel {
    if topology.node_lives(node) {
        topology.node(node).id@
    } else {
        ValueModel::Null
    }
}

/// What a relationship is under a key, null under a key that names nothing.
pub open spec fn envelope_value(topology: Topology, key: Text, envelope: EnvelopeModel) -> ValueModel {
    if key == "type"@ || key == "connection_type"@ {
        ValueModel::String(envelope.rel_type)
    } else if key == "id"@ {
        ValueModel::Int64(envelope.id as i64)
    } else if key == "start"@ || key == "start_id"@ {
        id_of(topology, envelope.source)
    } else if key == "end"@ || key == "end_id"@ {
        id_of(topology, envelope.target)
    } else {
        ValueModel::Null
    }
}

/// What a relationship has under a key: its own value where it has one that is
/// not null, else what it is.
pub open spec fn property_read(
    topology: Topology,
    stored: Option<ValueModel>,
    key: Text,
    envelope: EnvelopeModel,
) -> ValueModel {
    if stored is Some && stored->0 != ValueModel::Null {
        stored->0
    } else {
        envelope_value(topology, key, envelope)
    }
}

fn node_id(graph: &DirGraph, node: NodeIndex) -> (id: Value)
    ensures
        id@ == id_of(graph.topology, node),
{
    match graph.topology.node_view(node) {
        Some(data) => data.id.copy(),
        None => Value::Null,
    }
}

fn envelope_property(graph: &DirGraph, key: &str, envelope: &RelationshipEnvelope<'_>) -> (value:
    Value)
    ensures
        value@ == envelope_value(graph.topology, key@, envelope@),
{
    if text_eq(key, "type") || text_eq(key, "connection_type") {
        Value::String(envelope.rel_type.to_owned())
    } else if text_eq(key, "id") {
        Value::Int64(envelope.id as i64)
    } else if text_eq(key, "start") || text_eq(key, "start_id") {
        node_id(graph, envelope.source)
    } else if text_eq(key, "end") || text_eq(key, "end_id") {
        node_id(graph, envelope.target)
    } else {
        Value::Null
    }
}

/// What a relationship has under a key: its own value where it has one that is
/// not null, else what it is.
pub fn relationship_property(
    graph: &DirGraph,
    stored: Option<Value>,
    key: &str,
    envelope: RelationshipEnvelope<'_>,
) -> (value: Value)
    ensures
        value@ == property_read(graph.topology, model_option(stored), key@, envelope@),
{
    if let Some(value) = stored {
        if !value.is_null() {
            return value;
        }
    }
    envelope_property(graph, key, &envelope)
}

/// What a relationship value is, beside its own properties.
pub open spec fn envelope_of_value(rel: RelValue) -> EnvelopeModel {
    EnvelopeModel {
        id: rel.id,
        rel_type: rel.rel_type@,
        source: NodeIndex { slot: rel.start_id },
        target: NodeIndex { slot: rel.end_id },
    }
}

/// What a relationship value has under a key.
pub fn relationship_value_property(graph: &DirGraph, rel: &RelValue, key: &str) -> (value: Value)
    ensures
        value@ == property_read(
            graph.topology,
            property_in(rel.properties@, key@),
            key@,
            envelope_of_value(*rel),
        ),
{
    let stored: Option<Value> = match get_property(&rel.properties, key) {
        Some(value) => Some(value.copy()),
        None => None,
    };
    relationship_property(
        graph,
        stored,
        key,
        RelationshipEnvelope {
            id: rel.id,
            rel_type: rel.rel_type.as_str(),
            source: NodeIndex::new(rel.start_id),
            target: NodeIndex::new(rel.end_id),
        },
    )
}

/// What a relationship in the graph is, beside its own properties.
pub open spec fn envelope_of_edge(edge: GraphEdgeRef<'_>) -> EnvelopeModel {
    EnvelopeModel {
        id: edge.id.slot,
        rel_type: edge.connection_type@,
        source: edge.source,
        target: edge.target,
    }
}

/// What a relationship in the graph has under a key. There is always an answer.
pub fn edge_ref_property(graph: &DirGraph, edge: &GraphEdgeRef<'_>, data: &EdgeData, key: &str) -> (value:
    Option<Value>)
    ensures
        value is Some,
        value->0@ == property_read(
            graph.topology,
            property_in(data.properties@, key@),
            key@,
            envelope_of_edge(*edge),
        ),
{
    if let Some(value) = data.get_property(key) {
        if !value.is_null() {
            return Some(value.copy());
        }
    }
    let envelope = RelationshipEnvelope {
        id: edge.id.slot,
        rel_type: edge.connection_type,
        source: edge.source,
        target: edge.target,
    };
    Some(envelope_property(graph, key, &envelope))
}

/// A relationship's own value always wins over what it is, whatever the key.
pub proof fn a_stored_property_wins(
    topology: Topology,
    value: ValueModel,
    key: Text,
    envelope: EnvelopeModel,
)
    requires
        value != ValueModel::Null,
    ensures
        property_read(topology, Some(value), key, envelope) == value,
        property_read(topology, Some(ValueModel::Null), key, envelope) == property_read(
            topology,
            None,
            key,
            envelope,
        ),
{
}

/// A filter and a projection agree: a relationship reads the same whether it is
/// met in the graph or is a value of its own.
pub proof fn every_reader_agrees(
    topology: Topology,
    edge: EdgeIndex,
    met: GraphEdgeRef<'_>,
    rel: RelValue,
    key: Text,
)
    requires
        topology.live(edge),
        met.id == edge,
        met.connection_type@ == topology.type_of(edge),
        met.source == topology.record(edge).source,
        met.target == topology.record(edge).target,
        rel.id == edge.slot,
        rel.rel_type@ == topology.type_of(edge),
        rel.start_id == topology.record(edge).source.slot,
        rel.end_id == topology.record(edge).target.slot,
        property_in(rel.properties@, key) == property_in(
            topology.record(edge).data.properties@,
            key,
        ),
    ensures
        property_read(
            topology,
            property_in(topology.record(edge).data.properties@, key),
            key,
            envelope_of_edge(met),
        ) == property_read(
            topology,
            property_in(rel.properties@, key),
            key,
            envelope_of_value(rel),
        ),
{
    assert(met.source == NodeIndex { slot: rel.start_id });
    assert(met.target == NodeIndex { slot: rel.end_id });
}

} // verus!
