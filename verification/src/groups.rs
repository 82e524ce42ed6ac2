//! Relationships of a type between the same two nodes, and the keys that tell
//! them apart.

use crate::edge_log::{describe_endpoint, endpoint_text};
use crate::graph::DirGraph;
use crate::text::{decimal, push_number, str_option, Text};
use crate::topology::{group_edges, property_in, Topology};
use crate::value::{push_value, shown_value, EdgeIndex, NodeIndex, Value, ValueModel};
use vstd::hash_map::StringHashMap;
use vstd::prelude::*;

verus! {

/// The key property of each relationship type.
pub struct RelationshipKeys {
    /// The properties, by relationship type.
    pub properties: StringHashMap<String>,
}

impl RelationshipKeys {
    /// The key property of a type.
    pub open spec fn property_of(self, relationship_type: Text) -> Option<Text> {
        if self.properties@.contains_key(relationship_type) {
            Some(self.properties@[relationship_type]@)
        } else {
            None
        }
    }

    /// No key property for any type.
    pub fn new() -> (keys: RelationshipKeys)
        ensures
            forall|t: Text| #[trigger] keys.property_of(t) is None,
    {
        RelationshipKeys { properties: StringHashMap::new() }
    }

    /// Names the key property of a type.
    pub fn insert(&mut self, relationship_type: &str, property: &str)
        ensures
            forall|t: Text|
                #[trigger] final(self).property_of(t) == if t == relationship_type@ {
                    Some(property@)
                } else {
                    old(self).property_of(t)
                },
    {
        self.properties.insert(relationship_type.to_owned(), property.to_owned());
    }

    /// The key property of a type.
    pub fn get(&self, relationship_type: &str) -> (property: Option<&str>)
        ensures
            str_option(property) == self.property_of(relationship_type@),
    {
        match self.properties.get(relationship_type) {
            Some(property) => Some(property.as_str()),
            None => None,
        }
    }
}

/// What describes a group.
pub open spec fn group_text(
    topology: Topology,
    relationship_type: Text,
    source: NodeIndex,
    target: NodeIndex,
    members: nat,
) -> Text {
    decimal(members) + " '"@ + relationship_type + "' relationships connect ("@ + endpoint_text(
        topology,
        source,
    ) + ") to ("@ + endpoint_text(topology, target) + ")"@
}

/// What describes a group.
pub fn describe_group(
    graph: &DirGraph,
    relationship_type: &str,
    source: NodeIndex,
    target: NodeIndex,
    members: usize,
) -> (text: String)
    ensures
        text@ == group_text(graph.topology, relationship_type@, source, target, members as nat),
{
    let mut text = String::new();
    push_number(&mut text, members);
    assert(text@ =~= decimal(members as nat));
    text.append(" '");
    text.append(relationship_type);
    text.append("' relationships connect (");
    let from = describe_endpoint(graph, source);
    text.append(from.as_str());
    text.append(") to (");
    let to = describe_endpoint(graph, target);
    text.append(to.as_str());
    text.append(")");
    text
}

/// The relationships of a type from a node to another, in slot order.
pub fn group_members(
    graph: &DirGraph,
    source: NodeIndex,
    target: NodeIndex,
    relationship_type: &str,
) -> (members: Vec<EdgeIndex>)
    ensures
        members@ == group_edges(graph.topology.edges@, source, target, relationship_type@),
{
    graph.topology.edges_connecting(source, target, relationship_type)
}

/// The value of a relationship's key property: none where it is absent or null.
pub open spec fn key_of(topology: Topology, edge: EdgeIndex, property: Text) -> Option<ValueModel> {
    if topology.live(edge) {
        match property_in(topology.record(edge).data.properties@, property) {
            Some(value) => if value is Null {
                None
            } else {
                Some(value)
            },
            None => None,
        }
    } else {
        None
    }
}

/// The value of a relationship's key property: none where it is absent or null.
pub fn key_value<'a>(graph: &'a DirGraph, edge: EdgeIndex, property: &str) -> (value: Option<
    &'a Value,
>)
    ensures
        match value {
            Some(v) => key_of(graph.topology, edge, property@) == Some(v@),
            None => key_of(graph.topology, edge, property@) is None,
        },
{
    match graph.topology.edge_weight(edge) {
        Some(data) => match data.get_property(property) {
            Some(value) => if value.is_null() {
                None
            } else {
                Some(value)
            },
            None => None,
        },
        None => None,
    }
}

/// Whether one of the first `count` members has a key value.
pub open spec fn key_taken(
    topology: Topology,
    members: Seq<EdgeIndex>,
    property: Text,
    value: ValueModel,
    count: int,
) -> bool {
    exists|i: int|
        0 <= i < count && key_of(topology, #[trigger] members[i], property) == Some(value)
}

/// Why the key cannot tell the members apart, from `position` on: one has no
/// value, or two have the same.
pub open spec fn keys_fault(
    topology: Topology,
    members: Seq<EdgeIndex>,
    property: Text,
    position: int,
) -> Option<Text>
    decreases members.len() - position,
{
    if position < 0 || position >= members.len() {
        None
    } else {
        match key_of(topology, members[position], property) {
            None => Some("a member has no '"@ + property + "' value"@),
            Some(value) => if key_taken(topology, members, property, value, position) {
                Some(
                    "'"@ + property + "' repeats the value "@ + shown_value(value)
                        + " within the group"@,
                )
            } else {
                keys_fault(topology, members, property, position + 1)
            },
        }
    }
}

/// Whether the key tells the members apart.
pub open spec fn keyed_apart(topology: Topology, members: Seq<EdgeIndex>, property: Text) -> bool {
    &&& forall|i: int|
        0 <= i < members.len() ==> key_of(topology, #[trigger] members[i], property) is Some
    &&& forall|i: int, j: int|
        0 <= i < j < members.len() ==> key_of(topology, #[trigger] members[i], property) != key_of(
            topology,
            #[trigger] members[j],
            property,
        )
}

proof fn no_keys_fault_at(
    topology: Topology,
    members: Seq<EdgeIndex>,
    property: Text,
    from: int,
    at: int,
)
    requires
        0 <= from <= at < members.len(),
        keys_fault(topology, members, property, from) is None,
    ensures
        key_of(topology, members[at], property) is Some,
        !key_taken(
            topology,
            members,
            property,
            key_of(topology, members[at], property)->0,
            at,
        ),
    decreases at - from,
{
    if from < at {
        no_keys_fault_at(topology, members, property, from + 1, at);
    }
}

/// A key without a fault tells the members apart.
pub proof fn faultless_keys_tell_apart(
    topology: Topology,
    members: Seq<EdgeIndex>,
    property: Text,
)
    requires
        keys_fault(topology, members, property, 0) is None,
    ensures
        keyed_apart(topology, members, property),
{
    assert forall|i: int| 0 <= i < members.len() implies key_of(
        topology,
        #[trigger] members[i],
        property,
    ) is Some by {
        no_keys_fault_at(topology, members, property, 0, i);
    }
    assert forall|i: int, j: int| 0 <= i < j < members.len() implies key_of(
        topology,
        #[trigger] members[i],
        property,
    ) != key_of(topology, #[trigger] members[j], property) by {
        no_keys_fault_at(topology, members, property, 0, i);
        no_keys_fault_at(topology, members, property, 0, j);
    }
}

fn holds_key(
    graph: &DirGraph,
    members: &Vec<EdgeIndex>,
    property: &str,
    value: &Value,
    count: usize,
) -> (taken: bool)
    requires
        count <= members@.len(),
    ensures
        taken == key_taken(graph.topology, members@, property@, value@, count as int),
{
    let mut i: usize = 0;
    while i < count
        invariant
            i <= count,
            count <= members@.len(),
            !key_taken(graph.topology, members@, property@, value@, i as int),
        decreases count - i,
    {
        match key_value(graph, members[i], property) {
            Some(found) => {
                if found.same(value) {
                    assert(key_of(graph.topology, members@[i as int], property@) == Some(value@));
                    return true;
                }
            },
            None => {},
        }
        i = i + 1;
    }
    false
}

/// Refuses members that the key does not tell apart.
pub fn group_keys(graph: &DirGraph, members: &Vec<EdgeIndex>, property: &str) -> (result: Result<
    (),
    String,
>)
    ensures
        match result {
            Ok(_) => keys_fault(graph.topology, members@, property@, 0) is None,
            Err(message) => keys_fault(graph.topology, members@, property@, 0) == Some(message@),
        },
{
    let mut i: usize = 0;
    while i < members.len()
        invariant
            i <= members@.len(),
            keys_fault(graph.topology, members@, property@, 0) == keys_fault(
                graph.topology,
                members@,
                property@,
                i as int,
            ),
        decreases members@.len() - i,
    {
        match key_value(graph, members[i], property) {
            Some(value) => {
                if holds_key(graph, members, property, value, i) {
                    let mut message = "'".to_owned();
                    message.append(property);
                    message.append("' repeats the value ");
                    push_value(&mut message, value);
                    message.append(" within the group");
                    return Err(message);
                }
            },
            None => {
                let mut message = "a member has no '".to_owned();
                message.append(property);
                message.append("' value");
                return Err(message);
            },
        }
        i = i + 1;
    }
    Ok(())
}

/// The first member, from `position`, whose key has a value.
pub open spec fn member_with_key(
    topology: Topology,
    members: Seq<EdgeIndex>,
    property: Text,
    value: ValueModel,
    position: int,
) -> Option<EdgeIndex>
    decreases members.len() - position,
{
    if position < 0 || position >= members.len() {
        None
    } else if key_of(topology, members[position], property) == Some(value) {
        Some(members[position])
    } else {
        member_with_key(topology, members, property, value, position + 1)
    }
}

/// The first member whose key has a value.
pub fn find_member(
    graph: &DirGraph,
    members: &Vec<EdgeIndex>,
    property: &str,
    value: &Value,
) -> (member: Option<EdgeIndex>)
    ensures
        member == member_with_key(graph.topology, members@, property@, value@, 0),
{
    let mut i: usize = 0;
    while i < members.len()
        invariant
            i <= members@.len(),
            member_with_key(graph.topology, members@, property@, value@, 0) == member_with_key(
                graph.topology,
                members@,
                property@,
                value@,
                i as int,
            ),
        decreases members@.len() - i,
    {
        match key_value(graph, members[i], property) {
            Some(found) => {
                if found.same(value) {
                    return Some(members[i]);
                }
            },
            None => {},
        }
        i = i + 1;
    }
    None
}

pub(crate) proof fn member_is_listed(
    topology: Topology,
    members: Seq<EdgeIndex>,
    property: Text,
    value: ValueModel,
    position: int,
)
    requires
        0 <= position,
    ensures
        match member_with_key(topology, members, property, value, position) {
            Some(edge) => key_of(topology, edge, property) == Some(value) && exists|i: int|
                position <= i < members.len() && #[trigger] members[i] == edge,
            None => forall|i: int|
                position <= i < members.len() ==> key_of(topology, #[trigger] members[i], property)
                    != Some(value),
        },
    decreases members.len() - position,
{
    if position < members.len() && key_of(topology, members[position], property) != Some(value) {
        member_is_listed(topology, members, property, value, position + 1);
    } else if position < members.len() {
        assert(members[position] == members[position]);
    }
}

/// Where the key tells the members apart, its value picks one member, and it is
/// the only one: the order of the members does not matter.
pub proof fn a_key_picks_one_member(
    topology: Topology,
    members: Seq<EdgeIndex>,
    property: Text,
    member: EdgeIndex,
)
    requires
        keyed_apart(topology, members, property),
        members.contains(member),
    ensures
        member_with_key(
            topology,
            members,
            property,
            key_of(topology, member, property)->0,
            0,
        ) == Some(member),
{
    let at = members.index_of(member);
    assert(members[at] == member);
    let value = key_of(topology, member, property)->0;
    member_is_listed(topology, members, property, value, 0);
    assert(key_of(topology, members[at], property) == Some(value));
    let found = member_with_key(topology, members, property, value, 0);
    assert(found is Some);
    let i = choose|i: int| 0 <= i < members.len() && #[trigger] members[i] == found->0;
    if i < at {
        assert(key_of(topology, members[i], property) != key_of(topology, members[at], property));
    }
    if at < i {
        assert(key_of(topology, members[at], property) != key_of(topology, members[i], property));
    }
}

} // verus!
