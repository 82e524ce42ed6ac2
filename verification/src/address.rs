//! Naming a relationship by its endpoints and, in a parallel group, by a key.

use crate::graph::{node_by_id, DirGraph};
use crate::groups::{
    a_key_picks_one_member, describe_group, find_member, group_keys, group_members, group_text,
    key_of, key_value, keyed_apart, keys_fault, member_with_key, RelationshipKeys,
};
use crate::order::{ascending, ascending_of_items, ascends};
use crate::text::{
    insert_text, join, joined, str_option, text_eq, text_option, text_order, text_order_is_order,
    texts, Text,
};
use crate::topology::{group_edges, Topology};
use crate::value::{
    model_option, push_value, shown_value, EdgeIndex, NodeIndex, Value, ValueModel,
};
use vstd::prelude::*;

verus! {

/// A vector and the relationship it belongs to. The endpoint types may be left
/// out where every relationship of the type runs between one source type and
/// one target type; the key is needed in a parallel group only.
#[derive(Debug, Clone)]
pub struct RelationshipVector {
    /// The source node's type.
    pub source_type: Option<String>,
    /// The source node's id.
    pub source_id: Value,
    /// The target node's type.
    pub target_type: Option<String>,
    /// The target node's id.
    pub target_id: Value,
    /// The relationship's key value.
    pub key: Option<Value>,
    /// The vector.
    pub vector: Vec<u32>,
}

/// What a row says.
pub struct RowModel {
    pub source_type: Option<Text>,
    pub source_id: ValueModel,
    pub target_type: Option<Text>,
    pub target_id: ValueModel,
    pub key: Option<ValueModel>,
    pub vector: Seq<u32>,
}

impl View for RelationshipVector {
    type V = RowModel;

    open spec fn view(&self) -> RowModel {
        RowModel {
            source_type: text_option(self.source_type),
            source_id: self.source_id@,
            target_type: text_option(self.target_type),
            target_id: self.target_id@,
            key: model_option(self.key),
            vector: self.vector@,
        }
    }
}

/// A side of a relationship.
#[derive(Debug, Clone, Copy, PartialEq, Eq, Structural)]
pub enum Side {
    /// Where it starts.
    Source,
    /// Where it ends.
    Target,
}

impl Side {
    /// The side's name.
    pub open spec fn text(self) -> Text {
        match self {
            Side::Source => "source"@,
            Side::Target => "target"@,
        }
    }

    fn as_str(self) -> (name: &'static str)
        ensures
            name@ == self.text(),
    {
        match self {
            Side::Source => "source",
            Side::Target => "target",
        }
    }
}

/// The node at a side of a relationship.
pub open spec fn end_of(topology: Topology, edge: EdgeIndex, side: Side) -> NodeIndex {
    match side {
        Side::Source => topology.record(edge).source,
        Side::Target => topology.record(edge).target,
    }
}

/// The node types at a side of the relationships of a type in the first
/// `count` slots.
pub open spec fn types_at(topology: Topology, relationship_type: Text, side: Side, count: int) -> Set<
    Text,
> {
    Set::new(
        |t: Text|
            exists|i: int|
                0 <= i < count && (#[trigger] topology.edges@[i]) is Some
                    && topology.edges@[i]->0.data.connection_type@ == relationship_type
                    && topology.node(end_of(topology, EdgeIndex { slot: i as usize }, side)).node_type@
                    == t,
    )
}

/// The node types at a side of the relationships of a type, in order.
pub open spec fn end_types(topology: Topology, relationship_type: Text, side: Side) -> Seq<Text> {
    ascending(
        types_at(topology, relationship_type, side, topology.edges@.len() as int),
        text_order(),
    )
}

fn scan_end_types(graph: &DirGraph, relationship_type: &str, side: Side) -> (types: Vec<String>)
    requires
        graph.well_formed(),
    ensures
        texts(types@) == end_types(graph.topology, relationship_type@, side),
{
    let ghost edges = graph.topology.edges@;
    let mut types: Vec<String> = Vec::new();
    assert(texts(types@).to_set() =~= types_at(graph.topology, relationship_type@, side, 0));
    let mut i: usize = 0;
    while i < graph.topology.edges.len()
        invariant
            i <= graph.topology.edges@.len(),
            graph.well_formed(),
            edges == graph.topology.edges@,
            ascends(texts(types@), text_order()),
            texts(types@).to_set() == types_at(graph.topology, relationship_type@, side, i as int),
        decreases graph.topology.edges@.len() - i,
    {
        let ghost before = texts(types@).to_set();
        match &graph.topology.edges[i] {
            Some(record) => {
                if text_eq(record.data.connection_type.as_str(), relationship_type) {
                    let node = match side {
                        Side::Source => record.source,
                        Side::Target => record.target,
                    };
                    assert(edges[i as int] is Some);
                    match graph.topology.node_view(node) {
                        Some(data) => {
                            insert_text(&mut types, data.node_type.as_str());
                        },
                        None => {
                            assert(false);
                        },
                    }
                }
            },
            None => {},
        }
        proof {
            let topology = graph.topology;
            assert(texts(types@).to_set() =~= types_at(
                topology,
                relationship_type@,
                side,
                i + 1,
            )) by {
                assert forall|t: Text|
                    texts(types@).to_set().contains(t) <==> types_at(
                        topology,
                        relationship_type@,
                        side,
                        i + 1,
                    ).contains(t) by {
                    assert(before.contains(t) <==> types_at(
                        topology,
                        relationship_type@,
                        side,
                        i as int,
                    ).contains(t));
                    if texts(types@).to_set().contains(t) && !before.contains(t) {
                        assert(topology.edges@[i as int] is Some);
                    }
                }
            }
        }
        i = i + 1;
    }
    proof {
        text_order_is_order();
        ascending_of_items(texts(types@), text_order());
    }
    types
}

/// The refusal of an address that leaves out a node type.
pub open spec fn untyped_text(
    prefix: Text,
    side: Side,
    relationship_type: Text,
    types: Seq<Text>,
) -> Text {
    prefix + "names no "@ + side.text() + " node type, and "@ + (if types.len() == 0 {
        "no '"@ + relationship_type + "' relationship exists"@
    } else {
        "'"@ + relationship_type + "' relationships have "@ + side.text() + " nodes of types "@
            + joined(types, ", "@)
    }) + "; address it by (source_type, source_id, target_type, target_id)"@
}

/// The node type of a side: the one given, else the only one there is.
pub open spec fn picked_type(
    given: Option<Text>,
    prefix: Text,
    side: Side,
    relationship_type: Text,
    types: Seq<Text>,
) -> Result<Text, Text> {
    match given {
        Some(t) => Ok(t),
        None => if types.len() == 1 {
            Ok(types[0])
        } else {
            Err(untyped_text(prefix, side, relationship_type, types))
        },
    }
}

/// What a result of texts says.
pub open spec fn said<A>(result: Result<A, String>) -> Result<A, Text> {
    match result {
        Ok(a) => Ok(a),
        Err(message) => Err(message@),
    }
}

fn pick_type(
    given: Option<&str>,
    prefix: &str,
    side: Side,
    relationship_type: &str,
    types: &Vec<String>,
) -> (result: Result<String, String>)
    ensures
        match result {
            Ok(t) => picked_type(
                str_option(given),
                prefix@,
                side,
                relationship_type@,
                texts(types@),
            ) == Ok::<Text, Text>(t@),
            Err(message) => picked_type(
                str_option(given),
                prefix@,
                side,
                relationship_type@,
                texts(types@),
            ) == Err::<Text, Text>(message@),
        },
{
    if let Some(t) = given {
        return Ok(t.to_owned());
    }
    if types.len() == 1 {
        return Ok(types[0].as_str().to_owned());
    }
    let mut found = String::new();
    if types.len() == 0 {
        found.append("no '");
        found.append(relationship_type);
        found.append("' relationship exists");
        assert(found@ =~= "no '"@ + relationship_type@ + "' relationship exists"@);
    } else {
        found.append("'");
        found.append(relationship_type);
        found.append("' relationships have ");
        found.append(side.as_str());
        found.append(" nodes of types ");
        let list = join(types, ", ");
        found.append(list.as_str());
        assert(found@ =~= "'"@ + relationship_type@ + "' relationships have "@ + side.text()
            + " nodes of types "@ + joined(texts(types@), ", "@));
    }
    let mut message = prefix.to_owned();
    message.append("names no ");
    message.append(side.as_str());
    message.append(" node type, and ");
    message.append(found.as_str());
    message.append("; address it by (source_type, source_id, target_type, target_id)");
    Err(message)
}

/// An address with both node types.
pub struct AddressModel {
    pub prefix: Text,
    pub source_type: Text,
    pub source_id: ValueModel,
    pub target_type: Text,
    pub target_id: ValueModel,
}

/// What an address reads as.
pub open spec fn address_text(address: AddressModel, relationship_type: Text) -> Text {
    address.prefix + "("@ + address.source_type + " id="@ + shown_value(address.source_id) + ")-[:"@
        + relationship_type + "]->("@ + address.target_type + " id="@ + shown_value(
        address.target_id,
    ) + ")"@
}

/// The refusal of an address whose endpoint does not exist.
pub open spec fn no_node_text(
    address: AddressModel,
    relationship_type: Text,
    node_type: Text,
    id: ValueModel,
) -> Text {
    address_text(address, relationship_type) + ": no '"@ + node_type + "' node has id "@
        + shown_value(id)
}

/// The refusal of an address whose nodes are not connected.
pub open spec fn unconnected_text(address: AddressModel, relationship_type: Text) -> Text {
    address_text(address, relationship_type) + ": no '"@ + relationship_type
        + "' relationship connects those nodes"@
}

/// The only relationship between two nodes, where the key is not another's.
pub open spec fn single_resolved(
    topology: Topology,
    relationship_type: Text,
    key_property: Option<Text>,
    address: AddressModel,
    key: Option<ValueModel>,
    only: EdgeIndex,
) -> Result<EdgeIndex, Text> {
    match key {
        None => Ok(only),
        Some(wanted) => match key_property {
            None => Err(
                address_text(address, relationship_type) + " gives key "@ + shown_value(wanted)
                    + ", but relationship_keys names no key property for '"@ + relationship_type
                    + "'"@,
            ),
            Some(property) => if key_of(topology, only, property) == Some(wanted) {
                Ok(only)
            } else {
                Err(
                    address_text(address, relationship_type) + ": the '"@ + relationship_type
                        + "' relationship between those nodes has "@ + property + "="@ + match key_of(
                        topology,
                        only,
                        property,
                    ) {
                        Some(found) => shown_value(found),
                        None => "no value"@,
                    } + ", not "@ + shown_value(wanted),
                )
            },
        },
    }
}

/// The refusal of an address that does not tell a group's members apart.
pub open spec fn ambiguous_text(
    address: AddressModel,
    relationship_type: Text,
    group: Text,
    reason: Text,
) -> Text {
    address_text(address, relationship_type) + " is ambiguous: "@ + group + ", and "@ + reason
        + ". A parallel group is written only through a key property whose value is unique within the group: pass relationship_keys={'"@
        + relationship_type + "': '<property>'} and give each row its key"@
}

/// The member of a parallel group that a key picks.
pub open spec fn member_resolved(
    topology: Topology,
    relationship_type: Text,
    key_property: Option<Text>,
    address: AddressModel,
    key: Option<ValueModel>,
    source: NodeIndex,
    target: NodeIndex,
    members: Seq<EdgeIndex>,
) -> Result<EdgeIndex, Text> {
    let group = group_text(topology, relationship_type, source, target, members.len());
    match key_property {
        None => Err(
            ambiguous_text(
                address,
                relationship_type,
                group,
                "relationship_keys names no key property for '"@ + relationship_type + "'"@,
            ),
        ),
        Some(property) => match keys_fault(topology, members, property, 0) {
            Some(reason) => Err(ambiguous_text(address, relationship_type, group, reason)),
            None => match key {
                None => Err(
                    ambiguous_text(
                        address,
                        relationship_type,
                        group,
                        "the row gives no key value"@,
                    ),
                ),
                Some(wanted) => match member_with_key(topology, members, property, wanted, 0) {
                    Some(edge) => Ok(edge),
                    None => Err(
                        address_text(address, relationship_type) + ": "@ + group
                            + ", and none has "@ + property + "="@ + shown_value(wanted),
                    ),
                },
            },
        },
    }
}

/// The relationship that an address names, or why it names none or several.
pub open spec fn resolved(
    graph: DirGraph,
    relationship_type: Text,
    key_property: Option<Text>,
    address: AddressModel,
    key: Option<ValueModel>,
) -> Result<EdgeIndex, Text> {
    match node_by_id(graph, address.source_type, address.source_id) {
        None => Err(
            no_node_text(address, relationship_type, address.source_type, address.source_id),
        ),
        Some(source) => match node_by_id(graph, address.target_type, address.target_id) {
            None => Err(
                no_node_text(address, relationship_type, address.target_type, address.target_id),
            ),
            Some(target) => {
                let members = group_edges(
                    graph.topology.edges@,
                    source,
                    target,
                    relationship_type,
                );
                if members.len() == 0 {
                    Err(unconnected_text(address, relationship_type))
                } else if members.len() == 1 {
                    single_resolved(
                        graph.topology,
                        relationship_type,
                        key_property,
                        address,
                        key,
                        members[0],
                    )
                } else {
                    member_resolved(
                        graph.topology,
                        relationship_type,
                        key_property,
                        address,
                        key,
                        source,
                        target,
                        members,
                    )
                }
            },
        },
    }
}

/// An address with both node types.
struct Address<'a> {
    prefix: &'a str,
    relationship_type: &'a str,
    source_type: &'a str,
    source_id: &'a Value,
    target_type: &'a str,
    target_id: &'a Value,
}

impl<'a> Address<'a> {
    spec fn model(self) -> AddressModel {
        AddressModel {
            prefix: self.prefix@,
            source_type: self.source_type@,
            source_id: self.source_id@,
            target_type: self.target_type@,
            target_id: self.target_id@,
        }
    }

    fn describe(&self) -> (text: String)
        ensures
            text@ == address_text(self.model(), self.relationship_type@),
    {
        let mut text = self.prefix.to_owned();
        text.append("(");
        text.append(self.source_type);
        text.append(" id=");
        push_value(&mut text, self.source_id);
        text.append(")-[:");
        text.append(self.relationship_type);
        text.append("]->(");
        text.append(self.target_type);
        text.append(" id=");
        push_value(&mut text, self.target_id);
        text.append(")");
        text
    }

    fn no_node(&self, node_type: &str, id: &Value) -> (message: String)
        ensures
            message@ == no_node_text(self.model(), self.relationship_type@, node_type@, id@),
    {
        let mut message = self.describe();
        message.append(": no '");
        message.append(node_type);
        message.append("' node has id ");
        push_value(&mut message, id);
        message
    }

    fn ambiguous(&self, group: &str, reason: &str) -> (message: String)
        ensures
            message@ == ambiguous_text(self.model(), self.relationship_type@, group@, reason@),
    {
        let mut message = self.describe();
        message.append(" is ambiguous: ");
        message.append(group);
        message.append(", and ");
        message.append(reason);
        message.append(
            ". A parallel group is written only through a key property whose value is unique within the group: pass relationship_keys={'",
        );
        message.append(self.relationship_type);
        message.append("': '<property>'} and give each row its key");
        message
    }
}

/// The resolver of one relationship type.
struct Resolver<'a> {
    graph: &'a DirGraph,
    key_property: Option<&'a str>,
}

impl<'a> Resolver<'a> {
    fn check_single(&self, only: EdgeIndex, key: Option<&Value>, address: &Address) -> (result:
        Result<EdgeIndex, String>)
        ensures
            said(result) == single_resolved(
                self.graph.topology,
                address.relationship_type@,
                str_option(self.key_property),
                address.model(),
                match key {
                    Some(k) => Some(k@),
                    None => None,
                },
                only,
            ),
    {
        let wanted = match key {
            Some(wanted) => wanted,
            None => {
                return Ok(only);
            },
        };
        let property = match self.key_property {
            Some(property) => property,
            None => {
                let mut message = address.describe();
                message.append(" gives key ");
                push_value(&mut message, wanted);
                message.append(", but relationship_keys names no key property for '");
                message.append(address.relationship_type);
                message.append("'");
                return Err(message);
            },
        };
        let found = key_value(self.graph, only, property);
        if let Some(value) = found {
            if value.same(wanted) {
                return Ok(only);
            }
        }
        let mut message = address.describe();
        message.append(": the '");
        message.append(address.relationship_type);
        message.append("' relationship between those nodes has ");
        message.append(property);
        message.append("=");
        match found {
            Some(value) => {
                push_value(&mut message, value);
            },
            None => {
                message.append("no value");
            },
        }
        message.append(", not ");
        push_value(&mut message, wanted);
        Err(message)
    }

    fn pick_member(
        &self,
        members: &Vec<EdgeIndex>,
        key: Option<&Value>,
        source: NodeIndex,
        target: NodeIndex,
        address: &Address,
    ) -> (result: Result<EdgeIndex, String>)
        ensures
            said(result) == member_resolved(
                self.graph.topology,
                address.relationship_type@,
                str_option(self.key_property),
                address.model(),
                match key {
                    Some(k) => Some(k@),
                    None => None,
                },
                source,
                target,
                members@,
            ),
    {
        let group = describe_group(
            self.graph,
            address.relationship_type,
            source,
            target,
            members.len(),
        );
        let property = match self.key_property {
            Some(property) => property,
            None => {
                let mut reason = "relationship_keys names no key property for '".to_owned();
                reason.append(address.relationship_type);
                reason.append("'");
                return Err(address.ambiguous(group.as_str(), reason.as_str()));
            },
        };
        match group_keys(self.graph, members, property) {
            Ok(_) => {},
            Err(reason) => {
                return Err(address.ambiguous(group.as_str(), reason.as_str()));
            },
        }
        let wanted = match key {
            Some(wanted) => wanted,
            None => {
                return Err(address.ambiguous(group.as_str(), "the row gives no key value"));
            },
        };
        match find_member(self.graph, members, property, wanted) {
            Some(edge) => Ok(edge),
            None => {
                let mut message = address.describe();
                message.append(": ");
                message.append(group.as_str());
                message.append(", and none has ");
                message.append(property);
                message.append("=");
                push_value(&mut message, wanted);
                Err(message)
            },
        }
    }

    fn resolve(&self, address: &Address, key: Option<&Value>) -> (result: Result<EdgeIndex, String>)
        ensures
            said(result) == resolved(
                *self.graph,
                address.relationship_type@,
                str_option(self.key_property),
                address.model(),
                match key {
                    Some(k) => Some(k@),
                    None => None,
                },
            ),
    {
        let source = match self.graph.lookup_by_id(address.source_type, address.source_id) {
            Some(node) => node,
            None => {
                return Err(address.no_node(address.source_type, address.source_id));
            },
        };
        let target = match self.graph.lookup_by_id(address.target_type, address.target_id) {
            Some(node) => node,
            None => {
                return Err(address.no_node(address.target_type, address.target_id));
            },
        };
        let members = group_members(self.graph, source, target, address.relationship_type);
        if members.len() == 0 {
            let mut message = address.describe();
            message.append(": no '");
            message.append(address.relationship_type);
            message.append("' relationship connects those nodes");
            return Err(message);
        }
        if members.len() == 1 {
            return self.check_single(members[0], key, address);
        }
        self.pick_member(&members, key, source, target, address)
    }
}

/// The relationship that a row names: its node types filled in, then its
/// address resolved.
pub open spec fn row_resolved(
    graph: DirGraph,
    relationship_type: Text,
    key_property: Option<Text>,
    row: RowModel,
    prefix: Text,
) -> Result<EdgeIndex, Text> {
    let sources = end_types(graph.topology, relationship_type, Side::Source);
    let targets = end_types(graph.topology, relationship_type, Side::Target);
    match picked_type(row.source_type, prefix, Side::Source, relationship_type, sources) {
        Err(message) => Err(message),
        Ok(source_type) => match picked_type(
            row.target_type,
            prefix,
            Side::Target,
            relationship_type,
            targets,
        ) {
            Err(message) => Err(message),
            Ok(target_type) => resolved(
                graph,
                relationship_type,
                key_property,
                AddressModel {
                    prefix,
                    source_type,
                    source_id: row.source_id,
                    target_type,
                    target_id: row.target_id,
                },
                row.key,
            ),
        },
    }
}

/// The node types that rows may leave out.
pub(crate) struct DefaultEndpoints {
    sources: Vec<String>,
    targets: Vec<String>,
}

impl DefaultEndpoints {
    pub(crate) closed spec fn of(self, graph: DirGraph, relationship_type: Text) -> bool {
        &&& texts(self.sources@) == end_types(graph.topology, relationship_type, Side::Source)
        &&& texts(self.targets@) == end_types(graph.topology, relationship_type, Side::Target)
    }

    pub(crate) fn scan(graph: &DirGraph, relationship_type: &str) -> (defaults: DefaultEndpoints)
        requires
            graph.well_formed(),
        ensures
            defaults.of(*graph, relationship_type@),
    {
        DefaultEndpoints {
            sources: scan_end_types(graph, relationship_type, Side::Source),
            targets: scan_end_types(graph, relationship_type, Side::Target),
        }
    }
}

/// The relationship that a row names. The defaults are needed where the row
/// leaves a node type out.
pub(crate) fn resolve_row(
    graph: &DirGraph,
    relationship_type: &str,
    key_property: Option<&str>,
    row: &RelationshipVector,
    prefix: &str,
    defaults: Option<&DefaultEndpoints>,
) -> (result: Result<EdgeIndex, String>)
    requires
        defaults is None ==> row.source_type is Some && row.target_type is Some,
        defaults is Some ==> defaults->0.of(*graph, relationship_type@),
    ensures
        said(result) == row_resolved(
            *graph,
            relationship_type@,
            str_option(key_property),
            row@,
            prefix@,
        ),
{
    let source_given: Option<&str> = match &row.source_type {
        Some(t) => Some(t.as_str()),
        None => None,
    };
    let target_given: Option<&str> = match &row.target_type {
        Some(t) => Some(t.as_str()),
        None => None,
    };
    let nothing: Vec<String> = Vec::new();
    let (sources, targets) = match defaults {
        Some(d) => (&d.sources, &d.targets),
        None => (&nothing, &nothing),
    };
    let source_type = match pick_type(
        source_given,
        prefix,
        Side::Source,
        relationship_type,
        sources,
    ) {
        Ok(t) => t,
        Err(message) => {
            return Err(message);
        },
    };
    let target_type = match pick_type(
        target_given,
        prefix,
        Side::Target,
        relationship_type,
        targets,
    ) {
        Ok(t) => t,
        Err(message) => {
            return Err(message);
        },
    };
    let address = Address {
        prefix,
        relationship_type,
        source_type: source_type.as_str(),
        source_id: &row.source_id,
        target_type: target_type.as_str(),
        target_id: &row.target_id,
    };
    let resolver = Resolver { graph, key_property };
    resolver.resolve(
        &address,
        match &row.key {
            Some(key) => Some(key),
            None => None,
        },
    )
}

/// The relationship that one address names; its vector is not looked at.
pub fn resolve_address(
    graph: &DirGraph,
    relationship_type: &str,
    address: &RelationshipVector,
    keys: &RelationshipKeys,
) -> (result: Result<EdgeIndex, String>)
    requires
        graph.well_formed(),
    ensures
        said(result) == row_resolved(
            *graph,
            relationship_type@,
            keys.property_of(relationship_type@),
            address@,
            Seq::empty(),
        ),
{
    let defaults: Option<DefaultEndpoints> = if address.source_type.is_none()
        || address.target_type.is_none() {
        Some(DefaultEndpoints::scan(graph, relationship_type))
    } else {
        None
    };
    let prefix = String::new();
    assert(prefix@ =~= Seq::<char>::empty());
    resolve_row(
        graph,
        relationship_type,
        keys.get(relationship_type),
        address,
        prefix.as_str(),
        match &defaults {
            Some(d) => Some(d),
            None => None,
        },
    )
}

pub(crate) proof fn group_lists_its_edges(
    edges: Seq<Option<crate::topology::EdgeRecord>>,
    source: NodeIndex,
    target: NodeIndex,
    relationship_type: Text,
)
    requires
        edges.len() <= usize::MAX,
    ensures
        forall|e: EdgeIndex|
            #[trigger] group_edges(edges, source, target, relationship_type).contains(e) <==> (
            e.slot < edges.len() && edges[e.slot as int] is Some
                && edges[e.slot as int]->0.data.connection_type@ == relationship_type
                && edges[e.slot as int]->0.source == source && edges[e.slot as int]->0.target
                == target),
    decreases edges.len(),
{
    if edges.len() > 0 {
        let rest = edges.drop_last();
        let before = group_edges(rest, source, target, relationship_type);
        let all = group_edges(edges, source, target, relationship_type);
        let last = EdgeIndex { slot: (edges.len() - 1) as usize };
        group_lists_its_edges(rest, source, target, relationship_type);
        assert forall|e: EdgeIndex|
            #[trigger] all.contains(e) <==> (e.slot < edges.len() && edges[e.slot as int] is Some
                && edges[e.slot as int]->0.data.connection_type@ == relationship_type
                && edges[e.slot as int]->0.source == source && edges[e.slot as int]->0.target
                == target) by {
            assert(before.contains(e) <==> (e.slot < rest.len() && rest[e.slot as int] is Some
                && rest[e.slot as int]->0.data.connection_type@ == relationship_type
                && rest[e.slot as int]->0.source == source && rest[e.slot as int]->0.target
                == target));
            if all != before {
                assert(all == before.push(last));
                if before.contains(e) {
                    let k = before.index_of(e);
                    assert(all[k] == e);
                }
                assert(all[before.len() as int] == last);
                if all.contains(e) {
                    let k = all.index_of(e);
                    if k < before.len() {
                        assert(before[k] == e);
                    }
                }
            }
        }
    } else {
        assert forall|e: EdgeIndex|
            !(#[trigger] group_edges(edges, source, target, relationship_type).contains(e)) by {
            assert(group_edges(edges, source, target, relationship_type).len() == 0);
        }
    }
}

/// The address that a relationship is read back under.
pub open spec fn address_of(topology: Topology, edge: EdgeIndex, prefix: Text) -> AddressModel {
    let source = topology.node(topology.record(edge).source);
    let target = topology.node(topology.record(edge).target);
    AddressModel {
        prefix,
        source_type: source.node_type@,
        source_id: source.id@,
        target_type: target.node_type@,
        target_id: target.id@,
    }
}

/// A relationship is found again under the address and the key value that it
/// is read back with, where its endpoints are found by type and id and, in a
/// parallel group, the key tells the members apart.
pub proof fn an_address_finds_its_relationship(
    graph: DirGraph,
    relationship_type: Text,
    key_property: Option<Text>,
    edge: EdgeIndex,
    prefix: Text,
)
    requires
        graph.topology.edges@.len() <= usize::MAX,
        graph.topology.live_of_type(edge, relationship_type),
        ({
            let address = address_of(graph.topology, edge, prefix);
            let record = graph.topology.record(edge);
            &&& node_by_id(graph, address.source_type, address.source_id) == Some(record.source)
            &&& node_by_id(graph, address.target_type, address.target_id) == Some(record.target)
        }),
        ({
            let members = crate::graph::group_of(graph.topology, edge);
            members.len() <= 1 || (key_property is Some && keys_fault(
                graph.topology,
                members,
                key_property->0,
                0,
            ) is None)
        }),
    ensures
        resolved(
            graph,
            relationship_type,
            key_property,
            address_of(graph.topology, edge, prefix),
            match key_property {
                Some(property) => key_of(graph.topology, edge, property),
                None => None,
            },
        ) == Ok::<EdgeIndex, Text>(edge),
{
    let record = graph.topology.record(edge);
    let members = group_edges(
        graph.topology.edges@,
        record.source,
        record.target,
        relationship_type,
    );
    group_lists_its_edges(
        graph.topology.edges@,
        record.source,
        record.target,
        relationship_type,
    );
    assert(members.contains(edge));
    let at = members.index_of(edge);
    assert(members[at] == edge);
    if members.len() > 1 {
        crate::groups::faultless_keys_tell_apart(graph.topology, members, key_property->0);
        assert(keyed_apart(graph.topology, members, key_property->0));
        a_key_picks_one_member(graph.topology, members, key_property->0, edge);
        assert(key_of(graph.topology, members[at], key_property->0) is Some);
    } else {
        assert(at == 0);
    }
}

} // verus!
