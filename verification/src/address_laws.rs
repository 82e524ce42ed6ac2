//! What an address finds, and what stands behind it.

use crate::address::{
    end_of, end_types, resolved, row_resolved, types_at, AddressModel, RowModel, Side,
};
use crate::graph::{members_of, node_by_id, node_with_id, DirGraph, TypeMembers};
use crate::groups::{faultless_keys_tell_apart, key_of, keyed_apart, keys_fault, member_with_key};
use crate::ingest::{row_prefix, rows_resolved};
use crate::text::Text;
use crate::topology::{group_edges, property_in, EdgeRecord, Property, Topology};
use crate::value::{EdgeIndex, NodeIndex, ValueModel};
use vstd::prelude::*;

verus! {

/// A property is looked up by its name, and of several of one name the first
/// counts.
pub proof fn a_property_is_the_first_of_its_name(properties: Seq<Property>, name: Text, at: int)
    requires
        0 <= at < properties.len(),
        properties[at].name@ == name,
        forall|i: int| 0 <= i < at ==> (#[trigger] properties[i]).name@ != name,
    ensures
        property_in(properties, name) == Some(properties[at].value@),
    decreases at,
{
    if at > 0 {
        let rest = properties.drop_first();
        assert(properties[0].name@ != name);
        assert forall|i: int| 0 <= i < at - 1 implies (#[trigger] rest[i]).name@ != name by {
            assert(rest[i] == properties[i + 1]);
        }
        a_property_is_the_first_of_its_name(rest, name, at - 1);
    }
}

/// There is no property of a name that none has.
pub proof fn no_property_of_another_name(properties: Seq<Property>, name: Text)
    requires
        forall|i: int| 0 <= i < properties.len() ==> (#[trigger] properties[i]).name@ != name,
    ensures
        property_in(properties, name) is None,
    decreases properties.len(),
{
    if properties.len() > 0 {
        let rest = properties.drop_first();
        assert forall|i: int| 0 <= i < rest.len() implies (#[trigger] rest[i]).name@ != name by {
            assert(rest[i] == properties[i + 1]);
        }
        no_property_of_another_name(rest, name);
    }
}

/// A key is the property's value, and nothing where the relationship has none, has
/// a null, or does not live.
pub proof fn a_key_is_a_property_that_says_something(
    topology: Topology,
    edge: EdgeIndex,
    property: Text,
)
    ensures
        forall|value: ValueModel|
            edge.slot < topology.edges@.len() && topology.edges@[edge.slot as int] is Some
                && property_in(
                topology.edges@[edge.slot as int]->0.data.properties@,
                property,
            ) == Some(value) && !(value is Null) ==> key_of(topology, edge, property) == Some(
                value,
            ),
        key_of(topology, edge, property) is Some ==> edge.slot < topology.edges@.len()
            && topology.edges@[edge.slot as int] is Some && property_in(
            topology.edges@[edge.slot as int]->0.data.properties@,
            property,
        ) == key_of(topology, edge, property) && !(key_of(topology, edge, property)->0 is Null),
{
}

/// A living node with an id stands at a place among the members.
pub open spec fn bears_id(topology: Topology, node: NodeIndex, id: ValueModel) -> bool {
    node.slot < topology.nodes@.len() && topology.nodes@[node.slot as int] is Some
        && topology.nodes@[node.slot as int]->0.id@ == id
}

/// An id finds the first living member that has it, and none where no living
/// member does.
pub proof fn an_id_finds_the_first_member(
    topology: Topology,
    members: Seq<NodeIndex>,
    id: ValueModel,
)
    ensures
        forall|at: int|
            0 <= at < members.len() && bears_id(topology, #[trigger] members[at], id) && (forall|
                i: int,
            |
                0 <= i < at ==> !bears_id(topology, #[trigger] members[i], id)) ==> node_with_id(
                topology,
                members,
                id,
            ) == Some(members[at]),
        (forall|i: int| 0 <= i < members.len() ==> !bears_id(topology, #[trigger] members[i], id))
            <==> node_with_id(topology, members, id) is None,
        node_with_id(topology, members, id) is Some ==> members.contains(
            node_with_id(topology, members, id)->0,
        ) && bears_id(topology, node_with_id(topology, members, id)->0, id),
    decreases members.len(),
{
    if members.len() > 0 {
        let rest = members.drop_first();
        an_id_finds_the_first_member(topology, rest, id);
        assert forall|i: int| 0 <= i < rest.len() implies #[trigger] rest[i] == members[i + 1] by {}
        assert forall|at: int|
            0 <= at < members.len() && bears_id(topology, #[trigger] members[at], id) && (forall|
                i: int,
            |
                0 <= i < at ==> !bears_id(
                    topology,
                    #[trigger] members[i],
                    id,
                )) implies node_with_id(topology, members, id) == Some(members[at]) by {
            if at > 0 {
                assert(!bears_id(topology, members[0], id));
                assert(rest[at - 1] == members[at]);
                assert forall|i: int| 0 <= i < at - 1 implies !bears_id(
                    topology,
                    #[trigger] rest[i],
                    id,
                ) by {
                    assert(rest[i] == members[i + 1]);
                }
            }
        }
        if node_with_id(topology, members, id) is None {
            assert forall|i: int| 0 <= i < members.len() implies !bears_id(
                topology,
                #[trigger] members[i],
                id,
            ) by {
                if i > 0 {
                    assert(rest[i - 1] == members[i]);
                }
            }
        } else if node_with_id(topology, rest, id) is Some && !bears_id(
            topology,
            members[0],
            id,
        ) {
            let found = node_with_id(topology, rest, id)->0;
            let i = rest.index_of(found);
            assert(members[i + 1] == found);
        } else {
            assert(members[0] == node_with_id(topology, members, id)->0);
        }
    }
}

/// The members of a type are those that the first listing of its name gives.
pub proof fn a_type_has_the_members_it_lists(types: Seq<TypeMembers>, name: Text)
    ensures
        forall|at: int|
            0 <= at < types.len() && (#[trigger] types[at]).name@ == name && (forall|i: int|
                0 <= i < at ==> (#[trigger] types[i]).name@ != name) ==> members_of(types, name)
                == Some(types[at].members@),
        (forall|i: int| 0 <= i < types.len() ==> (#[trigger] types[i]).name@ != name)
            ==> members_of(types, name) is None,
    decreases types.len(),
{
    if types.len() > 0 {
        let rest = types.drop_first();
        a_type_has_the_members_it_lists(rest, name);
        assert forall|at: int|
            0 <= at < types.len() && (#[trigger] types[at]).name@ == name && (forall|i: int|
                0 <= i < at ==> (#[trigger] types[i]).name@ != name) implies members_of(
            types,
            name,
        ) == Some(types[at].members@) by {
            if at > 0 {
                assert(types[0].name@ != name);
                assert(rest[at - 1] == types[at]);
                assert forall|i: int| 0 <= i < at - 1 implies (#[trigger] rest[i]).name@ != name by {
                    assert(rest[i] == types[i + 1]);
                }
            }
        }
        if forall|i: int| 0 <= i < types.len() ==> (#[trigger] types[i]).name@ != name {
            assert(types[0].name@ != name);
            assert forall|i: int| 0 <= i < rest.len() implies (#[trigger] rest[i]).name@ != name by {
                assert(rest[i] == types[i + 1]);
            }
        }
    }
}

/// A relationship of a type runs from one node to another.
pub open spec fn runs(
    edges: Seq<Option<EdgeRecord>>,
    slot: int,
    source: NodeIndex,
    target: NodeIndex,
    relationship_type: Text,
) -> bool {
    &&& 0 <= slot < edges.len()
    &&& edges[slot] is Some
    &&& edges[slot]->0.source == source
    &&& edges[slot]->0.target == target
    &&& edges[slot]->0.data.connection_type@ == relationship_type
}

/// A parallel group is every relationship of the type from the one node to the
/// other, by slot, each once.
pub proof fn a_group_is_every_parallel_relationship(
    edges: Seq<Option<EdgeRecord>>,
    source: NodeIndex,
    target: NodeIndex,
    relationship_type: Text,
)
    requires
        edges.len() <= usize::MAX,
    ensures
        forall|slot: usize| #[trigger]
            runs(edges, slot as int, source, target, relationship_type) <==> group_edges(
                edges,
                source,
                target,
                relationship_type,
            ).contains(EdgeIndex { slot }),
        forall|i: int, j: int|
            0 <= i < j < group_edges(edges, source, target, relationship_type).len() ==> (
            #[trigger] group_edges(edges, source, target, relationship_type)[i]).slot < (
            #[trigger] group_edges(edges, source, target, relationship_type)[j]).slot,
    decreases edges.len(),
{
    if edges.len() > 0 {
        let rest = edges.drop_last();
        a_group_is_every_parallel_relationship(rest, source, target, relationship_type);
        let less = group_edges(rest, source, target, relationship_type);
        let all = group_edges(edges, source, target, relationship_type);
        let end = EdgeIndex { slot: (edges.len() - 1) as usize };
        assert forall|i: int| 0 <= i < less.len() implies (#[trigger] less[i]).slot < rest.len() by {
            assert(less.contains(EdgeIndex { slot: less[i].slot }));
            assert(runs(rest, less[i].slot as int, source, target, relationship_type));
        }
        assert forall|i: int, j: int| 0 <= i < j < all.len() implies (#[trigger] all[i]).slot < (
        #[trigger] all[j]).slot by {
            assert(all[i] == less[i]);
            if j < less.len() {
                assert(all[j] == less[j]);
            }
        }
        assert forall|slot: usize| #[trigger]
            runs(edges, slot as int, source, target, relationship_type) <==> all.contains(
                EdgeIndex { slot },
            ) by {
            if slot < rest.len() {
                assert(rest[slot as int] == edges[slot as int]);
                assert(runs(rest, slot as int, source, target, relationship_type) <==> runs(
                    edges,
                    slot as int,
                    source,
                    target,
                    relationship_type,
                ));
                if less.contains(EdgeIndex { slot }) {
                    let i = less.index_of(EdgeIndex { slot });
                    assert(all[i] == EdgeIndex { slot });
                }
                if all.contains(EdgeIndex { slot }) {
                    let i = all.index_of(EdgeIndex { slot });
                    assert(less[i] == EdgeIndex { slot });
                }
            } else if slot == rest.len() {
                if runs(edges, slot as int, source, target, relationship_type) {
                    assert(all[less.len() as int] == end);
                }
                if all.contains(end) {
                    let i = all.index_of(end);
                    assert(i == less.len());
                }
            } else if all.contains(EdgeIndex { slot }) {
                let i = all.index_of(EdgeIndex { slot });
                assert(i < less.len() ==> all[i] == less[i]);
            }
        }
    }
}

proof fn a_member_with_a_key_has_it(
    topology: Topology,
    members: Seq<EdgeIndex>,
    property: Text,
    value: ValueModel,
    position: int,
)
    requires
        0 <= position <= members.len(),
    ensures
        member_with_key(topology, members, property, value, position) is Some ==> members.contains(
            member_with_key(topology, members, property, value, position)->0,
        ) && key_of(
            topology,
            member_with_key(topology, members, property, value, position)->0,
            property,
        ) == Some(value),
        member_with_key(topology, members, property, value, position) is None ==> forall|i: int|
            position <= i < members.len() ==> key_of(topology, #[trigger] members[i], property)
                != Some(value),
    decreases members.len() - position,
{
    if position < members.len() {
        a_member_with_a_key_has_it(topology, members, property, value, position + 1);
    }
}

/// What an address resolves to is a live relationship of the type from the node
/// with the source id to the node with the target id. Where a key is given, it
/// has that key; where it has parallel ones, a key was given and none of them
/// has it.
pub proof fn a_resolved_address_names_its_relationship(
    graph: DirGraph,
    relationship_type: Text,
    key_property: Option<Text>,
    address: AddressModel,
    key: Option<ValueModel>,
)
    requires
        graph.topology.edges@.len() <= usize::MAX,
        resolved(graph, relationship_type, key_property, address, key) is Ok,
    ensures
        ({
            let edge = resolved(graph, relationship_type, key_property, address, key)->Ok_0;
            let edges = graph.topology.edges@;
            let source = edges[edge.slot as int]->0.source;
            let target = edges[edge.slot as int]->0.target;
            &&& runs(edges, edge.slot as int, source, target, relationship_type)
            &&& node_by_id(graph, address.source_type, address.source_id) == Some(source)
            &&& node_by_id(graph, address.target_type, address.target_id) == Some(target)
            &&& key is Some ==> key_property is Some && key_of(
                graph.topology,
                edge,
                key_property->0,
            ) == key
            &&& forall|slot: usize|
                slot != edge.slot && #[trigger] runs(
                    edges,
                    slot as int,
                    source,
                    target,
                    relationship_type,
                ) ==> key is Some && key_of(
                    graph.topology,
                    EdgeIndex { slot },
                    key_property->0,
                ) != key
        }),
{
    let topology = graph.topology;
    let edge = resolved(graph, relationship_type, key_property, address, key)->Ok_0;
    let source = node_by_id(graph, address.source_type, address.source_id)->0;
    let target = node_by_id(graph, address.target_type, address.target_id)->0;
    let members = group_edges(topology.edges@, source, target, relationship_type);
    a_group_is_every_parallel_relationship(topology.edges@, source, target, relationship_type);
    if members.len() == 1 {
        assert(members[0] == edge);
        assert(members.contains(EdgeIndex { slot: edge.slot }));
        assert(runs(topology.edges@, edge.slot as int, source, target, relationship_type));
        assert forall|slot: usize|
            slot != edge.slot && #[trigger] runs(
                topology.edges@,
                slot as int,
                source,
                target,
                relationship_type,
            ) implies key is Some && key_of(topology, EdgeIndex { slot }, key_property->0)
            != key by {
            assert(members.contains(EdgeIndex { slot }));
        }
    } else {
        let property = key_property->0;
        faultless_keys_tell_apart(topology, members, property);
        a_member_with_a_key_has_it(topology, members, property, key->0, 0);
        assert(members.contains(EdgeIndex { slot: edge.slot }));
        assert(runs(topology.edges@, edge.slot as int, source, target, relationship_type));
        assert forall|slot: usize|
            slot != edge.slot && #[trigger] runs(
                topology.edges@,
                slot as int,
                source,
                target,
                relationship_type,
            ) implies key is Some && key_of(topology, EdgeIndex { slot }, property) != key by {
            assert(members.contains(EdgeIndex { slot }));
            let i = members.index_of(edge);
            let j = members.index_of(EdgeIndex { slot });
            if i < j {
                assert(key_of(topology, members[i], property) != key_of(
                    topology,
                    members[j],
                    property,
                ));
            } else {
                assert(key_of(topology, members[j], property) != key_of(
                    topology,
                    members[i],
                    property,
                ));
            }
        }
    }
}

/// An address whose nodes exist and are joined by one relationship of the type
/// finds it where no key is given, or its own.
pub proof fn an_address_of_one_relationship_finds_it(
    graph: DirGraph,
    relationship_type: Text,
    key_property: Option<Text>,
    address: AddressModel,
    key: Option<ValueModel>,
    edge: EdgeIndex,
    source: NodeIndex,
    target: NodeIndex,
)
    requires
        graph.topology.edges@.len() <= usize::MAX,
        node_by_id(graph, address.source_type, address.source_id) == Some(source),
        node_by_id(graph, address.target_type, address.target_id) == Some(target),
        runs(graph.topology.edges@, edge.slot as int, source, target, relationship_type),
        forall|slot: usize| #[trigger]
            runs(graph.topology.edges@, slot as int, source, target, relationship_type) ==> slot
                == edge.slot,
        key is Some ==> key_property is Some && key_of(graph.topology, edge, key_property->0)
            == key,
    ensures
        resolved(graph, relationship_type, key_property, address, key) == Ok::<EdgeIndex, Text>(
            edge,
        ),
{
    let members = group_edges(graph.topology.edges@, source, target, relationship_type);
    a_group_is_every_parallel_relationship(
        graph.topology.edges@,
        source,
        target,
        relationship_type,
    );
    assert(members.contains(EdgeIndex { slot: edge.slot }));
    let i = members.index_of(edge);
    assert forall|j: int| 0 <= j < members.len() implies #[trigger] members[j] == edge by {
        assert(members.contains(EdgeIndex { slot: members[j].slot }));
        assert(runs(
            graph.topology.edges@,
            members[j].slot as int,
            source,
            target,
            relationship_type,
        ));
    }
    if members.len() > 1 {
        assert(members[0].slot < members[1].slot);
    }
}

/// In a parallel group whose members all have a key, each another, an address with
/// a member's key finds that member.
pub proof fn an_address_with_a_key_finds_its_member(
    graph: DirGraph,
    relationship_type: Text,
    property: Text,
    address: AddressModel,
    edge: EdgeIndex,
    source: NodeIndex,
    target: NodeIndex,
)
    requires
        graph.topology.edges@.len() <= usize::MAX,
        node_by_id(graph, address.source_type, address.source_id) == Some(source),
        node_by_id(graph, address.target_type, address.target_id) == Some(target),
        runs(graph.topology.edges@, edge.slot as int, source, target, relationship_type),
        forall|slot: usize| #[trigger]
            runs(graph.topology.edges@, slot as int, source, target, relationship_type) ==> key_of(
                graph.topology,
                EdgeIndex { slot },
                property,
            ) is Some,
        forall|a: usize, b: usize|
            a != b && #[trigger] runs(
                graph.topology.edges@,
                a as int,
                source,
                target,
                relationship_type,
            ) && #[trigger] runs(
                graph.topology.edges@,
                b as int,
                source,
                target,
                relationship_type,
            ) ==> key_of(graph.topology, EdgeIndex { slot: a }, property) != key_of(
                graph.topology,
                EdgeIndex { slot: b },
                property,
            ),
    ensures
        resolved(
            graph,
            relationship_type,
            Some(property),
            address,
            key_of(graph.topology, edge, property),
        ) == Ok::<EdgeIndex, Text>(edge),
{
    let topology = graph.topology;
    let members = group_edges(topology.edges@, source, target, relationship_type);
    a_group_is_every_parallel_relationship(topology.edges@, source, target, relationship_type);
    assert(members.contains(EdgeIndex { slot: edge.slot }));
    assert forall|i: int| 0 <= i < members.len() implies #[trigger] runs(
        topology.edges@,
        members[i].slot as int,
        source,
        target,
        relationship_type,
    ) by {
        assert(members.contains(EdgeIndex { slot: members[i].slot }));
    }
    assert(keyed_apart(topology, members, property)) by {
        assert forall|i: int| 0 <= i < members.len() implies key_of(
            topology,
            #[trigger] members[i],
            property,
        ) is Some by {
            assert(runs(
                topology.edges@,
                members[i].slot as int,
                source,
                target,
                relationship_type,
            ));
            assert(members[i] == EdgeIndex { slot: members[i].slot });
        }
        assert forall|i: int, j: int| 0 <= i < j < members.len() implies key_of(
            topology,
            #[trigger] members[i],
            property,
        ) != key_of(topology, #[trigger] members[j], property) by {
            assert(members[i].slot < members[j].slot);
            assert(runs(
                topology.edges@,
                members[i].slot as int,
                source,
                target,
                relationship_type,
            ));
            assert(runs(
                topology.edges@,
                members[j].slot as int,
                source,
                target,
                relationship_type,
            ));
            assert(members[i] == EdgeIndex { slot: members[i].slot });
            assert(members[j] == EdgeIndex { slot: members[j].slot });
        }
    }
    keys_apart_are_faultless(topology, members, property, 0);
    crate::groups::a_key_picks_one_member(topology, members, property, edge);
    let i = members.index_of(edge);
    assert(key_of(topology, members[i], property) is Some);
}

pub(crate) proof fn keys_apart_are_faultless(
    topology: Topology,
    members: Seq<EdgeIndex>,
    property: Text,
    position: int,
)
    requires
        0 <= position <= members.len(),
        keyed_apart(topology, members, property),
    ensures
        keys_fault(topology, members, property, position) is None,
    decreases members.len() - position,
{
    if position < members.len() {
        keys_apart_are_faultless(topology, members, property, position + 1);
        assert(key_of(topology, members[position], property) is Some);
    }
}

/// The node types at a side of the relationships of a type are just those of the
/// nodes that such relationships have there, in order and each once.
pub proof fn end_types_are_those_of_the_nodes(
    topology: Topology,
    relationship_type: Text,
    side: Side,
    node_type: Text,
)
    requires
        topology.edges@.len() <= usize::MAX,
    ensures
        types_at(topology, relationship_type, side, topology.edges@.len() as int).contains(
            node_type,
        ) <==> exists|slot: int|
            0 <= slot < topology.edges@.len() && (#[trigger] topology.edges@[slot]) is Some
                && topology.edges@[slot]->0.data.connection_type@ == relationship_type
                && topology.nodes@[(match side {
                Side::Source => topology.edges@[slot]->0.source,
                Side::Target => topology.edges@[slot]->0.target,
            }).slot as int]->0.node_type@ == node_type,
{
    let types = types_at(topology, relationship_type, side, topology.edges@.len() as int);
    if types.contains(node_type) {
        let i = choose|i: int|
            0 <= i < topology.edges@.len() && (#[trigger] topology.edges@[i]) is Some
                && topology.edges@[i]->0.data.connection_type@ == relationship_type
                && topology.node(
                end_of(topology, EdgeIndex { slot: i as usize }, side),
            ).node_type@ == node_type;
        assert(topology.record(EdgeIndex { slot: i as usize }) == topology.edges@[i]->0);
    }
    if exists|slot: int|
        0 <= slot < topology.edges@.len() && (#[trigger] topology.edges@[slot]) is Some
            && topology.edges@[slot]->0.data.connection_type@ == relationship_type
            && topology.nodes@[(match side {
            Side::Source => topology.edges@[slot]->0.source,
            Side::Target => topology.edges@[slot]->0.target,
        }).slot as int]->0.node_type@ == node_type {
        let slot = choose|slot: int|
            0 <= slot < topology.edges@.len() && (#[trigger] topology.edges@[slot]) is Some
                && topology.edges@[slot]->0.data.connection_type@ == relationship_type
                && topology.nodes@[(match side {
                Side::Source => topology.edges@[slot]->0.source,
                Side::Target => topology.edges@[slot]->0.target,
            }).slot as int]->0.node_type@ == node_type;
        assert(topology.record(EdgeIndex { slot: slot as usize }) == topology.edges@[slot]->0);
        assert(topology.node(
            end_of(topology, EdgeIndex { slot: slot as usize }, side),
        ).node_type@ == node_type);
    }
}

/// A row that gives both node types is resolved under just those, and a row that
/// leaves one out is resolved only where the relationships of the type have nodes
/// of a single type at that side, and under that one.
pub proof fn a_row_is_resolved_under_its_types(
    graph: DirGraph,
    relationship_type: Text,
    key_property: Option<Text>,
    row: RowModel,
    prefix: Text,
)
    ensures
        ({
            let found = row_resolved(graph, relationship_type, key_property, row, prefix);
            let sources = end_types(graph.topology, relationship_type, Side::Source);
            let targets = end_types(graph.topology, relationship_type, Side::Target);
            &&& row.source_type is Some && row.target_type is Some ==> found == resolved(
                graph,
                relationship_type,
                key_property,
                AddressModel {
                    prefix,
                    source_type: row.source_type->0,
                    source_id: row.source_id,
                    target_type: row.target_type->0,
                    target_id: row.target_id,
                },
                row.key,
            )
            &&& row.source_type is None && sources.len() != 1 ==> found is Err
            &&& row.target_type is None && targets.len() != 1 ==> found is Err
            &&& found is Ok ==> found == resolved(
                graph,
                relationship_type,
                key_property,
                AddressModel {
                    prefix,
                    source_type: if row.source_type is Some {
                        row.source_type->0
                    } else {
                        sources[0]
                    },
                    source_id: row.source_id,
                    target_type: if row.target_type is Some {
                        row.target_type->0
                    } else {
                        targets[0]
                    },
                    target_id: row.target_id,
                },
                row.key,
            )
        }),
{
}

/// Rows are taken exactly where each names a relationship and no two the same,
/// and each then stands for the one it names.
pub proof fn rows_are_taken_where_each_names_another(
    graph: DirGraph,
    relationship_type: Text,
    key_property: Option<Text>,
    rows: Seq<RowModel>,
    count: nat,
)
    requires
        count <= rows.len(),
    ensures
        ({
            let taken = rows_resolved(graph, relationship_type, key_property, rows, count);
            let named = |i: int|
                row_resolved(
                    graph,
                    relationship_type,
                    key_property,
                    rows[i],
                    row_prefix(i as nat),
                );
            &&& taken is Ok ==> taken->Ok_0.len() == count && taken->Ok_0.no_duplicates()
                && forall|i: int|
                0 <= i < count ==> #[trigger] named(i) == Ok::<EdgeIndex, Text>(taken->Ok_0[i])
            &&& (forall|i: int| 0 <= i < count ==> (#[trigger] named(i)) is Ok) && (forall|
                i: int,
                j: int,
            |
                0 <= i < j < count ==> (#[trigger] named(i))->Ok_0 != (#[trigger] named(j))->Ok_0)
                ==> taken is Ok
        }),
    decreases count,
{
    let named = |i: int|
        row_resolved(graph, relationship_type, key_property, rows[i], row_prefix(i as nat));
    if count > 0 {
        let k = (count - 1) as nat;
        rows_are_taken_where_each_names_another(graph, relationship_type, key_property, rows, k);
        let less = rows_resolved(graph, relationship_type, key_property, rows, k);
        let taken = rows_resolved(graph, relationship_type, key_property, rows, count);
        let last = named(k as int);
        assert(last == row_resolved(
            graph,
            relationship_type,
            key_property,
            rows[count - 1],
            row_prefix((count - 1) as nat),
        ));
        if taken is Ok {
            assert(taken->Ok_0 == less->Ok_0.push(last->Ok_0));
            assert forall|i: int| 0 <= i < count implies #[trigger] named(i) == Ok::<
                EdgeIndex,
                Text,
            >(taken->Ok_0[i]) by {
                if i < k {
                    assert(named(i) == Ok::<EdgeIndex, Text>(less->Ok_0[i]));
                }
            }
        }
        if (forall|i: int| 0 <= i < count ==> (#[trigger] named(i)) is Ok) && (forall|
            i: int,
            j: int,
        |
            0 <= i < j < count ==> (#[trigger] named(i))->Ok_0 != (#[trigger] named(j))->Ok_0) {
            assert(less is Ok);
            assert(named(k as int) is Ok);
            if less->Ok_0.contains(last->Ok_0) {
                let i = less->Ok_0.index_of(last->Ok_0);
                assert(named(i) == Ok::<EdgeIndex, Text>(less->Ok_0[i]));
                assert(named(i)->Ok_0 != named(k as int)->Ok_0);
            }
        }
    }
}

} // verus!
