//! What goes from one graph to another that has the same relationships, in
//! whatever order either made them.

use crate::address::{an_address_finds_its_relationship, group_lists_its_edges, row_resolved};
use crate::carried::carried_fault;
use crate::carry::{extracted, group_fault, parallel};
use crate::carry_install::filled;
use crate::carry_laws::{
    addressable, addressed_in_place, homes_are_filled, named_homes_match, no_group_fault_of_owners,
};
use crate::carry_resolve::{carry_key, store_resolved};
use crate::catalog::{a_kept_store_is_found, lookup};
use crate::edge_read::{
    place_at, place_before, read_fault, relationship_read_fault, row_order, row_order_is_total,
    store_rows, ReadModel,
};
use crate::edge_replace::{replace_done, replace_fault, store_of_entries};
use crate::edge_writes::{entries_fault, entries_sound, entry_fault, metric_fault, slots_of};
use crate::graph::{group_of, node_by_id, DirGraph};
use crate::groups::{
    faultless_keys_tell_apart, key_of, key_taken, keyed_apart, keys_fault, RelationshipKeys,
};
use crate::ingest::{batch_entries, batch_fault, row_prefix, rows_resolved};
use crate::names::store_name_of;
use crate::ownership_laws::{owned, stores_owned};
use crate::read_laws::{all_owners_live, no_read_fault_at, read_order, read_rows_resolve, rows_again};
use crate::coordinate::{all_finite, fault_of};
use crate::store::{coherent, hash_of, vector_of, StoreModel};
use crate::text::{str_option, Text};
use crate::topology::{group_edges, property_in, typed_edges, EdgeRecord, Topology};
use crate::undo_laws::kept_store_is_coherent;
use crate::value::{EdgeIndex, NodeIndex};
use vstd::prelude::*;
use vstd::relations::sorted_by;

verus! {

/// Whether a relationship's endpoints are found by their types and ids.
pub open spec fn found_by_ids(graph: DirGraph, edge: EdgeIndex) -> bool {
    let record = graph.topology.record(edge);
    let place = place_at(graph.topology, None, edge);
    &&& node_by_id(graph, place.source_type, place.source_id) == Some(record.source)
    &&& node_by_id(graph, place.target_type, place.target_id) == Some(record.target)
}

/// Whether two relationships join nodes of the same types and ids and have the
/// same properties.
pub open spec fn same_relationship(
    first: Topology,
    one: EdgeIndex,
    second: Topology,
    other: EdgeIndex,
) -> bool {
    &&& place_at(first, None, one) == place_at(second, None, other)
    &&& forall|name: Text| #[trigger]
        property_in(first.record(one).data.properties@, name) == property_in(
            second.record(other).data.properties@,
            name,
        )
}

/// Two graphs that have the same relationships of a type: `twin` takes each
/// relationship of the first to the same one of the second, no two to one, and
/// none of the second is left over. In either graph the ids find the nodes.
pub open spec fn twins(
    first: DirGraph,
    second: DirGraph,
    relationship_type: Text,
    twin: spec_fn(usize) -> usize,
) -> bool {
    &&& forall|slot: usize|
        first.topology.live_of_type(EdgeIndex { slot }, relationship_type) ==> {
            let other = EdgeIndex { slot: #[trigger] twin(slot) };
            &&& second.topology.live_of_type(other, relationship_type)
            &&& found_by_ids(first, EdgeIndex { slot })
            &&& same_relationship(first.topology, EdgeIndex { slot }, second.topology, other)
        }
    &&& forall|a: usize, b: usize|
        a != b && first.topology.live_of_type(EdgeIndex { slot: a }, relationship_type)
            && first.topology.live_of_type(EdgeIndex { slot: b }, relationship_type)
            ==> #[trigger] twin(a) != #[trigger] twin(b)
    &&& forall|slot: usize|
        #[trigger] second.topology.live_of_type(EdgeIndex { slot }, relationship_type) ==> {
            &&& found_by_ids(second, EdgeIndex { slot })
            &&& exists|from: usize|
                first.topology.live_of_type(EdgeIndex { slot: from }, relationship_type)
                    && #[trigger] twin(from) == slot
        }
}

proof fn a_group_lists_no_edge_twice(
    edges: Seq<Option<EdgeRecord>>,
    source: NodeIndex,
    target: NodeIndex,
    relationship_type: Text,
)
    requires
        edges.len() <= usize::MAX,
    ensures
        group_edges(edges, source, target, relationship_type).no_duplicates(),
    decreases edges.len(),
{
    if edges.len() > 0 {
        let rest = edges.drop_last();
        let before = group_edges(rest, source, target, relationship_type);
        a_group_lists_no_edge_twice(rest, source, target, relationship_type);
        group_lists_its_edges(rest, source, target, relationship_type);
        let last = EdgeIndex { slot: (edges.len() - 1) as usize };
        assert(!before.contains(last));
        assert forall|i: int| 0 <= i < before.len() implies before[i] != last by {
            assert(before.contains(before[i]));
        }
    }
}

proof fn telling_keys_have_no_fault(
    topology: Topology,
    members: Seq<EdgeIndex>,
    property: Text,
    position: int,
)
    requires
        keyed_apart(topology, members, property),
        0 <= position,
    ensures
        keys_fault(topology, members, property, position) is None,
    decreases members.len() - position,
{
    if position < members.len() {
        let value = key_of(topology, members[position], property);
        assert(value is Some);
        if key_taken(topology, members, property, value->0, position) {
            let i = choose|i: int|
                0 <= i < position && key_of(topology, #[trigger] members[i], property) == Some(
                    value->0,
                );
            assert(key_of(topology, members[i], property) != key_of(
                topology,
                members[position],
                property,
            ));
        }
        telling_keys_have_no_fault(topology, members, property, position + 1);
    }
}

proof fn twins_stand_alike(
    first: DirGraph,
    second: DirGraph,
    relationship_type: Text,
    twin: spec_fn(usize) -> usize,
    slot: usize,
    property: Option<Text>,
)
    requires
        twins(first, second, relationship_type, twin),
        first.topology.live_of_type(EdgeIndex { slot }, relationship_type),
    ensures
        place_at(first.topology, property, EdgeIndex { slot }) == place_at(
            second.topology,
            property,
            EdgeIndex { slot: twin(slot) },
        ),
        property is Some ==> key_of(first.topology, EdgeIndex { slot }, property->0) == key_of(
            second.topology,
            EdgeIndex { slot: twin(slot) },
            property->0,
        ),
{
    let one = EdgeIndex { slot };
    let other = EdgeIndex { slot: twin(slot) };
    assert(same_relationship(first.topology, one, second.topology, other));
    let a = place_at(first.topology, None, one);
    let b = place_at(second.topology, None, other);
    assert(a == b);
    if property is Some {
        assert(property_in(first.topology.record(one).data.properties@, property->0)
            == property_in(second.topology.record(other).data.properties@, property->0));
    }
}

/// The relationship of the first graph that a relationship of the second is the
/// twin of.
spec fn origin(
    first: DirGraph,
    relationship_type: Text,
    twin: spec_fn(usize) -> usize,
    slot: usize,
) -> usize {
    choose|from: usize|
        first.topology.live_of_type(EdgeIndex { slot: from }, relationship_type) && #[trigger] twin(
            from,
        ) == slot
}

proof fn a_twins_group_comes_from_the_group(
    first: DirGraph,
    second: DirGraph,
    relationship_type: Text,
    twin: spec_fn(usize) -> usize,
    slot: usize,
    member: EdgeIndex,
)
    requires
        first.topology.edges@.len() <= usize::MAX,
        second.topology.edges@.len() <= usize::MAX,
        twins(first, second, relationship_type, twin),
        first.topology.live_of_type(EdgeIndex { slot }, relationship_type),
        group_of(second.topology, EdgeIndex { slot: twin(slot) }).contains(member),
    ensures
        ({
            let from = origin(first, relationship_type, twin, member.slot);
            &&& twin(from) == member.slot
            &&& first.topology.live_of_type(EdgeIndex { slot: from }, relationship_type)
            &&& group_of(first.topology, EdgeIndex { slot }).contains(EdgeIndex { slot: from })
        }),
{
    let edge = EdgeIndex { slot };
    let other = EdgeIndex { slot: twin(slot) };
    assert(second.topology.live_of_type(other, relationship_type));
    group_lists_its_edges(
        second.topology.edges@,
        second.topology.record(other).source,
        second.topology.record(other).target,
        relationship_type,
    );
    group_lists_its_edges(
        first.topology.edges@,
        first.topology.record(edge).source,
        first.topology.record(edge).target,
        relationship_type,
    );
    assert(member == EdgeIndex { slot: member.slot });
    assert(second.topology.live_of_type(EdgeIndex { slot: member.slot }, relationship_type));
    let from = origin(first, relationship_type, twin, member.slot);
    twins_stand_alike(first, second, relationship_type, twin, slot, None);
    twins_stand_alike(first, second, relationship_type, twin, from, None);
    assert(place_at(second.topology, None, member) == place_at(second.topology, None, other));
    assert(twin(from) == member.slot);
    assert(found_by_ids(first, EdgeIndex { slot: from }));
    assert(twin(slot) == other.slot);
    assert(found_by_ids(first, edge));
}

/// A relationship that its group's key tells apart in one graph is told apart in
/// the other.
proof fn twins_are_told_apart(
    first: DirGraph,
    second: DirGraph,
    relationship_type: Text,
    twin: spec_fn(usize) -> usize,
    slot: usize,
    property: Option<Text>,
)
    requires
        first.topology.edges@.len() <= usize::MAX,
        second.topology.edges@.len() <= usize::MAX,
        twins(first, second, relationship_type, twin),
        first.topology.live_of_type(EdgeIndex { slot }, relationship_type),
        ({
            let members = group_of(first.topology, EdgeIndex { slot });
            members.len() <= 1 || (property is Some && keys_fault(
                first.topology,
                members,
                property->0,
                0,
            ) is None)
        }),
    ensures
        ({
            let members = group_of(second.topology, EdgeIndex { slot: twin(slot) });
            members.len() <= 1 || (property is Some && keys_fault(
                second.topology,
                members,
                property->0,
                0,
            ) is None)
        }),
{
    let edge = EdgeIndex { slot };
    let other = EdgeIndex { slot: twin(slot) };
    assert(second.topology.live_of_type(other, relationship_type));
    let members = group_of(first.topology, edge);
    let others = group_of(second.topology, other);
    a_group_lists_no_edge_twice(
        second.topology.edges@,
        second.topology.record(other).source,
        second.topology.record(other).target,
        relationship_type,
    );
    assert forall|i: int| 0 <= i < others.len() implies {
        let from = origin(first, relationship_type, twin, (#[trigger] others[i]).slot);
        &&& twin(from) == others[i].slot
        &&& first.topology.live_of_type(EdgeIndex { slot: from }, relationship_type)
        &&& members.contains(EdgeIndex { slot: from })
    } by {
        assert(others.contains(others[i]));
        a_twins_group_comes_from_the_group(
            first,
            second,
            relationship_type,
            twin,
            slot,
            others[i],
        );
    }
    if others.len() > 1 {
        if members.len() <= 1 {
            let a = EdgeIndex { slot: origin(first, relationship_type, twin, others[0].slot) };
            let b = EdgeIndex { slot: origin(first, relationship_type, twin, others[1].slot) };
            assert(members.contains(a) && members.contains(b));
            let i = members.index_of(a);
            let j = members.index_of(b);
            assert(members[i] == a && members[j] == b);
            assert(a == b);
            assert(others[0].slot == others[1].slot);
            assert(others[0] == others[1]);
        }
        let key = property->0;
        faultless_keys_tell_apart(first.topology, members, key);
        assert forall|i: int| 0 <= i < others.len() implies {
            let from = origin(first, relationship_type, twin, (#[trigger] others[i]).slot);
            &&& key_of(second.topology, others[i], key) == key_of(
                first.topology,
                EdgeIndex { slot: from },
                key,
            )
            &&& key_of(second.topology, others[i], key) is Some
        } by {
            let from = origin(first, relationship_type, twin, others[i].slot);
            twins_stand_alike(first, second, relationship_type, twin, from, property);
            assert(others[i] == EdgeIndex { slot: twin(from) });
            let k = members.index_of(EdgeIndex { slot: from });
            assert(key_of(first.topology, members[k], key) is Some);
        }
        assert forall|i: int, j: int| 0 <= i < j < others.len() implies key_of(
            second.topology,
            #[trigger] others[i],
            key,
        ) != key_of(second.topology, #[trigger] others[j], key) by {
            let a = EdgeIndex { slot: origin(first, relationship_type, twin, others[i].slot) };
            let b = EdgeIndex { slot: origin(first, relationship_type, twin, others[j].slot) };
            if a == b {
                assert(others[i].slot == others[j].slot);
                assert(others[i] == others[j]);
            }
            let k = members.index_of(a);
            let l = members.index_of(b);
            assert(members[k] == a && members[l] == b);
            if k < l {
                assert(key_of(first.topology, members[k], key) != key_of(
                    first.topology,
                    members[l],
                    key,
                ));
            } else {
                assert(key_of(first.topology, members[l], key) != key_of(
                    first.topology,
                    members[k],
                    key,
                ));
            }
        }
        telling_keys_have_no_fault(second.topology, others, key, 0);
    }
}

/// The relationships of the second graph that have a store's vectors in the
/// first.
pub open spec fn twin_slots(nodes: Seq<usize>, twin: spec_fn(usize) -> usize) -> Seq<usize> {
    Seq::new(nodes.len(), |i: int| twin(nodes[i]))
}

proof fn twin_slots_are_homes(
    first: DirGraph,
    second: DirGraph,
    relationship_type: Text,
    twin: spec_fn(usize) -> usize,
    nodes: Seq<usize>,
)
    requires
        twins(first, second, relationship_type, twin),
        nodes.no_duplicates(),
        forall|i: int|
            0 <= i < nodes.len() ==> first.topology.live_of_type(
                EdgeIndex { slot: #[trigger] nodes[i] },
                relationship_type,
            ),
    ensures
        twin_slots(nodes, twin).no_duplicates(),
        addressable(second, relationship_type, twin_slots(nodes, twin)),
{
    let homes = twin_slots(nodes, twin);
    assert forall|i: int, j: int|
        0 <= i < homes.len() && 0 <= j < homes.len() && i != j implies homes[i] != homes[j] by {
        assert(nodes[i] != nodes[j]);
        assert(twin(nodes[i]) != twin(nodes[j]));
    }
    assert forall|i: int| 0 <= i < homes.len() implies {
        let edge = EdgeIndex { slot: #[trigger] homes[i] };
        let record = second.topology.record(edge);
        let place = place_at(second.topology, None, edge);
        &&& second.topology.live_of_type(edge, relationship_type)
        &&& node_by_id(second, place.source_type, place.source_id) == Some(record.source)
        &&& node_by_id(second, place.target_type, place.target_id) == Some(record.target)
    } by {
        assert(homes[i] == twin(nodes[i]));
        assert(first.topology.live_of_type(EdgeIndex { slot: nodes[i] }, relationship_type));
        assert(second.topology.live_of_type(EdgeIndex { slot: homes[i] }, relationship_type));
        assert(found_by_ids(second, EdgeIndex { slot: homes[i] }));
    }
}

/// A store that is carried into a graph with the same relationships has every
/// vector there on the twin of its relationship, with its hash, in the same
/// order, under the same metric and model.
pub proof fn a_carry_brings_every_vector_to_its_twin(
    first: DirGraph,
    second: DirGraph,
    relationship_type: Text,
    name: Text,
    store: StoreModel,
    keys: RelationshipKeys,
    twin: spec_fn(usize) -> usize,
)
    requires
        first.topology.edges@.len() <= usize::MAX,
        second.topology.edges@.len() <= usize::MAX,
        coherent(store),
        forall|i: int|
            0 <= i < store.nodes.len() ==> first.topology.live_of_type(
                EdgeIndex { slot: #[trigger] store.nodes[i] },
                relationship_type,
            ),
        twins(first, second, relationship_type, twin),
        extracted(
            first.topology,
            relationship_type,
            name,
            store,
            keys.property_of(relationship_type),
        ) is Ok,
    ensures
        ({
            let carried = extracted(
                first.topology,
                relationship_type,
                name,
                store,
                keys.property_of(relationship_type),
            )->Ok_0;
            let resolved = store_resolved(second, carried, keys);
            let arrived = filled(resolved->Ok_0, store.nodes.len());
            &&& resolved is Ok
            &&& resolved->Ok_0.members.len() == store.nodes.len()
            &&& arrived == (StoreModel {
                nodes: twin_slots(store.nodes, twin),
                hashes: arrived.hashes,
                freshness: arrived.freshness,
                index: None,
                ..store
            })
            &&& forall|i: int|
                0 <= i < store.nodes.len() ==> hash_of(arrived, twin(#[trigger] store.nodes[i]))
                    == hash_of(store, store.nodes[i])
            &&& forall|n: usize| #[trigger]
                arrived.hashes.contains_key(n) ==> arrived.nodes.contains(n)
        }),
{
    let property = keys.property_of(relationship_type);
    let carried = extracted(first.topology, relationship_type, name, store, property)->Ok_0;
    let label = crate::edge_read::label_text(
        relationship_type,
        crate::names::listed_column(name),
    );
    let nodes = store.nodes;
    let homes = twin_slots(nodes, twin);
    assert(carry_key(carried, keys) == property);
    assert forall|i: int| 0 <= i < nodes.len() implies first.topology.live(
        EdgeIndex { slot: #[trigger] nodes[i] },
    ) by {
        assert(first.topology.live_of_type(EdgeIndex { slot: nodes[i] }, relationship_type));
    }
    addressed_in_place(first.topology, relationship_type, property, store, nodes.len());
    no_group_fault_of_owners(first.topology, relationship_type, label, property, nodes);
    twin_slots_are_homes(first, second, relationship_type, twin, nodes);
    assert forall|i: int| 0 <= i < homes.len() implies {
        let edge = EdgeIndex { slot: #[trigger] homes[i] };
        &&& carried.entries[i].place == place_at(second.topology, property, edge)
        &&& group_fault(
            second.topology,
            parallel(second.topology, edge, relationship_type),
            relationship_type,
            property,
        ) is None
    } by {
        let edge = EdgeIndex { slot: nodes[i] };
        assert(homes[i] == twin(nodes[i]));
        assert(first.topology.live_of_type(edge, relationship_type));
        twins_stand_alike(first, second, relationship_type, twin, nodes[i], property);
        assert(group_of(first.topology, edge) == parallel(first.topology, edge, relationship_type));
        twins_are_told_apart(first, second, relationship_type, twin, nodes[i], property);
        let other = EdgeIndex { slot: twin(nodes[i]) };
        assert(second.topology.live_of_type(other, relationship_type));
        assert(group_of(second.topology, other) == parallel(
            second.topology,
            other,
            relationship_type,
        ));
    }
    named_homes_match(second, carried, property, homes, homes.len());
    let resolved = store_resolved(second, carried, keys)->Ok_0;
    homes_are_filled(resolved, homes, homes.len());
    let arrived = filled(resolved, nodes.len());
    assert(homes.take(homes.len() as int) =~= homes);
    assert(arrived.rows =~= store.rows) by {
        assert forall|i: int| 0 <= i < nodes.len() implies #[trigger] arrived.rows[i]
            == store.rows[i] by {
            assert(nodes.contains(nodes[i]));
            assert(nodes.index_of(nodes[i]) == i);
            assert(carried.entries[i].vector == store.rows[i]);
        }
    }
    assert forall|i: int| 0 <= i < nodes.len() implies hash_of(arrived, twin(#[trigger] nodes[i]))
        == hash_of(store, nodes[i]) by {
        assert(homes[i] == twin(nodes[i]));
        assert(hash_of(arrived, homes[i]) == carried.entries[i].text_hash);
    }
}

/// Whether no two of the relationships rank alike by where they stand. Ids and
/// keys that are lists rank alike, and no others that differ as values do.
pub open spec fn ranked_apart(topology: Topology, property: Option<Text>, nodes: Seq<usize>) -> bool {
    forall|i: int, j: int|
        0 <= i < j < nodes.len() ==> {
            let x = place_at(topology, property, EdgeIndex { slot: #[trigger] nodes[i] });
            let y = place_at(topology, property, EdgeIndex { slot: #[trigger] nodes[j] });
            !(place_before(x, y) && place_before(y, x))
        }
}

proof fn mapped_alike<A, B>(a: Seq<A>, b: Seq<A>, f: spec_fn(A) -> B)
    requires
        a.to_multiset() == b.to_multiset(),
    ensures
        a.map_values(f).to_multiset() == b.map_values(f).to_multiset(),
    decreases a.len(),
{
    broadcast use vstd::seq_lib::group_to_multiset_ensures;

    assert(a.len() == a.to_multiset().len());
    assert(b.len() == b.to_multiset().len());
    if a.len() == 0 {
        assert(a.map_values(f) =~= b.map_values(f));
    } else {
        let last = a.last();
        let rest = a.drop_last();
        assert(a =~= rest.push(last));
        assert(b.to_multiset().contains(last)) by {
            assert(a.contains(last));
        }
        let k = b.index_of(last);
        assert(b.contains(last));
        assert(b[k] == last);
        let others = b.remove(k);
        assert(rest.to_multiset() =~= a.to_multiset().remove(last));
        assert(others.to_multiset() =~= b.to_multiset().remove(last));
        mapped_alike(rest, others, f);
        let mapped = b.map_values(f);
        assert(a.map_values(f) =~= rest.map_values(f).push(f(last)));
        assert(others.map_values(f) =~= mapped.remove(k));
        assert(mapped.contains(mapped[k]));
        assert(mapped.remove(k).to_multiset() =~= mapped.to_multiset().remove(f(last)));
        assert(mapped.to_multiset().contains(f(last)));
        assert(mapped.to_multiset() =~= mapped.to_multiset().remove(f(last)).insert(f(last)));
        assert(a.map_values(f).to_multiset() =~= rest.map_values(f).to_multiset().insert(f(last)));
    }
}

/// The relationships of the second graph that a store's rows name, in the order
/// of the rows.
pub open spec fn twin_order(
    topology: Topology,
    property: Option<Text>,
    store: StoreModel,
    twin: spec_fn(usize) -> usize,
) -> Seq<EdgeIndex> {
    let order = read_order(topology, property, store);
    Seq::new(order.len(), |i: int| EdgeIndex { slot: twin(order[i].slot) })
}

/// What is read of a store can be written to another graph that has the same
/// relationships: row by row it resolves to the twin of each relationship that
/// was read. A parallel group is told apart by a key property, so one has to be
/// named where a relationship of the store has parallels.
pub proof fn what_is_read_names_the_twins(
    first: DirGraph,
    second: DirGraph,
    relationship_type: Text,
    text_column: Text,
    property: Option<&str>,
    store: StoreModel,
    twin: spec_fn(usize) -> usize,
)
    requires
        first.topology.edges@.len() <= usize::MAX,
        second.topology.edges@.len() <= usize::MAX,
        coherent(store),
        forall|i: int|
            0 <= i < store.nodes.len() ==> first.topology.live_of_type(
                EdgeIndex { slot: #[trigger] store.nodes[i] },
                relationship_type,
            ),
        twins(first, second, relationship_type, twin),
        read_fault(
            first.topology,
            relationship_type,
            text_column,
            str_option(property),
            store.nodes,
            0,
        ) is None,
        property is None ==> forall|i: int|
            0 <= i < store.nodes.len() ==> group_of(
                first.topology,
                EdgeIndex { slot: #[trigger] store.nodes[i] },
            ).len() <= 1,
    ensures
        ({
            let key = str_option(property);
            let rows = store_rows(first.topology, key, store);
            let edges = twin_order(first.topology, key, store, twin);
            &&& rows_resolved(second, relationship_type, key, rows_again(rows), rows.len()) == Ok::<
                Seq<EdgeIndex>,
                Text,
            >(edges)
            &&& rows.len() == store.nodes.len()
            &&& edges.no_duplicates()
            &&& edges.len() == rows.len()
            &&& forall|i: int|
                0 <= i < edges.len() ==> {
                    &&& second.topology.live_of_type(#[trigger] edges[i], relationship_type)
                    &&& place_at(second.topology, key, edges[i]) == rows[i].place
                    &&& edges[i].slot == twin(read_order(first.topology, key, store)[i].slot)
                    &&& store.nodes.contains(read_order(first.topology, key, store)[i].slot)
                    &&& ({
                        let members = group_of(second.topology, edges[i]);
                        members.len() <= 1 || (key is Some && keys_fault(
                            second.topology,
                            members,
                            key->0,
                            0,
                        ) is None)
                    })
                }
        }),
{
    let key = str_option(property);
    let topology = first.topology;
    let nodes = store.nodes;
    assert forall|i: int| 0 <= i < nodes.len() implies topology.live(
        EdgeIndex { slot: #[trigger] nodes[i] },
    ) by {
        assert(topology.live_of_type(EdgeIndex { slot: nodes[i] }, relationship_type));
    }
    all_owners_live(topology, nodes, nodes.len());
    assert(nodes.take(nodes.len() as int) =~= nodes);
    let order = nodes.sort_by(row_order(topology, key));
    let read = read_order(topology, key, store);
    let edges = twin_order(topology, key, store, twin);
    let rows = rows_again(store_rows(topology, key, store));
    row_order_is_total(first, property);
    nodes.lemma_sort_by_ensures(row_order(topology, key));
    broadcast use vstd::seq_lib::group_to_multiset_ensures;

    assert(order.len() == nodes.len()) by {
        assert(order.to_multiset().len() == nodes.to_multiset().len());
    }
    nodes.lemma_multiset_has_no_duplicates();
    order.lemma_multiset_has_no_duplicates_conv();
    assert forall|i: int| 0 <= i < order.len() implies nodes.contains(#[trigger] order[i])
        && topology.live_of_type(EdgeIndex { slot: order[i] }, relationship_type) by {
        assert(order.to_multiset().count(order[i]) > 0);
        assert(nodes.to_multiset().count(order[i]) > 0);
        assert(nodes.contains(order[i]));
        let at = nodes.index_of(order[i]);
        assert(nodes[at] == order[i]);
    }
    assert forall|i: int, j: int|
        0 <= i < edges.len() && 0 <= j < edges.len() && i != j implies edges[i] != edges[j] by {
        assert(order[i] != order[j]);
        assert(twin(order[i]) != twin(order[j]));
    }
    assert forall|i: int| 0 <= i < edges.len() implies {
        &&& second.topology.live_of_type(#[trigger] edges[i], relationship_type)
        &&& place_at(second.topology, key, edges[i]) == store_rows(topology, key, store)[i].place
        &&& ({
            let members = group_of(second.topology, edges[i]);
            members.len() <= 1 || (key is Some && keys_fault(
                second.topology,
                members,
                key->0,
                0,
            ) is None)
        })
        &&& row_resolved(
            second,
            relationship_type,
            key,
            rows[i],
            row_prefix(i as nat),
        ) == Ok::<EdgeIndex, Text>(edges[i])
    } by {
        let slot = order[i];
        let at = nodes.index_of(slot);
        assert(nodes[at] == slot);
        assert(edges[i] == EdgeIndex { slot: twin(slot) });
        if property is Some {
            no_read_fault_at(topology, relationship_type, text_column, key, nodes, 0, at);
        }
        twins_stand_alike(first, second, relationship_type, twin, slot, key);
        twins_stand_alike(first, second, relationship_type, twin, slot, None);
        twins_are_told_apart(first, second, relationship_type, twin, slot, key);
        assert(second.topology.live_of_type(EdgeIndex { slot: twin(slot) }, relationship_type));
        assert(found_by_ids(second, EdgeIndex { slot: twin(slot) }));
        an_address_finds_its_relationship(
            second,
            relationship_type,
            key,
            edges[i],
            row_prefix(i as nat),
        );
    }
    assert forall|i: int| 0 <= i < edges.len() implies row_resolved(
        second,
        relationship_type,
        key,
        #[trigger] rows[i],
        row_prefix(i as nat),
    ) == Ok::<EdgeIndex, Text>(edges[i]) by {
        assert(second.topology.live_of_type(edges[i], relationship_type));
    }
    read_rows_resolve(second, relationship_type, key, edges, rows, rows.len());
    assert(edges.take(edges.len() as int) =~= edges);
    assert forall|i: int| 0 <= i < edges.len() implies nodes.contains(
        read_order(topology, key, store)[i].slot,
    ) && (#[trigger] edges[i]).slot == twin(read_order(topology, key, store)[i].slot) by {
        assert(read[i].slot == order[i]);
    }
}

proof fn told_apart_rows_have_no_fault(
    topology: Topology,
    relationship_type: Text,
    text_column: Text,
    property: Option<Text>,
    nodes: Seq<usize>,
    position: int,
)
    requires
        0 <= position,
        forall|i: int|
            0 <= i < nodes.len() ==> {
                let edge = EdgeIndex { slot: #[trigger] nodes[i] };
                let members = group_of(topology, edge);
                &&& topology.live_of_type(edge, relationship_type)
                &&& members.len() <= 1 || (property is Some && keys_fault(
                    topology,
                    members,
                    property->0,
                    0,
                ) is None)
            },
    ensures
        read_fault(topology, relationship_type, text_column, property, nodes, position) is None,
    decreases nodes.len() - position,
{
    if position < nodes.len() {
        let edge = EdgeIndex { slot: nodes[position] };
        assert(topology.live_of_type(edge, relationship_type));
        told_apart_rows_have_no_fault(
            topology,
            relationship_type,
            text_column,
            property,
            nodes,
            position + 1,
        );
    }
}

proof fn sound_entries_have_no_fault(
    topology: Topology,
    relationship_type: Text,
    entries: Seq<(EdgeIndex, Seq<u32>)>,
    dimension: usize,
    list: Text,
    position: int,
)
    requires
        0 <= position,
        entries_sound(topology, relationship_type, entries, dimension),
    ensures
        entries_fault(topology, relationship_type, entries, dimension, list, position) is None,
    decreases entries.len() - position,
{
    if position < entries.len() {
        let edge = entries[position].0;
        assert(topology.live_of_type(edge, relationship_type));
        if slots_of(entries, position).contains(edge.slot) {
            let i = choose|i: int|
                0 <= i < position && (#[trigger] entries[i]).0.slot == edge.slot;
            assert(entries[i].0 != entries[position].0);
            assert(entries[i].0 == edge);
        }
        assert(entry_fault(topology, relationship_type, entries, dimension, list, position)
            is None);
        sound_entries_have_no_fault(
            topology,
            relationship_type,
            entries,
            dimension,
            list,
            position + 1,
        );
    }
}

proof fn rows_in_place_read_the_same(
    graph: DirGraph,
    property: Option<&str>,
    store: StoreModel,
    rows: Seq<ReadModel>,
)
    requires
        coherent(store),
        rows.len() == store.nodes.len(),
        forall|i: int|
            0 <= i < rows.len() ==> {
                let edge = EdgeIndex { slot: #[trigger] store.nodes[i] };
                &&& graph.topology.live(edge)
                &&& rows[i] == (ReadModel {
                    place: place_at(graph.topology, str_option(property), edge),
                    vector: store.rows[i],
                })
            },
    ensures
        store_rows(graph.topology, str_option(property), store).to_multiset()
            == rows.to_multiset(),
        sorted_by(store.nodes, row_order(graph.topology, str_option(property))) ==> store_rows(
            graph.topology,
            str_option(property),
            store,
        ) == rows,
{
    let key = str_option(property);
    let topology = graph.topology;
    let nodes = store.nodes;
    let order = nodes.sort_by(row_order(topology, key));
    let read = |slot: usize|
        ReadModel {
            place: place_at(topology, key, EdgeIndex { slot }),
            vector: vector_of(store, slot)->0,
        };
    all_owners_live(topology, nodes, nodes.len());
    assert(nodes.take(nodes.len() as int) =~= nodes);
    row_order_is_total(graph, property);
    nodes.lemma_sort_by_ensures(row_order(topology, key));
    mapped_alike(order, nodes, read);
    assert(store_rows(topology, key, store) =~= order.map_values(read));
    assert(rows =~= nodes.map_values(read)) by {
        assert forall|i: int| 0 <= i < rows.len() implies #[trigger] rows[i] == read(nodes[i]) by {
            assert(nodes.contains(nodes[i]));
            assert(nodes.index_of(nodes[i]) == i);
        }
    }
    if sorted_by(nodes, row_order(topology, key)) {
        vstd::seq_lib::lemma_sorted_unique(order, nodes, row_order(topology, key));
    }
}

proof fn twin_order_is_sorted(
    first: DirGraph,
    second: DirGraph,
    relationship_type: Text,
    property: Option<&str>,
    store: StoreModel,
    twin: spec_fn(usize) -> usize,
)
    requires
        coherent(store),
        forall|i: int|
            0 <= i < store.nodes.len() ==> first.topology.live_of_type(
                EdgeIndex { slot: #[trigger] store.nodes[i] },
                relationship_type,
            ),
        twins(first, second, relationship_type, twin),
        ranked_apart(first.topology, str_option(property), store.nodes),
    ensures
        ({
            let edges = twin_order(first.topology, str_option(property), store, twin);
            sorted_by(
                Seq::new(edges.len(), |i: int| edges[i].slot),
                row_order(second.topology, str_option(property)),
            )
        }),
{
    broadcast use vstd::seq_lib::group_to_multiset_ensures;

    let key = str_option(property);
    let topology = first.topology;
    let nodes = store.nodes;
    assert forall|i: int| 0 <= i < nodes.len() implies topology.live(
        EdgeIndex { slot: #[trigger] nodes[i] },
    ) by {
        assert(topology.live_of_type(EdgeIndex { slot: nodes[i] }, relationship_type));
    }
    all_owners_live(topology, nodes, nodes.len());
    assert(nodes.take(nodes.len() as int) =~= nodes);
    let r = row_order(topology, key);
    let order = nodes.sort_by(r);
    row_order_is_total(first, property);
    nodes.lemma_sort_by_ensures(r);
    nodes.lemma_multiset_has_no_duplicates();
    order.lemma_multiset_has_no_duplicates_conv();
    let edges = twin_order(topology, key, store, twin);
    let slots = Seq::new(edges.len(), |i: int| edges[i].slot);
    let s = row_order(second.topology, key);
    assert forall|i: int, j: int| 0 <= i < j < slots.len() implies #[trigger] s(
        slots[i],
        slots[j],
    ) by {
        assert(r(order[i], order[j]));
        assert(order.to_multiset().count(order[i]) > 0);
        assert(order.to_multiset().count(order[j]) > 0);
        assert(nodes.contains(order[i]) && nodes.contains(order[j]));
        let a = nodes.index_of(order[i]);
        let b = nodes.index_of(order[j]);
        assert(nodes[a] == order[i] && nodes[b] == order[j]);
        assert(order[i] != order[j]);
        assert(topology.live_of_type(EdgeIndex { slot: nodes[a] }, relationship_type));
        assert(topology.live_of_type(EdgeIndex { slot: nodes[b] }, relationship_type));
        twins_stand_alike(first, second, relationship_type, twin, order[i], key);
        twins_stand_alike(first, second, relationship_type, twin, order[j], key);
        assert(slots[i] == twin(order[i]) && slots[j] == twin(order[j]));
        assert(second.topology.live_of_type(EdgeIndex { slot: slots[i] }, relationship_type));
        assert(second.topology.live_of_type(EdgeIndex { slot: slots[j] }, relationship_type));
    }
}

/// What is read of a store in one graph and written to another that has the same
/// relationships, made in whatever order, is accepted there and reads back the
/// same: the same rows, and in the same order where no two of them rank alike by
/// where they stand. A parallel group is told apart by a key property, so one
/// has to be named where a relationship of the store has parallels; and the type
/// has to have the column in the other graph.
pub proof fn what_is_written_elsewhere_reads_the_same(
    first: DirGraph,
    second: DirGraph,
    after: DirGraph,
    relationship_type: Text,
    text_column: Text,
    property: Option<&str>,
    store: StoreModel,
    metric: Option<Text>,
    twin: spec_fn(usize) -> usize,
)
    requires
        first.topology.edges@.len() <= usize::MAX,
        second.topology.edges@.len() <= usize::MAX,
        coherent(store),
        store.nodes.len() > 0,
        store.dimension > 0,
        forall|i: int| 0 <= i < store.rows.len() ==> fault_of(#[trigger] store.rows[i]) is None,
        forall|i: int|
            0 <= i < store.nodes.len() ==> first.topology.live_of_type(
                EdgeIndex { slot: #[trigger] store.nodes[i] },
                relationship_type,
            ),
        twins(first, second, relationship_type, twin),
        read_fault(
            first.topology,
            relationship_type,
            text_column,
            str_option(property),
            store.nodes,
            0,
        ) is None,
        property is None ==> forall|i: int|
            0 <= i < store.nodes.len() ==> group_of(
                first.topology,
                EdgeIndex { slot: #[trigger] store.nodes[i] },
            ).len() <= 1,
        metric_fault(metric) is None,
        carried_fault(second, "column"@, relationship_type, text_column) is None,
    ensures
        ({
            let key = str_option(property);
            let rows = store_rows(first.topology, key, store);
            let given = rows_again(rows);
            let entries = batch_entries(second, relationship_type, key, given);
            let written = store_of_entries(entries[0].1.len() as usize, metric, entries);
            &&& batch_fault(second, relationship_type, text_column, key, given) is None
            &&& replace_fault(second.topology, relationship_type, entries, metric, "rows"@) is None
            &&& replace_done(
                second,
                after,
                relationship_type,
                text_column,
                written,
                typed_edges(second.topology.edges@, relationship_type),
            ) ==> {
                let found = lookup(
                    after.edge_embeddings@,
                    relationship_type,
                    store_name_of(text_column),
                );
                &&& relationship_read_fault(after, relationship_type, text_column, key) is None
                &&& found == Some(written)
                &&& store_rows(after.topology, key, found->0).to_multiset() == rows.to_multiset()
                &&& ranked_apart(first.topology, key, store.nodes) ==> store_rows(
                    after.topology,
                    key,
                    found->0,
                ) == rows
            }
        }),
{
    let key = str_option(property);
    let topology = first.topology;
    let nodes = store.nodes;
    let rows = store_rows(topology, key, store);
    let given = rows_again(rows);
    let read = read_order(topology, key, store);
    let edges = twin_order(topology, key, store, twin);
    what_is_read_names_the_twins(
        first,
        second,
        relationship_type,
        text_column,
        property,
        store,
        twin,
    );
    let entries = batch_entries(second, relationship_type, key, given);
    let dimension = entries[0].1.len() as usize;
    let written = store_of_entries(dimension, metric, entries);
    assert(entries.len() == edges.len());
    assert forall|i: int| 0 <= i < entries.len() implies {
        &&& (#[trigger] entries[i]).0 == edges[i]
        &&& entries[i].1 == rows[i].vector
        &&& entries[i].1.len() == store.dimension
        &&& fault_of(entries[i].1) is None
    } by {
        let slot = read[i].slot;
        assert(edges[i].slot == twin(slot));
        assert(nodes.contains(slot));
        let at = nodes.index_of(slot);
        assert(rows[i].vector == store.rows[at]);
        assert(fault_of(store.rows[at]) is None);
    }
    assert(entries[0].1.len() == store.dimension);
    assert(entries_sound(second.topology, relationship_type, entries, dimension)) by {
        assert forall|i: int| 0 <= i < entries.len() implies second.topology.live_of_type(
            (#[trigger] entries[i]).0,
            relationship_type,
        ) by {
            assert(second.topology.live_of_type(edges[i], relationship_type));
        }
        assert forall|i: int, j: int| 0 <= i < j < entries.len() implies (#[trigger] entries[i]).0
            != (#[trigger] entries[j]).0 by {
            assert(edges[i] != edges[j]);
        }
    }
    sound_entries_have_no_fault(
        second.topology,
        relationship_type,
        entries,
        dimension,
        "rows"@,
        0,
    );
    if replace_done(
        second,
        after,
        relationship_type,
        text_column,
        written,
        typed_edges(second.topology.edges@, relationship_type),
    ) {
        assert(after.topology == second.topology);
        a_kept_store_is_found(
            second.edge_embeddings@,
            relationship_type,
            store_name_of(text_column),
            written,
        );
        assert forall|i: int| 0 <= i < written.nodes.len() implies {
            let edge = EdgeIndex { slot: #[trigger] written.nodes[i] };
            let members = group_of(second.topology, edge);
            &&& second.topology.live_of_type(edge, relationship_type)
            &&& members.len() <= 1 || (key is Some && keys_fault(
                second.topology,
                members,
                key->0,
                0,
            ) is None)
            &&& rows[i] == (ReadModel {
                place: place_at(second.topology, key, edge),
                vector: written.rows[i],
            })
        } by {
            assert(entries[i].0 == edges[i]);
            assert(EdgeIndex { slot: written.nodes[i] } == edges[i]);
            assert(second.topology.live_of_type(edges[i], relationship_type));
            assert(rows[i] == (ReadModel { place: rows[i].place, vector: rows[i].vector }));
        }
        told_apart_rows_have_no_fault(
            second.topology,
            relationship_type,
            text_column,
            key,
            written.nodes,
            0,
        );
        assert(coherent(written)) by {
            assert forall|i: int, j: int|
                0 <= i < written.nodes.len() && 0 <= j < written.nodes.len() && i
                    != j implies written.nodes[i] != written.nodes[j] by {
                assert(edges[i] != edges[j]);
                assert(entries[i].0 == edges[i] && entries[j].0 == edges[j]);
            }
        }
        assert forall|i: int| 0 <= i < written.nodes.len() implies second.topology.live(
            EdgeIndex { slot: #[trigger] written.nodes[i] },
        ) by {
            assert(second.topology.live_of_type(
                EdgeIndex { slot: written.nodes[i] },
                relationship_type,
            ));
        }
        rows_in_place_read_the_same(after, property, written, rows);
        if ranked_apart(topology, key, nodes) {
            twin_order_is_sorted(
                first,
                second,
                relationship_type,
                property,
                store,
                twin,
            );
            assert(written.nodes =~= Seq::new(edges.len(), |i: int| edges[i].slot));
        }
    }
}

/// The store that is read for a type and a text column.
pub open spec fn store_read(graph: DirGraph, relationship_type: Text, text_column: Text) -> StoreModel {
    lookup(graph.edge_embeddings@, relationship_type, store_name_of(text_column))->0
}

/// What is read of a text column in one graph and written to another that has the
/// same relationships of the type, made in whatever order, is accepted there and
/// reads back the same: every vector is on the relationship with the same
/// endpoints and key. The rows come in the same order where no two of them rank
/// alike by where they stand. A key property that tells parallel relationships
/// apart has to be named where a relationship of the store has parallels.
pub proof fn a_column_read_here_reads_the_same_there(
    first: DirGraph,
    second: DirGraph,
    after: DirGraph,
    relationship_type: Text,
    text_column: Text,
    property: Option<&str>,
    metric: Option<Text>,
    twin: spec_fn(usize) -> usize,
)
    requires
        first.well_formed(),
        stores_owned(first),
        second.well_formed(),
        twins(first, second, relationship_type, twin),
        relationship_read_fault(first, relationship_type, text_column, str_option(property)) is None,
        store_read(first, relationship_type, text_column).nodes.len() > 0,
        property is None ==> forall|i: int|
            0 <= i < store_read(first, relationship_type, text_column).nodes.len() ==> group_of(
                first.topology,
                EdgeIndex {
                    slot: #[trigger] store_read(first, relationship_type, text_column).nodes[i],
                },
            ).len() <= 1,
        metric_fault(metric) is None,
        carried_fault(second, "column"@, relationship_type, text_column) is None,
    ensures
        ({
            let key = str_option(property);
            let store = store_read(first, relationship_type, text_column);
            let rows = store_rows(first.topology, key, store);
            let given = rows_again(rows);
            let entries = batch_entries(second, relationship_type, key, given);
            &&& batch_fault(second, relationship_type, text_column, key, given) is None
            &&& replace_fault(second.topology, relationship_type, entries, metric, "rows"@) is None
            &&& replace_done(
                second,
                after,
                relationship_type,
                text_column,
                store_of_entries(entries[0].1.len() as usize, metric, entries),
                typed_edges(second.topology.edges@, relationship_type),
            ) ==> {
                let back = store_rows(
                    after.topology,
                    key,
                    store_read(after, relationship_type, text_column),
                );
                &&& relationship_read_fault(after, relationship_type, text_column, key) is None
                &&& back.to_multiset() == rows.to_multiset()
                &&& ranked_apart(first.topology, key, store.nodes) ==> back == rows
            }
        }),
{
    let name = store_name_of(text_column);
    let store = store_read(first, relationship_type, text_column);
    assert(lookup(first.edge_embeddings@, relationship_type, name) == Some(store));
    assert(owned(first.topology, relationship_type, store));
    kept_store_is_coherent(first, relationship_type, name);
    assert forall|i: int| 0 <= i < store.rows.len() implies fault_of(#[trigger] store.rows[i])
        is None by {
        assert(all_finite(store.rows[i]));
    }
    what_is_written_elsewhere_reads_the_same(
        first,
        second,
        after,
        relationship_type,
        text_column,
        property,
        store,
        metric,
        twin,
    );
}

} // verus!
