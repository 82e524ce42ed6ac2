//! What holds of a carry as a whole.

use crate::address::group_lists_its_edges;
use crate::carry::{
    addressed, extract_fault, extracted, group_fault, no_shape_fault_at, no_vector_fault_at,
    parallel, vectors_fault, CarriedEntryModel, CarriedStoreModel,
};
use crate::carry_install::{carry_installed, filled, stores_after};
use crate::carry_resolve::{
    carry_key, claimed, entry_match, matched_upto, member_match, resolution, store_resolved,
    stores_resolved, ResolvedModel,
};
use crate::catalog::{a_kept_store_is_found, lookup, EntryModel};
use crate::edge_read::place_at;
use crate::graph::{node_by_id, DirGraph};
use crate::groups::{
    a_key_picks_one_member, faultless_keys_tell_apart, key_of, member_with_key, RelationshipKeys,
};
use crate::names::store_name_of;
use crate::ownership_laws::{a_write_keeps_owned, owned, stores_owned};
use crate::store::{coherent, hash_of, holds, vector_of, StoreModel};
use crate::text::Text;
use crate::topology::{group_edges, Topology};
use crate::value::{EdgeIndex, NodeIndex, ValueModel};
use vstd::prelude::*;

verus! {

/// The order of the members never enters the identity: in a parallel group a
/// carried vector goes to a relationship that has its key value, and to none
/// where no relationship has it.
pub proof fn a_carried_vector_follows_its_key(
    topology: Topology,
    store: CarriedStoreModel,
    property: Option<Text>,
    entry: CarriedEntryModel,
    source: NodeIndex,
    target: NodeIndex,
)
    requires
        group_edges(topology.edges@, source, target, store.relationship_type).len() > 1,
    ensures
        match member_match(topology, store, property, entry, source, target) {
            Ok(Some(edge)) => {
                &&& property is Some
                &&& entry.place.key is Some
                &&& key_of(topology, edge, property->0) == entry.place.key
                &&& group_edges(
                    topology.edges@,
                    source,
                    target,
                    store.relationship_type,
                ).contains(edge)
            },
            Ok(None) => {
                &&& property is Some
                &&& forall|i: int|
                    0 <= i < group_edges(
                        topology.edges@,
                        source,
                        target,
                        store.relationship_type,
                    ).len() ==> key_of(
                        topology,
                        #[trigger] group_edges(
                            topology.edges@,
                            source,
                            target,
                            store.relationship_type,
                        )[i],
                        property->0,
                    ) != entry.place.key
            },
            Err(_) => true,
        },
{
    let members = group_edges(topology.edges@, source, target, store.relationship_type);
    if property is Some && entry.place.key is Some {
        crate::groups::member_is_listed(topology, members, property->0, entry.place.key->0, 0);
        match member_with_key(topology, members, property->0, entry.place.key->0, 0) {
            Some(edge) => {
                let i = choose|i: int| 0 <= i < members.len() && #[trigger] members[i] == edge;
                assert(members[i] == edge);
            },
            None => {},
        }
    }
}

/// The vectors of a store can be addressed: each owner lives, is of the type,
/// and the ids of its endpoints find them.
pub open spec fn addressable(graph: DirGraph, relationship_type: Text, nodes: Seq<usize>) -> bool {
    forall|i: int|
        0 <= i < nodes.len() ==> {
            let edge = EdgeIndex { slot: #[trigger] nodes[i] };
            let record = graph.topology.record(edge);
            let place = place_at(graph.topology, None, edge);
            &&& graph.topology.live_of_type(edge, relationship_type)
            &&& node_by_id(graph, place.source_type, place.source_id) == Some(record.source)
            &&& node_by_id(graph, place.target_type, place.target_id) == Some(record.target)
        }
}

proof fn no_group_fault_at(
    topology: Topology,
    relationship_type: Text,
    label: Text,
    property: Option<Text>,
    nodes: Seq<usize>,
    from: int,
    at: int,
)
    requires
        0 <= from <= at < nodes.len(),
        extract_fault(topology, relationship_type, label, property, nodes, from) is None,
        topology.live(EdgeIndex { slot: nodes[at] }),
    ensures
        group_fault(
            topology,
            parallel(topology, EdgeIndex { slot: nodes[at] }, relationship_type),
            relationship_type,
            property,
        ) is None,
    decreases at - from,
{
    if from < at {
        no_group_fault_at(topology, relationship_type, label, property, nodes, from + 1, at);
    }
}

/// A carried vector finds the relationship it was taken from.
pub proof fn a_carried_vector_finds_its_relationship(
    graph: DirGraph,
    store: CarriedStoreModel,
    property: Option<Text>,
    entry: CarriedEntryModel,
    edge: EdgeIndex,
)
    requires
        graph.topology.edges@.len() <= usize::MAX,
        addressable(graph, store.relationship_type, seq![edge.slot]),
        entry.place == place_at(graph.topology, property, edge),
        group_fault(
            graph.topology,
            parallel(graph.topology, edge, store.relationship_type),
            store.relationship_type,
            property,
        ) is None,
    ensures
        entry_match(graph, store, property, entry) == Ok::<Option<EdgeIndex>, Text>(Some(edge)),
{
    let topology = graph.topology;
    assert(seq![edge.slot][0] == edge.slot);
    assert(edge == EdgeIndex { slot: edge.slot });
    let record = topology.record(edge);
    let members = parallel(topology, edge, store.relationship_type);
    group_lists_its_edges(
        topology.edges@,
        record.source,
        record.target,
        store.relationship_type,
    );
    assert(members.contains(edge));
    let at = members.index_of(edge);
    assert(members[at] == edge);
    if members.len() > 1 {
        faultless_keys_tell_apart(topology, members, property->0);
        a_key_picks_one_member(topology, members, property->0, edge);
        assert(key_of(topology, members[at], property->0) is Some);
    } else {
        assert(at == 0);
    }
}

/// The relationships of a store's owners, each with its place.
pub open spec fn own_members(nodes: Seq<usize>, count: nat) -> Seq<(EdgeIndex, usize)> {
    Seq::new(count, |i: int| (EdgeIndex { slot: nodes[i] }, i as usize))
}

pub(crate) proof fn addressed_in_place(
    topology: Topology,
    relationship_type: Text,
    property: Option<Text>,
    store: StoreModel,
    count: nat,
)
    requires
        count <= store.nodes.len(),
        forall|i: int|
            0 <= i < store.nodes.len() ==> topology.live(EdgeIndex { slot: #[trigger] store.nodes[i] }),
    ensures
        addressed(topology, property, store, count).len() == count,
        forall|i: int|
            0 <= i < count ==> #[trigger] addressed(topology, property, store, count)[i] == (
            CarriedEntryModel {
                place: place_at(topology, property, EdgeIndex { slot: store.nodes[i] }),
                vector: vector_of(store, store.nodes[i])->0,
                text_hash: hash_of(store, store.nodes[i]),
            }),
    decreases count,
{
    if count > 0 {
        addressed_in_place(topology, relationship_type, property, store, (count - 1) as nat);
        assert(topology.live(EdgeIndex { slot: store.nodes[count - 1] }));
    }
}

/// Where the carried vectors belong: each at a relationship of the graph that
/// its address and, in a parallel group, its key name.
pub(crate) open spec fn homes_named(
    graph: DirGraph,
    carried: CarriedStoreModel,
    property: Option<Text>,
    homes: Seq<usize>,
) -> bool {
    &&& carried.entries.len() == homes.len()
    &&& homes.len() <= usize::MAX
    &&& homes.no_duplicates()
    &&& addressable(graph, carried.relationship_type, homes)
    &&& forall|i: int|
        0 <= i < homes.len() ==> {
            let edge = EdgeIndex { slot: #[trigger] homes[i] };
            &&& carried.entries[i].place == place_at(graph.topology, property, edge)
            &&& group_fault(
                graph.topology,
                parallel(graph.topology, edge, carried.relationship_type),
                carried.relationship_type,
                property,
            ) is None
        }
}

pub(crate) proof fn named_homes_match(
    graph: DirGraph,
    carried: CarriedStoreModel,
    property: Option<Text>,
    homes: Seq<usize>,
    count: nat,
)
    requires
        graph.topology.edges@.len() <= usize::MAX,
        homes_named(graph, carried, property, homes),
        count <= homes.len(),
    ensures
        matched_upto(graph, carried, property, count) == Ok::<Seq<(EdgeIndex, usize)>, Text>(
            own_members(homes, count),
        ),
    decreases count,
{
    if count == 0 {
        assert(own_members(homes, 0) =~= Seq::empty());
    } else {
        let at = count - 1;
        named_homes_match(graph, carried, property, homes, at as nat);
        let edge = EdgeIndex { slot: homes[at] };
        let one = seq![edge.slot];
        assert(addressable(graph, carried.relationship_type, one)) by {
            assert forall|i: int| 0 <= i < one.len() implies one[i] == homes[at] by {}
            assert(one[0] == homes[at]);
        }
        a_carried_vector_finds_its_relationship(
            graph,
            carried,
            property,
            carried.entries[at],
            edge,
        );
        let before = own_members(homes, at as nat);
        if claimed(before, edge) {
            let k = choose|k: int| 0 <= k < before.len() && (#[trigger] before[k]).0 == edge;
            assert(homes[k] == homes[at]);
        }
        assert(own_members(homes, count) =~= before.push((edge, at as usize)));
    }
}

pub(crate) proof fn homes_are_filled(resolved: ResolvedModel, homes: Seq<usize>, count: nat)
    requires
        homes.no_duplicates(),
        homes.len() <= usize::MAX,
        count <= homes.len(),
        resolved.members == own_members(homes, homes.len()),
        resolved.store.entries.len() == homes.len(),
    ensures
        filled(resolved, count) == (StoreModel {
            nodes: homes.take(count as int),
            rows: Seq::new(count, |i: int| resolved.store.entries[i].vector),
            hashes: filled(resolved, count).hashes,
            freshness: filled(resolved, count).freshness,
            index: None,
            dimension: resolved.store.dimension,
            metric: resolved.store.metric,
            model_id: resolved.store.model_id,
        }),
        forall|i: int|
            0 <= i < count ==> hash_of(filled(resolved, count), #[trigger] homes[i])
                == resolved.store.entries[i].text_hash,
        forall|n: usize| #[trigger]
            filled(resolved, count).hashes.contains_key(n) ==> homes.take(count as int).contains(n),
    decreases count,
{
    if count > 0 {
        let at = count - 1;
        homes_are_filled(resolved, homes, at as nat);
        let before = filled(resolved, at as nat);
        let after = filled(resolved, count);
        let node = homes[at];
        let taken = homes.take(at);
        let vectors = Seq::new(at as nat, |i: int| resolved.store.entries[i].vector);
        assert(homes.take(count as int) =~= taken.push(node));
        assert(Seq::new(count, |i: int| resolved.store.entries[i].vector) =~= vectors.push(
            resolved.store.entries[at].vector,
        ));
        if holds(before, node) {
            let k = taken.index_of(node);
            assert(homes[k] == homes[at]);
        }
        assert(resolved.members[at] == (EdgeIndex { slot: node }, at as usize));
        assert forall|i: int| 0 <= i < count implies hash_of(after, #[trigger] homes[i])
            == resolved.store.entries[i].text_hash by {
            if i < at {
                assert(homes[i] != node);
                assert(hash_of(after, homes[i]) == hash_of(before, homes[i]));
            }
        }
        assert forall|n: usize| #[trigger] after.hashes.contains_key(n) implies homes.take(
            count as int,
        ).contains(n) by {
            if n == node {
                assert(taken.push(node)[at] == n);
            } else {
                assert(before.hashes.contains_key(n));
                let k = taken.index_of(n);
                assert(taken.push(node)[k] == n);
            }
        }
    } else {
        assert(homes.take(0) =~= Seq::empty());
        assert(filled(resolved, 0).rows =~= Seq::new(
            0,
            |i: int| resolved.store.entries[i].vector,
        ));
    }
}

/// Why no vector of an extracted store was refused.
pub(crate) proof fn no_group_fault_of_owners(
    topology: Topology,
    relationship_type: Text,
    label: Text,
    property: Option<Text>,
    nodes: Seq<usize>,
)
    requires
        extract_fault(topology, relationship_type, label, property, nodes, 0) is None,
        forall|i: int|
            0 <= i < nodes.len() ==> topology.live(EdgeIndex { slot: #[trigger] nodes[i] }),
    ensures
        forall|i: int|
            0 <= i < nodes.len() ==> group_fault(
                topology,
                parallel(topology, EdgeIndex { slot: #[trigger] nodes[i] }, relationship_type),
                relationship_type,
                property,
            ) is None,
{
    assert forall|i: int| 0 <= i < nodes.len() implies group_fault(
        topology,
        parallel(topology, EdgeIndex { slot: #[trigger] nodes[i] }, relationship_type),
        relationship_type,
        property,
    ) is None by {
        no_group_fault_at(topology, relationship_type, label, property, nodes, 0, i);
    }
}

/// A store that is carried and resolved against the graph it came from is the
/// store it was, without its index: every vector is on its relationship with
/// its hash, in the same order, under the same metric and model.
pub proof fn a_carry_brings_every_vector_home(
    graph: DirGraph,
    relationship_type: Text,
    name: Text,
    store: StoreModel,
    keys: RelationshipKeys,
)
    requires
        graph.topology.edges@.len() <= usize::MAX,
        coherent(store),
        addressable(graph, relationship_type, store.nodes),
        extracted(
            graph.topology,
            relationship_type,
            name,
            store,
            keys.property_of(relationship_type),
        ) is Ok,
    ensures
        ({
            let carried = extracted(
                graph.topology,
                relationship_type,
                name,
                store,
                keys.property_of(relationship_type),
            )->Ok_0;
            let resolved = store_resolved(graph, carried, keys);
            &&& resolved is Ok
            &&& resolved->Ok_0.members.len() == carried.entries.len()
            &&& carried.entries.len() == store.nodes.len()
            &&& filled(resolved->Ok_0, store.nodes.len()) == (StoreModel {
                index: None,
                freshness: filled(resolved->Ok_0, store.nodes.len()).freshness,
                ..store
            })
        }),
{
    let property = keys.property_of(relationship_type);
    let carried = extracted(graph.topology, relationship_type, name, store, property)->Ok_0;
    let label = crate::edge_read::label_text(
        relationship_type,
        crate::names::listed_column(name),
    );
    assert(carry_key(carried, keys) == property);
    assert forall|i: int| 0 <= i < store.nodes.len() implies graph.topology.live(
        EdgeIndex { slot: #[trigger] store.nodes[i] },
    ) by {
        assert(graph.topology.live_of_type(
            EdgeIndex { slot: store.nodes[i] },
            relationship_type,
        ));
    }
    addressed_in_place(
        graph.topology,
        relationship_type,
        property,
        store,
        store.nodes.len(),
    );
    no_group_fault_of_owners(graph.topology, relationship_type, label, property, store.nodes);
    named_homes_match(graph, carried, property, store.nodes, store.nodes.len());
    let resolved = store_resolved(graph, carried, keys)->Ok_0;
    assert forall|i: int| 0 <= i < store.nodes.len() implies (
    #[trigger] resolved.store.entries[i]).vector == store.rows[i]
        && resolved.store.entries[i].text_hash == hash_of(store, store.nodes[i]) by {
        assert(store.nodes.contains(store.nodes[i]));
        assert(store.nodes.index_of(store.nodes[i]) == i);
    }
    homes_are_filled(resolved, store.nodes, store.nodes.len());
    let all = filled(resolved, store.nodes.len());
    assert(store.nodes.take(store.nodes.len() as int) =~= store.nodes);
    assert(all.rows =~= store.rows);
    assert forall|n: usize| #[trigger] all.hashes.contains_key(n) == store.hashes.contains_key(n)
        && hash_of(all, n) == hash_of(store, n) by {
        if store.nodes.contains(n) {
            let k = store.nodes.index_of(n);
            assert(store.nodes[k] == n);
            assert(hash_of(all, store.nodes[k]) == resolved.store.entries[k].text_hash);
        }
    }
    assert(all.hashes =~= store.hashes);
}

proof fn a_member_with_a_key_is_a_member(
    topology: Topology,
    members: Seq<EdgeIndex>,
    property: Text,
    value: ValueModel,
    position: int,
)
    ensures
        member_with_key(topology, members, property, value, position) is Some ==> members.contains(
            member_with_key(topology, members, property, value, position)->0,
        ),
    decreases members.len() - position,
{
    if 0 <= position < members.len() {
        if key_of(topology, members[position], property) == Some(value) {
            assert(members.contains(members[position]));
        } else {
            a_member_with_a_key_is_a_member(topology, members, property, value, position + 1);
        }
    }
}

/// A carried vector finds live relationships of its store's type only.
pub proof fn a_match_is_of_the_type(
    graph: DirGraph,
    store: CarriedStoreModel,
    property: Option<Text>,
    entry: CarriedEntryModel,
)
    requires
        graph.topology.edges@.len() <= usize::MAX,
    ensures
        entry_match(graph, store, property, entry) matches Ok(Some(edge))
            ==> graph.topology.live_of_type(edge, store.relationship_type),
{
    let source = node_by_id(graph, entry.place.source_type, entry.place.source_id);
    let target = node_by_id(graph, entry.place.target_type, entry.place.target_id);
    if source is Some && target is Some {
        let edges = graph.topology.edges@;
        let members = group_edges(edges, source->0, target->0, store.relationship_type);
        group_lists_its_edges(edges, source->0, target->0, store.relationship_type);
        if let (Some(wanted), Some(p)) = (entry.place.key, property) {
            a_member_with_a_key_is_a_member(graph.topology, members, p, wanted, 0);
        }
        if members.len() > 0 {
            assert(members.contains(members[0]));
        }
    }
}

proof fn matches_are_of_the_type(
    graph: DirGraph,
    store: CarriedStoreModel,
    property: Option<Text>,
    count: nat,
)
    requires
        graph.topology.edges@.len() <= usize::MAX,
        matched_upto(graph, store, property, count) is Ok,
        count <= store.entries.len(),
        store.entries.len() <= usize::MAX,
    ensures
        forall|i: int|
            0 <= i < matched_upto(graph, store, property, count)->Ok_0.len() ==> {
                let member = #[trigger] matched_upto(graph, store, property, count)->Ok_0[i];
                &&& member.1 < store.entries.len()
                &&& graph.topology.live_of_type(member.0, store.relationship_type)
            },
    decreases count,
{
    if count > 0 {
        let prior = (count - 1) as nat;
        matches_are_of_the_type(graph, store, property, prior);
        a_match_is_of_the_type(graph, store, property, store.entries[count - 1]);
        let before = matched_upto(graph, store, property, prior)->Ok_0;
        let all = matched_upto(graph, store, property, count)->Ok_0;
        assert forall|i: int| 0 <= i < all.len() implies {
            let member = #[trigger] all[i];
            &&& member.1 < store.entries.len()
            &&& graph.topology.live_of_type(member.0, store.relationship_type)
        } by {
            if i < before.len() {
                assert(all[i] == before[i]);
            }
        }
    }
}

proof fn a_filled_store_is_owned(graph: DirGraph, resolved: ResolvedModel, count: nat)
    requires
        resolved.store.dimension > 0,
        vectors_fault(resolved.store, 0) is None,
        count <= resolved.members.len(),
        forall|i: int|
            0 <= i < resolved.members.len() ==> {
                let member = #[trigger] resolved.members[i];
                &&& member.1 < resolved.store.entries.len()
                &&& graph.topology.live_of_type(member.0, resolved.store.relationship_type)
            },
    ensures
        owned(graph.topology, resolved.store.relationship_type, filled(resolved, count)),
    decreases count,
{
    if count > 0 {
        a_filled_store_is_owned(graph, resolved, (count - 1) as nat);
        let (edge, place) = resolved.members[count - 1];
        no_vector_fault_at(resolved.store, 0, place as int);
        a_write_keeps_owned(
            graph.topology,
            resolved.store.relationship_type,
            filled(resolved, (count - 1) as nat),
            edge.slot,
            resolved.store.entries[place as int].vector,
            resolved.store.entries[place as int].text_hash,
        );
    }
}

proof fn resolved_in_turn(
    graph: DirGraph,
    stores: Seq<CarriedStoreModel>,
    keys: RelationshipKeys,
    count: nat,
)
    requires
        count <= stores.len(),
        stores_resolved(graph, stores, keys, count) is Ok,
    ensures
        stores_resolved(graph, stores, keys, count)->Ok_0.len() == count,
        forall|i: int|
            0 <= i < count ==> store_resolved(graph, stores[i], keys) == Ok::<ResolvedModel, Text>(
                #[trigger] stores_resolved(graph, stores, keys, count)->Ok_0[i],
            ),
    decreases count,
{
    if count > 0 {
        resolved_in_turn(graph, stores, keys, (count - 1) as nat);
        let before = stores_resolved(graph, stores, keys, (count - 1) as nat)->Ok_0;
        let all = stores_resolved(graph, stores, keys, count)->Ok_0;
        assert forall|i: int| 0 <= i < count implies store_resolved(graph, stores[i], keys) == Ok::<
            ResolvedModel,
            Text,
        >(#[trigger] all[i]) by {
            if i < count - 1 {
                assert(all[i] == before[i]);
            }
        }
    }
}

proof fn carried_stores_are_owned(
    graph: DirGraph,
    entries: Seq<EntryModel<StoreModel>>,
    resolved: Seq<ResolvedModel>,
    count: nat,
)
    requires
        count <= resolved.len(),
        forall|t: Text, n: Text| #[trigger]
            lookup(entries, t, n) is Some ==> owned(graph.topology, t, lookup(entries, t, n)->0),
        forall|i: int|
            0 <= i < resolved.len() ==> owned(
                graph.topology,
                (#[trigger] resolved[i]).store.relationship_type,
                filled(resolved[i], resolved[i].members.len()),
            ),
    ensures
        forall|t: Text, n: Text| #[trigger]
            lookup(stores_after(entries, resolved, count), t, n) is Some ==> owned(
                graph.topology,
                t,
                lookup(stores_after(entries, resolved, count), t, n)->0,
            ),
    decreases count,
{
    if count > 0 {
        carried_stores_are_owned(graph, entries, resolved, (count - 1) as nat);
        let one = resolved[count - 1];
        assert(owned(
            graph.topology,
            one.store.relationship_type,
            filled(one, one.members.len()),
        ));
        a_kept_store_is_found(
            stores_after(entries, resolved, (count - 1) as nat),
            one.store.relationship_type,
            store_name_of(one.store.text_column),
            filled(one, one.members.len()),
        );
    }
}

/// Carrying stores keeps every vector finite and with a live relationship of its
/// store's type. The relationships are those found in a graph whose
/// relationships are the ones written to.
pub proof fn a_carry_keeps_stores_owned(
    found_in: DirGraph,
    before: DirGraph,
    after: DirGraph,
    stores: Seq<CarriedStoreModel>,
    keys: RelationshipKeys,
    resolved: Seq<ResolvedModel>,
)
    requires
        found_in.topology == before.topology,
        before.topology.edges@.len() <= usize::MAX,
        forall|i: int| 0 <= i < stores.len() ==> (#[trigger] stores[i]).entries.len() <= usize::MAX,
        stores_owned(before),
        resolution(found_in, stores, keys) == Ok::<Seq<ResolvedModel>, Text>(resolved),
        carry_installed(before, after, resolved),
    ensures
        stores_owned(after),
{
    resolved_in_turn(found_in, stores, keys, stores.len());
    assert forall|i: int| 0 <= i < resolved.len() implies owned(
        before.topology,
        (#[trigger] resolved[i]).store.relationship_type,
        filled(resolved[i], resolved[i].members.len()),
    ) by {
        let store = stores[i];
        assert(store_resolved(found_in, store, keys) == Ok::<ResolvedModel, Text>(resolved[i]));
        no_shape_fault_at(stores, 0, i);
        matches_are_of_the_type(
            found_in,
            store,
            carry_key(store, keys),
            store.entries.len(),
        );
        a_filled_store_is_owned(found_in, resolved[i], resolved[i].members.len());
    }
    carried_stores_are_owned(before, before.edge_embeddings@, resolved, resolved.len());
    assert(after.topology == before.topology);
}

} // verus!
