//! Where the vectors of relationships go when they are carried to another graph.

use crate::address_laws::{a_group_is_every_parallel_relationship, runs};
use crate::carry::{addressed, CarriedEntryModel, CarriedStoreModel};
use crate::carry_install::{
    carry_installed, filled, stats_say, stores_after, stores_dropped, stores_kept, vectors_brought,
    vectors_kept, RelationshipCarryStats,
};
use crate::carry_resolve::{claimed, entry_match, matched_upto, members_fit, ResolvedModel};
use crate::catalog::{a_kept_store_is_found, lookup, EntryModel};
use crate::edge_read::{place_at, PlaceModel};
use crate::graph::{node_by_id, DirGraph};
use crate::groups::{faultless_keys_tell_apart, key_of, keyed_apart, keys_fault};
use crate::names::store_name_of;
use crate::store::{hash_of, holds, vector_of, with_hash, with_vector, StoreModel};
use crate::text::Text;
use crate::topology::{group_edges, Topology};
use crate::value::EdgeIndex;
use crate::write_laws::lined;
use vstd::prelude::*;

verus! {

/// What a carried vector finds is a live relationship of its type between the
/// nodes that its place names. Where that relationship has a key of its own under
/// the property and the vector names one, they are the same; where it has parallel
/// ones, the vector names its key, and none of them has it.
pub proof fn a_found_relationship_is_the_one_named(
    graph: DirGraph,
    store: CarriedStoreModel,
    property: Option<Text>,
    entry: CarriedEntryModel,
    edge: EdgeIndex,
)
    requires
        graph.topology.edges@.len() <= usize::MAX,
        entry_match(graph, store, property, entry) == Ok::<Option<EdgeIndex>, Text>(Some(edge)),
    ensures
        ({
            let edges = graph.topology.edges@;
            let source = edges[edge.slot as int]->0.source;
            let target = edges[edge.slot as int]->0.target;
            &&& runs(edges, edge.slot as int, source, target, store.relationship_type)
            &&& node_by_id(graph, entry.place.source_type, entry.place.source_id) == Some(source)
            &&& node_by_id(graph, entry.place.target_type, entry.place.target_id) == Some(target)
            &&& entry.place.key is Some && property is Some && key_of(
                graph.topology,
                edge,
                property->0,
            ) is Some ==> key_of(graph.topology, edge, property->0) == entry.place.key
            &&& forall|slot: usize|
                slot != edge.slot && #[trigger] runs(
                    edges,
                    slot as int,
                    source,
                    target,
                    store.relationship_type,
                ) ==> property is Some && entry.place.key is Some && key_of(
                    graph.topology,
                    edge,
                    property->0,
                ) == entry.place.key && key_of(
                    graph.topology,
                    EdgeIndex { slot },
                    property->0,
                ) != entry.place.key
        }),
{
    let topology = graph.topology;
    let source = node_by_id(graph, entry.place.source_type, entry.place.source_id)->0;
    let target = node_by_id(graph, entry.place.target_type, entry.place.target_id)->0;
    let members = group_edges(topology.edges@, source, target, store.relationship_type);
    a_group_is_every_parallel_relationship(
        topology.edges@,
        source,
        target,
        store.relationship_type,
    );
    if members.len() == 1 {
        assert(members[0] == edge);
        assert(members.contains(EdgeIndex { slot: edge.slot }));
        assert(runs(topology.edges@, edge.slot as int, source, target, store.relationship_type));
        assert forall|slot: usize|
            slot != edge.slot && #[trigger] runs(
                topology.edges@,
                slot as int,
                source,
                target,
                store.relationship_type,
            ) implies false by {
            assert(members.contains(EdgeIndex { slot }));
        }
    } else {
        let key = property->0;
        let wanted = entry.place.key->0;
        faultless_keys_tell_apart(topology, members, key);
        crate::carry_laws::a_carried_vector_follows_its_key(
            topology,
            store,
            property,
            entry,
            source,
            target,
        );
        assert(members.contains(EdgeIndex { slot: edge.slot }));
        assert(runs(topology.edges@, edge.slot as int, source, target, store.relationship_type));
        assert forall|slot: usize|
            slot != edge.slot && #[trigger] runs(
                topology.edges@,
                slot as int,
                source,
                target,
                store.relationship_type,
            ) implies property is Some && entry.place.key is Some && key_of(topology, edge, key)
            == entry.place.key && key_of(topology, EdgeIndex { slot }, key)
            != entry.place.key by {
            assert(members.contains(EdgeIndex { slot }));
            let i = members.index_of(edge);
            let j = members.index_of(EdgeIndex { slot });
            if i < j {
                assert(key_of(topology, members[i], key) != key_of(topology, members[j], key));
            } else {
                assert(key_of(topology, members[j], key) != key_of(topology, members[i], key));
            }
        }
    }
}

/// A carried vector whose endpoints a graph lacks, or between whose endpoints it
/// has no relationship of the type, finds none. Between endpoints with a single
/// one it finds that one, unless both have a key and the keys differ.
pub proof fn a_single_relationship_is_found(
    graph: DirGraph,
    store: CarriedStoreModel,
    property: Option<Text>,
    entry: CarriedEntryModel,
    edge: EdgeIndex,
)
    requires
        graph.topology.edges@.len() <= usize::MAX,
    ensures
        ({
            let edges = graph.topology.edges@;
            let found = entry_match(graph, store, property, entry);
            let source = node_by_id(graph, entry.place.source_type, entry.place.source_id);
            let target = node_by_id(graph, entry.place.target_type, entry.place.target_id);
            let none = Ok::<Option<EdgeIndex>, Text>(None);
            &&& source is None || target is None ==> found == none
            &&& source is Some && target is Some && (forall|slot: usize|
                !#[trigger] runs(edges, slot as int, source->0, target->0, store.relationship_type))
                ==> found == none
            &&& source is Some && target is Some && runs(
                edges,
                edge.slot as int,
                source->0,
                target->0,
                store.relationship_type,
            ) && (forall|slot: usize| #[trigger]
                runs(edges, slot as int, source->0, target->0, store.relationship_type) ==> slot
                    == edge.slot) ==> found == if entry.place.key is Some && property is Some
                && key_of(graph.topology, edge, property->0) is Some && key_of(
                graph.topology,
                edge,
                property->0,
            ) != entry.place.key {
                none
            } else {
                Ok(Some(edge))
            }
        }),
{
    let edges = graph.topology.edges@;
    let source = node_by_id(graph, entry.place.source_type, entry.place.source_id);
    let target = node_by_id(graph, entry.place.target_type, entry.place.target_id);
    if source is Some && target is Some {
        let members = group_edges(edges, source->0, target->0, store.relationship_type);
        a_group_is_every_parallel_relationship(
            edges,
            source->0,
            target->0,
            store.relationship_type,
        );
        assert forall|i: int| 0 <= i < members.len() implies #[trigger] runs(
            edges,
            members[i].slot as int,
            source->0,
            target->0,
            store.relationship_type,
        ) by {
            assert(members.contains(EdgeIndex { slot: members[i].slot }));
        }
        if forall|slot: usize|
            !#[trigger] runs(edges, slot as int, source->0, target->0, store.relationship_type) {
            if members.len() > 0 {
                assert(runs(
                    edges,
                    members[0].slot as int,
                    source->0,
                    target->0,
                    store.relationship_type,
                ));
            }
        }
        if runs(edges, edge.slot as int, source->0, target->0, store.relationship_type) && (forall|
            slot: usize,
        | #[trigger]
            runs(edges, slot as int, source->0, target->0, store.relationship_type) ==> slot
                == edge.slot) {
            assert(members.contains(EdgeIndex { slot: edge.slot }));
            assert(runs(
                edges,
                members[0].slot as int,
                source->0,
                target->0,
                store.relationship_type,
            ));
            if members.len() > 1 {
                assert(runs(
                    edges,
                    members[1].slot as int,
                    source->0,
                    target->0,
                    store.relationship_type,
                ));
                assert(members[0].slot < members[1].slot);
            }
            assert(members[0] == edge);
        }
    }
}

/// In a parallel group whose members all have a key, each another, a carried
/// vector that names a member's key finds that member; one that names none, and
/// one for a group that no key tells apart, is refused.
pub proof fn a_parallel_relationship_is_found_by_its_key(
    graph: DirGraph,
    store: CarriedStoreModel,
    property: Option<Text>,
    entry: CarriedEntryModel,
    one: usize,
    other: usize,
    edge: EdgeIndex,
)
    requires
        graph.topology.edges@.len() <= usize::MAX,
        ({
            let edges = graph.topology.edges@;
            let source = node_by_id(graph, entry.place.source_type, entry.place.source_id);
            let target = node_by_id(graph, entry.place.target_type, entry.place.target_id);
            &&& source is Some
            &&& target is Some
            &&& one != other
            &&& runs(edges, one as int, source->0, target->0, store.relationship_type)
            &&& runs(edges, other as int, source->0, target->0, store.relationship_type)
        }),
    ensures
        ({
            let edges = graph.topology.edges@;
            let found = entry_match(graph, store, property, entry);
            let source = node_by_id(graph, entry.place.source_type, entry.place.source_id)->0;
            let target = node_by_id(graph, entry.place.target_type, entry.place.target_id)->0;
            let group = group_edges(edges, source, target, store.relationship_type);
            &&& property is None || entry.place.key is None ==> found is Err
            &&& property is Some && !keyed_apart(graph.topology, group, property->0)
                ==> found is Err
            &&& property is Some && entry.place.key is Some && keyed_apart(
                graph.topology,
                group,
                property->0,
            ) && runs(edges, edge.slot as int, source, target, store.relationship_type) && key_of(
                graph.topology,
                edge,
                property->0,
            ) == entry.place.key ==> found == Ok::<Option<EdgeIndex>, Text>(Some(edge))
        }),
{
    let edges = graph.topology.edges@;
    let source = node_by_id(graph, entry.place.source_type, entry.place.source_id)->0;
    let target = node_by_id(graph, entry.place.target_type, entry.place.target_id)->0;
    let members = group_edges(edges, source, target, store.relationship_type);
    a_group_is_every_parallel_relationship(edges, source, target, store.relationship_type);
    assert(members.contains(EdgeIndex { slot: one }));
    assert(members.contains(EdgeIndex { slot: other }));
    assert(members.len() > 1) by {
        let i = members.index_of(EdgeIndex { slot: one });
        let j = members.index_of(EdgeIndex { slot: other });
        assert(members[i] != members[j]);
    }
    if property is Some {
        if keys_fault(graph.topology, members, property->0, 0) is None {
            faultless_keys_tell_apart(graph.topology, members, property->0);
        }
        if keyed_apart(graph.topology, members, property->0) {
            crate::address_laws::keys_apart_are_faultless(
                graph.topology,
                members,
                property->0,
                0,
            );
            if runs(edges, edge.slot as int, source, target, store.relationship_type) {
                assert(members.contains(EdgeIndex { slot: edge.slot }));
                crate::groups::a_key_picks_one_member(
                    graph.topology,
                    members,
                    property->0,
                    edge,
                );
            }
        }
    }
}

/// A carried store is taken exactly where every vector can be told and no two are
/// for one relationship. Each vector that finds a relationship then stands with
/// it, in order, and no other does.
pub proof fn carried_vectors_stand_with_what_they_find(
    graph: DirGraph,
    store: CarriedStoreModel,
    property: Option<Text>,
    count: nat,
)
    requires
        count <= store.entries.len(),
        store.entries.len() <= usize::MAX,
    ensures
        ({
            let taken = matched_upto(graph, store, property, count);
            let found = |i: int| entry_match(graph, store, property, store.entries[i]);
            &&& taken is Ok ==> {
                let members = taken->Ok_0;
                &&& forall|k: int|
                    0 <= k < members.len() ==> (#[trigger] members[k]).1 < count && found(
                        members[k].1 as int,
                    ) == Ok::<Option<EdgeIndex>, Text>(Some(members[k].0))
                &&& forall|k: int, l: int|
                    0 <= k < l < members.len() ==> (#[trigger] members[k]).1 < (
                    #[trigger] members[l]).1 && members[k].0 != members[l].0
                &&& forall|i: int|
                    0 <= i < count ==> (#[trigger] found(i)) is Ok && (found(i)->Ok_0 is Some
                        ==> members.contains((found(i)->Ok_0->0, i as usize)))
            }
            &&& (forall|i: int| 0 <= i < count ==> (#[trigger] found(i)) is Ok) && (forall|
                i: int,
                j: int,
            |
                0 <= i < j < count && (#[trigger] found(i))->Ok_0 is Some && found(i)->Ok_0 == (
                #[trigger] found(j))->Ok_0 ==> false) ==> taken is Ok
        }),
    decreases count,
{
    let found = |i: int| entry_match(graph, store, property, store.entries[i]);
    let taken = matched_upto(graph, store, property, count);
    if count > 0 {
        let k = (count - 1) as nat;
        carried_vectors_stand_with_what_they_find(graph, store, property, k);
        let less = matched_upto(graph, store, property, k);
        let last = found(k as int);
        assert(last == entry_match(graph, store, property, store.entries[count - 1]));
        if taken is Ok {
            let before = less->Ok_0;
            let members = taken->Ok_0;
            assert(before.len() <= members.len());
            assert forall|m: int| 0 <= m < before.len() implies #[trigger] members[m]
                == before[m] by {}
            assert forall|m: int| 0 <= m < members.len() implies (#[trigger] members[m]).1 < count
                && found(members[m].1 as int) == Ok::<Option<EdgeIndex>, Text>(
                Some(members[m].0),
            ) by {
                if m < before.len() {
                    assert(before[m].1 < k);
                    assert(found(before[m].1 as int) == Ok::<Option<EdgeIndex>, Text>(
                        Some(before[m].0),
                    ));
                }
            }
            assert forall|m: int, l: int| 0 <= m < l < members.len() implies (
            #[trigger] members[m]).1 < (#[trigger] members[l]).1 && members[m].0
                != members[l].0 by {
                assert(members[m] == before[m]);
                assert(before[m].1 < k);
                if l < before.len() {
                    assert(members[l] == before[l]);
                }
            }
            assert forall|i: int| 0 <= i < count implies (#[trigger] found(i)) is Ok && (
            found(i)->Ok_0 is Some ==> members.contains((found(i)->Ok_0->0, i as usize))) by {
                if i < k {
                    assert(found(i) is Ok);
                    if found(i)->Ok_0 is Some {
                        let m = before.index_of((found(i)->Ok_0->0, i as usize));
                        assert(members[m] == before[m]);
                    }
                } else if last->Ok_0 is Some {
                    assert(members[before.len() as int] == (last->Ok_0->0, k as usize));
                }
            }
        }
        if (forall|i: int| 0 <= i < count ==> (#[trigger] found(i)) is Ok) && (forall|
            i: int,
            j: int,
        |
            0 <= i < j < count && (#[trigger] found(i))->Ok_0 is Some && found(i)->Ok_0 == (
            #[trigger] found(j))->Ok_0 ==> false) {
            assert(less is Ok);
            assert(found(k as int) is Ok);
            if last->Ok_0 is Some && claimed(less->Ok_0, last->Ok_0->0) {
                let m = choose|m: int|
                    0 <= m < less->Ok_0.len() && (#[trigger] less->Ok_0[m]).0 == last->Ok_0->0;
                let i = less->Ok_0[m].1 as int;
                assert(found(i) == Ok::<Option<EdgeIndex>, Text>(Some(less->Ok_0[m].0)));
                assert(found(i)->Ok_0 == found(k as int)->Ok_0);
            }
        }
    }
}

proof fn a_vector_and_its_hash(store: StoreModel, slot: usize, vector: Seq<u32>, hash: Option<u64>)
    requires
        lined(store),
    ensures
        ({
            let after = with_hash(with_vector(store, slot, vector), slot, hash);
            &&& lined(after)
            &&& vector_of(after, slot) == Some(vector)
            &&& hash_of(after, slot) == hash
            &&& forall|other: usize|
                other != slot ==> #[trigger] vector_of(after, other) == vector_of(store, other)
                    && hash_of(after, other) == hash_of(store, other)
        }),
{
    crate::write_laws::writing_keeps_lined(store, slot, vector);
    crate::store::a_written_vector_reads_back(store, slot, vector);
    let written = with_vector(store, slot, vector);
    let after = with_hash(written, slot, hash);
    assert(after.nodes == written.nodes && after.rows == written.rows);
    assert forall|other: usize| other != slot implies #[trigger] vector_of(after, other)
        == vector_of(store, other) && hash_of(after, other) == hash_of(store, other) by {
        assert(vector_of(after, other) == vector_of(written, other));
    }
}

/// A store that is installed has, for each relationship that was found, the vector
/// and the hash that were carried for it, bit for bit, and no other vector. It
/// declares what was carried.
pub proof fn an_installed_store_has_what_was_carried(resolved: ResolvedModel, count: nat)
    requires
        members_fit(resolved),
        count <= resolved.members.len(),
    ensures
        ({
            let store = filled(resolved, count);
            &&& store.nodes.len() == store.rows.len() && store.nodes.no_duplicates()
            &&& store.dimension == resolved.store.dimension
            &&& store.metric == resolved.store.metric
            &&& store.model_id == resolved.store.model_id
            &&& store.index is None
            &&& store.nodes.len() == count
            &&& forall|k: int|
                0 <= k < count ==> {
                    let (edge, place) = #[trigger] resolved.members[k];
                    &&& vector_of(store, edge.slot) == Some(
                        resolved.store.entries[place as int].vector,
                    )
                    &&& hash_of(store, edge.slot) == resolved.store.entries[place as int].text_hash
                }
            &&& forall|slot: usize|
                (forall|k: int|
                    0 <= k < count ==> (#[trigger] resolved.members[k]).0.slot != slot)
                    ==> #[trigger] vector_of(store, slot) is None && hash_of(store, slot) is None
        }),
    decreases count,
{
    if count > 0 {
        let k = (count - 1) as nat;
        an_installed_store_has_what_was_carried(resolved, k);
        let before = filled(resolved, k);
        let (edge, place) = resolved.members[count - 1];
        let entry = resolved.store.entries[place as int];
        a_vector_and_its_hash(before, edge.slot, entry.vector, entry.text_hash);
        assert forall|m: int| 0 <= m < k implies (#[trigger] resolved.members[m]).0.slot
            != edge.slot by {
            assert(resolved.members[m].0 != resolved.members[count - 1].0);
        }
        assert(vector_of(before, edge.slot) is None);
        let store = filled(resolved, count);
        assert forall|slot: usize|
            (forall|m: int|
                0 <= m < count ==> (#[trigger] resolved.members[m]).0.slot != slot) implies
            #[trigger] vector_of(store, slot) is None && hash_of(store, slot) is None by {
            assert(resolved.members[count - 1].0.slot != slot);
            assert(forall|m: int|
                0 <= m < k ==> (#[trigger] resolved.members[m]).0.slot != slot);
            assert(vector_of(before, slot) is None);
        }
        assert forall|m: int| 0 <= m < count implies {
            let (e, p) = #[trigger] resolved.members[m];
            &&& vector_of(store, e.slot) == Some(resolved.store.entries[p as int].vector)
            &&& hash_of(store, e.slot) == resolved.store.entries[p as int].text_hash
        } by {
            if m < k {
                let e = resolved.members[m].0;
                assert(e.slot != edge.slot);
                assert(vector_of(store, e.slot) == vector_of(before, e.slot));
            }
        }
    } else {
        let store = filled(resolved, 0);
        assert forall|slot: usize| #[trigger] vector_of(store, slot) is None && hash_of(
            store,
            slot,
        ) is None by {
            assert(!holds(store, slot));
        }
    }
}

/// What a carry reports: the stores of which something was found, the vectors that
/// were found and those that were not, and the stores with vectors of which none
/// was found.
pub proof fn a_carry_reports_what_it_found(
    stats: RelationshipCarryStats,
    resolved: Seq<ResolvedModel>,
)
    requires
        stats_say(stats, resolved),
    ensures
        stats.stores == resolved.filter_map(
            |one: ResolvedModel|
                if one.members.len() > 0 {
                    Some(one)
                } else {
                    None
                },
        ).len(),
        stats.dropped_stores == resolved.filter_map(
            |one: ResolvedModel|
                if one.members.len() == 0 && one.store.entries.len() > 0 {
                    Some(one)
                } else {
                    None
                },
        ).len(),
        stats.carried == resolved.fold_left(
            0int,
            |sum: int, one: ResolvedModel| sum + one.members.len(),
        ),
        stats.carried + stats.skipped == resolved.fold_left(
            0int,
            |sum: int, one: ResolvedModel| sum + one.store.entries.len(),
        ),
{
    counts_agree(resolved, resolved.len());
    assert(resolved.take(resolved.len() as int) =~= resolved);
}

proof fn counts_agree(resolved: Seq<ResolvedModel>, count: nat)
    requires
        count <= resolved.len(),
    ensures
        stores_kept(resolved, count) == resolved.take(count as int).filter_map(
            |one: ResolvedModel|
                if one.members.len() > 0 {
                    Some(one)
                } else {
                    None
                },
        ).len(),
        stores_dropped(resolved, count) == resolved.take(count as int).filter_map(
            |one: ResolvedModel|
                if one.members.len() == 0 && one.store.entries.len() > 0 {
                    Some(one)
                } else {
                    None
                },
        ).len(),
        vectors_kept(resolved, count) == resolved.take(count as int).fold_left(
            0int,
            |sum: int, one: ResolvedModel| sum + one.members.len(),
        ),
        vectors_brought(resolved, count) == resolved.take(count as int).fold_left(
            0int,
            |sum: int, one: ResolvedModel| sum + one.store.entries.len(),
        ),
    decreases count,
{
    let head = resolved.take(count as int);
    if count > 0 {
        let k = count - 1;
        counts_agree(resolved, k as nat);
        assert(head.drop_last() =~= resolved.take(k));
        assert(head.last() == resolved[k]);
    }
}

proof fn installed_stores_stand(
    stores: Seq<EntryModel<StoreModel>>,
    resolved: Seq<ResolvedModel>,
    count: nat,
)
    requires
        count <= resolved.len(),
    ensures
        forall|i: int|
            0 <= i < count && (#[trigger] resolved[i]).members.len() > 0 && (forall|j: int|
                i < j < count ==> !((#[trigger] resolved[j]).store.relationship_type
                    == resolved[i].store.relationship_type && store_name_of(
                    resolved[j].store.text_column,
                ) == store_name_of(resolved[i].store.text_column))) ==> lookup(
                stores_after(stores, resolved, count),
                resolved[i].store.relationship_type,
                store_name_of(resolved[i].store.text_column),
            ) == Some(filled(resolved[i], resolved[i].members.len())),
        forall|t: Text, n: Text|
            (forall|i: int|
                0 <= i < count && (#[trigger] resolved[i]).members.len() > 0 ==> !(
                resolved[i].store.relationship_type == t && store_name_of(
                    resolved[i].store.text_column,
                ) == n)) ==> #[trigger] lookup(stores_after(stores, resolved, count), t, n)
                == lookup(stores, t, n),
    decreases count,
{
    if count > 0 {
        let k = (count - 1) as nat;
        installed_stores_stand(stores, resolved, k);
        let one = resolved[count - 1];
        let less = stores_after(stores, resolved, k);
        let after = stores_after(stores, resolved, count);
        if one.members.len() > 0 {
            a_kept_store_is_found(
                less,
                one.store.relationship_type,
                store_name_of(one.store.text_column),
                filled(one, one.members.len()),
            );
        }
        assert forall|i: int|
            0 <= i < count && (#[trigger] resolved[i]).members.len() > 0 && (forall|j: int|
                i < j < count ==> !((#[trigger] resolved[j]).store.relationship_type
                    == resolved[i].store.relationship_type && store_name_of(
                    resolved[j].store.text_column,
                ) == store_name_of(resolved[i].store.text_column))) implies lookup(
            after,
            resolved[i].store.relationship_type,
            store_name_of(resolved[i].store.text_column),
        ) == Some(filled(resolved[i], resolved[i].members.len())) by {
            if i < k {
                assert(!(resolved[count - 1].store.relationship_type
                    == resolved[i].store.relationship_type && store_name_of(
                    resolved[count - 1].store.text_column,
                ) == store_name_of(resolved[i].store.text_column)));
                assert(lookup(
                    less,
                    resolved[i].store.relationship_type,
                    store_name_of(resolved[i].store.text_column),
                ) == Some(filled(resolved[i], resolved[i].members.len())));
            }
        }
        assert forall|t: Text, n: Text|
            (forall|i: int|
                0 <= i < count && (#[trigger] resolved[i]).members.len() > 0 ==> !(
                resolved[i].store.relationship_type == t && store_name_of(
                    resolved[i].store.text_column,
                ) == n)) implies #[trigger] lookup(after, t, n) == lookup(stores, t, n) by {
            assert(lookup(less, t, n) == lookup(stores, t, n));
            if one.members.len() > 0 {
                assert(!(resolved[count - 1].store.relationship_type == t && store_name_of(
                    resolved[count - 1].store.text_column,
                ) == n));
            }
        }
    }
}

/// After a carry every store of which a vector was found is there under its type
/// and column with what was found, and every other store is as it was.
pub proof fn a_carry_installs_what_it_found(
    before: DirGraph,
    after: DirGraph,
    resolved: Seq<ResolvedModel>,
    at: int,
)
    requires
        carry_installed(before, after, resolved),
        0 <= at < resolved.len(),
        resolved[at].members.len() > 0,
        members_fit(resolved[at]),
        forall|j: int|
            at < j < resolved.len() ==> !((#[trigger] resolved[j]).store.relationship_type
                == resolved[at].store.relationship_type && resolved[j].store.text_column
                == resolved[at].store.text_column),
    ensures
        ({
            let one = resolved[at];
            let stored = lookup(
                after.edge_embeddings@,
                one.store.relationship_type,
                store_name_of(one.store.text_column),
            );
            &&& stored is Some
            &&& stored->0.nodes.len() == one.members.len()
            &&& stored->0.dimension == one.store.dimension
            &&& stored->0.metric == one.store.metric
            &&& stored->0.model_id == one.store.model_id
            &&& forall|k: int|
                0 <= k < one.members.len() ==> {
                    let (edge, place) = #[trigger] one.members[k];
                    &&& vector_of(stored->0, edge.slot) == Some(
                        one.store.entries[place as int].vector,
                    )
                    &&& hash_of(stored->0, edge.slot) == one.store.entries[place as int].text_hash
                }
            &&& forall|t: Text, n: Text|
                (forall|i: int|
                    0 <= i < resolved.len() && (#[trigger] resolved[i]).members.len() > 0 ==> !(
                    resolved[i].store.relationship_type == t && store_name_of(
                        resolved[i].store.text_column,
                    ) == n)) ==> #[trigger] lookup(after.edge_embeddings@, t, n) == lookup(
                    before.edge_embeddings@,
                    t,
                    n,
                )
            &&& after.topology == before.topology
        }),
{
    let one = resolved[at];
    assert forall|j: int| at < j < resolved.len() implies !((
    #[trigger] resolved[j]).store.relationship_type == one.store.relationship_type
        && store_name_of(resolved[j].store.text_column) == store_name_of(
        one.store.text_column,
    )) by {
        if store_name_of(resolved[j].store.text_column) == store_name_of(one.store.text_column) {
            crate::names::store_names_are_distinct(
                resolved[j].store.text_column,
                one.store.text_column,
            );
        }
    }
    installed_stores_stand(before.edge_embeddings@, resolved, resolved.len());
    an_installed_store_has_what_was_carried(one, one.members.len());
}

/// Where a relationship stands: the types and ids of its two nodes, and its key
/// where a property is named.
pub proof fn a_place_names_both_nodes(topology: Topology, property: Option<Text>, edge: EdgeIndex)
    ensures
        ({
            let record = topology.edges@[edge.slot as int]->0;
            let source = topology.nodes@[record.source.slot as int]->0;
            let target = topology.nodes@[record.target.slot as int]->0;
            place_at(topology, property, edge) == (PlaceModel {
                source_type: source.node_type@,
                source_id: source.id@,
                target_type: target.node_type@,
                target_id: target.id@,
                key: if property is Some {
                    key_of(topology, edge, property->0)
                } else {
                    None
                },
            })
        }),
{
}

/// The vectors that leave a graph are those of the live owners, in their order,
/// each with the place of its relationship and the hash of its text.
pub proof fn every_live_vector_leaves(
    topology: Topology,
    property: Option<Text>,
    store: StoreModel,
    count: nat,
)
    requires
        store.nodes.no_duplicates(),
        store.nodes.len() == store.rows.len(),
        count <= store.nodes.len(),
    ensures
        addressed(topology, property, store, count) == Seq::new(count, |i: int| i).filter_map(
            |i: int|
                if 0 <= i < store.nodes.len() && store.nodes[i] < topology.edges@.len()
                    && topology.edges@[store.nodes[i] as int] is Some {
                    Some(
                        CarriedEntryModel {
                            place: place_at(
                                topology,
                                property,
                                EdgeIndex { slot: store.nodes[i] },
                            ),
                            vector: store.rows[i],
                            text_hash: if store.hashes.contains_key(store.nodes[i]) {
                                Some(store.hashes[store.nodes[i]])
                            } else {
                                None
                            },
                        },
                    )
                } else {
                    None
                },
        ),
    decreases count,
{
    let all = Seq::new(count, |i: int| i);
    if count > 0 {
        let k = (count - 1) as nat;
        every_live_vector_leaves(topology, property, store, k);
        assert(all.drop_last() =~= Seq::new(k, |i: int| i));
        assert(all.last() == k);
        let owner = store.nodes[k as int];
        assert(store.nodes.contains(owner));
        assert(store.nodes.index_of(owner) == k);
    }
}

} // verus!
