//! Finding the relationships of a graph that carried vectors belong to.

use crate::carry::{
    carried_stores, label, refusal, refusal_text, shapes_fault, validate_carried_edge_stores,
    CarriedEdgeEntry, CarriedEdgeStore, CarriedEntryModel, CarriedStoreModel,
};
use crate::edge_read::label_text;
use crate::graph::{node_by_id, DirGraph};
use crate::groups::{
    describe_group, find_member, group_keys, group_members, group_text, key_of, key_value,
    keys_fault, member_with_key, RelationshipKeys,
};
use crate::text::{str_option, Text};
use crate::topology::{group_edges, Topology};
use crate::value::{EdgeIndex, NodeIndex};
use std::collections::HashSet;
use vstd::prelude::*;

verus! {

/// The member of a group that a carried vector belongs to, or why it cannot be
/// told. In a group of one the key may only say that it is another
/// relationship.
pub open spec fn member_match(
    topology: Topology,
    store: CarriedStoreModel,
    property: Option<Text>,
    entry: CarriedEntryModel,
    source: NodeIndex,
    target: NodeIndex,
) -> Result<Option<EdgeIndex>, Text> {
    let members = group_edges(topology.edges@, source, target, store.relationship_type);
    let group = group_text(topology, store.relationship_type, source, target, members.len());
    let label = label_text(store.relationship_type, store.text_column);
    if members.len() == 0 {
        Ok(None)
    } else if members.len() == 1 {
        match (entry.place.key, property) {
            (Some(wanted), Some(p)) => match key_of(topology, members[0], p) {
                Some(found) => if found == wanted {
                    Ok(Some(members[0]))
                } else {
                    Ok(None)
                },
                None => Ok(Some(members[0])),
            },
            _ => Ok(Some(members[0])),
        }
    } else {
        match (entry.place.key, property) {
            (Some(wanted), Some(p)) => match keys_fault(topology, members, p, 0) {
                Some(reason) => Err(refusal_text(label, group, reason, store.relationship_type)),
                None => Ok(member_with_key(topology, members, p, wanted, 0)),
            },
            _ => Err(
                refusal_text(
                    label,
                    group,
                    "the carried vector names no key value to choose a member by"@,
                    store.relationship_type,
                ),
            ),
        }
    }
}

/// The relationship that a carried vector belongs to, `None` where the graph
/// has no such relationship, or why it cannot be told.
pub open spec fn entry_match(
    graph: DirGraph,
    store: CarriedStoreModel,
    property: Option<Text>,
    entry: CarriedEntryModel,
) -> Result<Option<EdgeIndex>, Text> {
    match (
        node_by_id(graph, entry.place.source_type, entry.place.source_id),
        node_by_id(graph, entry.place.target_type, entry.place.target_id),
    ) {
        (Some(source), Some(target)) => member_match(
            graph.topology,
            store,
            property,
            entry,
            source,
            target,
        ),
        _ => Ok(None),
    }
}

/// The relationships that were found, each with the place of its vector among
/// the entries.
pub open spec fn claimed(members: Seq<(EdgeIndex, usize)>, edge: EdgeIndex) -> bool {
    exists|i: int| 0 <= i < members.len() && (#[trigger] members[i]).0 == edge
}

/// The refusal of two vectors for one relationship.
pub open spec fn shared_text(label: Text) -> Text {
    "Relationship embedding store '"@ + label
        + "' cannot be carried: two carried vectors resolve to the same relationship of this graph."@
}

/// The relationships that the first `count` vectors belong to, or why one
/// cannot be told. What is missing from the list is not in the graph.
pub open spec fn matched_upto(
    graph: DirGraph,
    store: CarriedStoreModel,
    property: Option<Text>,
    count: nat,
) -> Result<Seq<(EdgeIndex, usize)>, Text>
    decreases count,
{
    if count == 0 {
        Ok(Seq::empty())
    } else {
        match matched_upto(graph, store, property, (count - 1) as nat) {
            Err(fault) => Err(fault),
            Ok(members) => match entry_match(graph, store, property, store.entries[count - 1]) {
                Err(fault) => Err(fault),
                Ok(None) => Ok(members),
                Ok(Some(edge)) => if claimed(members, edge) {
                    Err(shared_text(label_text(store.relationship_type, store.text_column)))
                } else {
                    Ok(members.push((edge, (count - 1) as usize)))
                },
            },
        }
    }
}

/// The key property for a carried store: the caller's, else the store's own.
pub open spec fn carry_key(store: CarriedStoreModel, keys: RelationshipKeys) -> Option<Text> {
    match keys.property_of(store.relationship_type) {
        Some(property) => Some(property),
        None => store.key_property,
    }
}

/// A carried store with the relationships of a graph that its vectors belong to.
pub struct ResolvedEdgeStore {
    /// The store.
    pub store: CarriedEdgeStore,
    /// The relationships, each with the place of its vector among the entries.
    pub members: Vec<(EdgeIndex, usize)>,
    /// The vectors whose relationship the graph does not have.
    pub skipped: usize,
}

/// What a resolved store says.
pub struct ResolvedModel {
    pub store: CarriedStoreModel,
    pub members: Seq<(EdgeIndex, usize)>,
}

impl View for ResolvedEdgeStore {
    type V = ResolvedModel;

    open spec fn view(&self) -> ResolvedModel {
        ResolvedModel { store: self.store@, members: self.members@ }
    }
}

impl ResolvedEdgeStore {
    /// Every vector has a relationship or was skipped, and every relationship
    /// one vector of the right width.
    pub open spec fn well_formed(self) -> bool {
        &&& crate::carry::in_shape(self@.store)
        &&& self.members@.len() + self.skipped == self.store.entries@.len()
        &&& members_fit(self@)
    }
}

/// Every place is one of an entry, and no relationship occurs twice.
pub open spec fn members_fit(resolved: ResolvedModel) -> bool {
    &&& forall|i: int|
        0 <= i < resolved.members.len() ==> (#[trigger] resolved.members[i]).1
            < resolved.store.entries.len()
    &&& forall|i: int, j: int|
        0 <= i < j < resolved.members.len() ==> (#[trigger] resolved.members[i]).0 != (
        #[trigger] resolved.members[j]).0
}

/// What resolved stores say.
pub open spec fn resolved_models(resolved: Seq<ResolvedEdgeStore>) -> Seq<ResolvedModel> {
    Seq::new(resolved.len(), |i: int| resolved[i]@)
}

/// What an outcome says.
pub open spec fn match_said(result: Result<Option<EdgeIndex>, String>) -> Result<
    Option<EdgeIndex>,
    Text,
> {
    match result {
        Ok(found) => Ok(found),
        Err(message) => Err(message@),
    }
}

fn find_relationship(
    dst: &DirGraph,
    store: &CarriedEdgeStore,
    key_property: Option<&str>,
    entry: &CarriedEdgeEntry,
) -> (result: Result<Option<EdgeIndex>, String>)
    ensures
        match_said(result) == entry_match(*dst, store@, str_option(key_property), entry@),
{
    let relationship_type = store.relationship_type.as_str();
    let source = match dst.lookup_by_id(entry.source_type.as_str(), &entry.source_id) {
        Some(node) => node,
        None => {
            return Ok(None);
        },
    };
    let target = match dst.lookup_by_id(entry.target_type.as_str(), &entry.target_id) {
        Some(node) => node,
        None => {
            return Ok(None);
        },
    };
    let members = group_members(dst, source, target, relationship_type);
    if members.len() == 0 {
        return Ok(None);
    }
    if members.len() == 1 {
        if let (Some(wanted), Some(property)) = (&entry.key, key_property) {
            if let Some(found) = key_value(dst, members[0], property) {
                if !found.same(wanted) {
                    return Ok(None);
                }
            }
        }
        return Ok(Some(members[0]));
    }
    let label = label(relationship_type, store.text_column.as_str());
    let group = describe_group(dst, relationship_type, source, target, members.len());
    match (&entry.key, key_property) {
        (Some(wanted), Some(property)) => match group_keys(dst, &members, property) {
            Ok(_) => Ok(find_member(dst, &members, property, wanted)),
            Err(reason) => Err(
                refusal(label.as_str(), group.as_str(), reason.as_str(), relationship_type),
            ),
        },
        _ => Err(
            refusal(
                label.as_str(),
                group.as_str(),
                "the carried vector names no key value to choose a member by",
                relationship_type,
            ),
        ),
    }
}

proof fn match_faults_stay(
    graph: DirGraph,
    store: CarriedStoreModel,
    property: Option<Text>,
    count: nat,
    upto: nat,
)
    requires
        count <= upto,
        matched_upto(graph, store, property, count) is Err,
    ensures
        matched_upto(graph, store, property, upto) == matched_upto(graph, store, property, count),
    decreases upto - count,
{
    if count < upto {
        match_faults_stay(graph, store, property, count, (upto - 1) as nat);
    }
}

/// A carried store with the relationships of a graph, or why one cannot be told.
pub open spec fn store_resolved(
    graph: DirGraph,
    store: CarriedStoreModel,
    keys: RelationshipKeys,
) -> Result<ResolvedModel, Text> {
    match matched_upto(graph, store, carry_key(store, keys), store.entries.len()) {
        Ok(members) => Ok(ResolvedModel { store, members }),
        Err(fault) => Err(fault),
    }
}

fn resolve_one(dst: &DirGraph, store: CarriedEdgeStore, keys: &RelationshipKeys) -> (result: Result<
    ResolvedEdgeStore,
    String,
>)
    requires
        crate::carry::in_shape(store@),
    ensures
        match result {
            Ok(resolved) => {
                &&& resolved.well_formed()
                &&& store_resolved(*dst, store@, *keys) == Ok::<ResolvedModel, Text>(resolved@)
            },
            Err(message) => store_resolved(*dst, store@, *keys) == Err::<ResolvedModel, Text>(
                message@,
            ),
        },
{
    broadcast use vstd::std_specs::hash::group_hash_axioms;

    let key_property: Option<&str> = match keys.get(store.relationship_type.as_str()) {
        Some(property) => Some(property),
        None => match &store.key_property {
            Some(property) => Some(property.as_str()),
            None => None,
        },
    };
    let ghost property = carry_key(store@, *keys);
    let mut members: Vec<(EdgeIndex, usize)> = Vec::new();
    let mut taken: HashSet<usize> = HashSet::new();
    let mut skipped: usize = 0;
    let mut i: usize = 0;
    while i < store.entries.len()
        invariant
            i <= store.entries@.len(),
            property == carry_key(store@, *keys),
            str_option(key_property) == property,
            skipped <= i,
            members@.len() + skipped == i,
            forall|s: usize|
                #[trigger] taken@.contains(s) <==> claimed(members@, EdgeIndex { slot: s }),
            members_fit(ResolvedModel { store: store@, members: members@ }),
            matched_upto(*dst, store@, property, i as nat) == Ok::<Seq<(EdgeIndex, usize)>, Text>(
                members@,
            ),
        decreases store.entries@.len() - i,
    {
        assert(store@.entries[i as int] == store.entries@[i as int]@);
        match find_relationship(dst, &store, key_property, &store.entries[i]) {
            Err(message) => {
                proof {
                    match_faults_stay(
                        *dst,
                        store@,
                        property,
                        (i + 1) as nat,
                        store@.entries.len(),
                    );
                }
                return Err(message);
            },
            Ok(None) => {
                skipped = skipped + 1;
            },
            Ok(Some(edge)) => {
                assert(edge == EdgeIndex { slot: edge.slot });
                if taken.contains(&edge.slot) {
                    let label = label(
                        store.relationship_type.as_str(),
                        store.text_column.as_str(),
                    );
                    let mut message = "Relationship embedding store '".to_owned();
                    message.append(label.as_str());
                    message.append(
                        "' cannot be carried: two carried vectors resolve to the same relationship of this graph.",
                    );
                    proof {
                        match_faults_stay(
                            *dst,
                            store@,
                            property,
                            (i + 1) as nat,
                            store@.entries.len(),
                        );
                    }
                    return Err(message);
                }
                let ghost before = members@;
                taken.insert(edge.slot);
                members.push((edge, i));
                proof {
                    assert forall|s: usize| #[trigger] taken@.contains(s) <==> claimed(
                        members@,
                        EdgeIndex { slot: s },
                    ) by {
                        if claimed(before, EdgeIndex { slot: s }) {
                            let k = choose|k: int|
                                0 <= k < before.len() && (#[trigger] before[k]).0 == (EdgeIndex {
                                    slot: s,
                                });
                            assert(members@[k].0 == EdgeIndex { slot: s });
                        }
                        if s == edge.slot {
                            assert(members@[before.len() as int].0 == EdgeIndex { slot: s });
                        }
                        if claimed(members@, EdgeIndex { slot: s }) && s != edge.slot {
                            let k = choose|k: int|
                                0 <= k < members@.len() && (#[trigger] members@[k]).0 == (
                                EdgeIndex { slot: s });
                            assert(before[k].0 == EdgeIndex { slot: s });
                        }
                    }
                    let fit = ResolvedModel { store: store@, members: before };
                    let fits = ResolvedModel { store: store@, members: members@ };
                    assert forall|a: int| 0 <= a < fits.members.len() implies (
                    #[trigger] fits.members[a]).1 < fits.store.entries.len() by {
                        if a < before.len() {
                            assert(fit.members[a] == fits.members[a]);
                        }
                    }
                    assert forall|a: int, b: int| 0 <= a < b < fits.members.len() implies (
                    #[trigger] fits.members[a]).0 != (#[trigger] fits.members[b]).0 by {
                        assert(before[a] == fits.members[a]);
                        if b == before.len() {
                            assert(before[a].0 == edge ==> claimed(before, edge));
                        } else {
                            assert(fit.members[a].0 != fit.members[b].0);
                        }
                    }
                }
            },
        }
        i = i + 1;
    }
    Ok(ResolvedEdgeStore { store, members, skipped })
}

/// The first `count` carried stores with the relationships of a graph, or why
/// one cannot be told.
pub open spec fn stores_resolved(
    graph: DirGraph,
    stores: Seq<CarriedStoreModel>,
    keys: RelationshipKeys,
    count: nat,
) -> Result<Seq<ResolvedModel>, Text>
    decreases count,
{
    if count == 0 {
        Ok(Seq::empty())
    } else {
        match stores_resolved(graph, stores, keys, (count - 1) as nat) {
            Err(fault) => Err(fault),
            Ok(before) => match store_resolved(graph, stores[count - 1], keys) {
                Ok(resolved) => Ok(before.push(resolved)),
                Err(fault) => Err(fault),
            },
        }
    }
}

/// Carried stores with the relationships of a graph. What is out of shape is
/// refused, and then what cannot be told apart.
pub open spec fn resolution(
    graph: DirGraph,
    stores: Seq<CarriedStoreModel>,
    keys: RelationshipKeys,
) -> Result<Seq<ResolvedModel>, Text> {
    match shapes_fault(stores, 0) {
        Some(fault) => Err(fault),
        None => stores_resolved(graph, stores, keys, stores.len()),
    }
}

proof fn resolve_faults_stay(
    graph: DirGraph,
    stores: Seq<CarriedStoreModel>,
    keys: RelationshipKeys,
    count: nat,
    upto: nat,
)
    requires
        count <= upto,
        stores_resolved(graph, stores, keys, count) is Err,
    ensures
        stores_resolved(graph, stores, keys, upto) == stores_resolved(graph, stores, keys, count),
    decreases upto - count,
{
    if count < upto {
        resolve_faults_stay(graph, stores, keys, count, (upto - 1) as nat);
    }
}

/// What a resolution says.
pub open spec fn resolution_said(result: Result<Vec<ResolvedEdgeStore>, String>) -> Result<
    Seq<ResolvedModel>,
    Text,
> {
    match result {
        Ok(resolved) => Ok(resolved_models(resolved@)),
        Err(message) => Err(message@),
    }
}

/// Finds the relationships that carried vectors belong to. A parallel group
/// that the key does not tell apart is refused; a vector whose relationship the
/// graph lacks is counted as skipped.
pub fn resolve_edge_stores(
    dst: &DirGraph,
    stores: Vec<CarriedEdgeStore>,
    keys: &RelationshipKeys,
) -> (result: Result<Vec<ResolvedEdgeStore>, String>)
    ensures
        resolution_said(result) == resolution(*dst, carried_stores(stores@), *keys),
        result is Ok ==> forall|i: int|
            0 <= i < result->Ok_0@.len() ==> (#[trigger] result->Ok_0@[i]).well_formed(),
{
    if let Err(message) = validate_carried_edge_stores(&stores) {
        return Err(message);
    }
    let ghost all = stores@;
    let ghost models = carried_stores(stores@);
    proof {
        crate::carry::faultless_shapes_fit(models);
    }
    let count: usize = stores.len();
    let mut waiting = stores;
    let mut resolved: Vec<ResolvedEdgeStore> = Vec::new();
    assert(resolved_models(resolved@) =~= Seq::<ResolvedModel>::empty());
    assert(all.skip(0) =~= all);
    let mut i: usize = 0;
    while i < count
        invariant
            i <= count,
            all == stores@,
            count == all.len(),
            waiting@ == all.skip(i as int),
            models == carried_stores(all),
            forall|k: int|
                0 <= k < models.len() ==> crate::carry::in_shape(#[trigger] models[k]),
            forall|k: int| 0 <= k < resolved@.len() ==> (#[trigger] resolved@[k]).well_formed(),
            shapes_fault(models, 0) is None,
            stores_resolved(*dst, models, *keys, i as nat) == Ok::<Seq<ResolvedModel>, Text>(
                resolved_models(resolved@),
            ),
        decreases count - i,
    {
        assert(waiting@[0] == all[i as int]);
        let store = waiting.remove(0);
        assert(waiting@ =~= all.skip(i + 1));
        assert(models[i as int] == store@);
        let ghost before = resolved@;
        match resolve_one(dst, store, keys) {
            Ok(one) => {
                resolved.push(one);
                assert(resolved_models(resolved@) =~= resolved_models(before).push(one@));
            },
            Err(message) => {
                proof {
                    resolve_faults_stay(*dst, models, *keys, (i + 1) as nat, models.len());
                }
                return Err(message);
            },
        }
        i = i + 1;
    }
    Ok(resolved)
}

} // verus!
