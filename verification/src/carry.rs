//! Relationship stores as they leave a graph: portable addresses in place of
//! slots, and the refusal of a relationship that no address names.

use crate::coordinate::{fault_of, non_finite_message, validate_finite_vector};
use crate::edge_read::{label_text, place_at, read_row, PlaceModel};
use crate::edge_store::EdgeEmbeddingStore;
use crate::edge_writes::{metric_fault, validate_metric};
use crate::graph::DirGraph;
use crate::groups::{
    describe_group, group_keys, group_members, group_text, keys_fault, RelationshipKeys,
};
use crate::name_pairs::{keys_on, listed_keys, listed_keys_are_kept, pair_texts};
use crate::names::{column_or_name, listed_column};
use crate::store::{hash_of, vector_of, StoreModel};
use crate::text::{decimal, owned_option, push_number, str_option, text_option, Text};
use crate::topology::{group_edges, Topology};
use crate::value::{model_option, EdgeIndex, Value};
use vstd::prelude::*;

verus! {

/// A carried vector and the address of its relationship.
#[derive(Debug, Clone)]
pub struct CarriedEdgeEntry {
    /// The source node's type.
    pub source_type: String,
    /// The source node's id.
    pub source_id: Value,
    /// The target node's type.
    pub target_type: String,
    /// The target node's id.
    pub target_id: Value,
    /// The relationship's key value, where a key property is named and the
    /// relationship has it.
    pub key: Option<Value>,
    /// The vector.
    pub vector: Vec<u32>,
    /// The hash of the text the vector was made from.
    pub text_hash: Option<u64>,
}

/// What a carried vector says.
pub struct CarriedEntryModel {
    pub place: PlaceModel,
    pub vector: Seq<u32>,
    pub text_hash: Option<u64>,
}

impl View for CarriedEdgeEntry {
    type V = CarriedEntryModel;

    open spec fn view(&self) -> CarriedEntryModel {
        CarriedEntryModel {
            place: PlaceModel {
                source_type: self.source_type@,
                source_id: self.source_id@,
                target_type: self.target_type@,
                target_id: self.target_id@,
                key: model_option(self.key),
            },
            vector: self.vector@,
            text_hash: self.text_hash,
        }
    }
}

/// A relationship store as it is carried.
#[derive(Debug, Clone)]
pub struct CarriedEdgeStore {
    /// The relationship type.
    pub relationship_type: String,
    /// The text column.
    pub text_column: String,
    /// The numbers in a vector.
    pub dimension: usize,
    /// The declared metric.
    pub metric: Option<String>,
    /// The model that made the vectors.
    pub model_id: Option<String>,
    /// The key property that was named for the type. The other side uses it
    /// unless it names another.
    pub key_property: Option<String>,
    /// The vectors.
    pub entries: Vec<CarriedEdgeEntry>,
}

/// What a carried store says.
pub struct CarriedStoreModel {
    pub relationship_type: Text,
    pub text_column: Text,
    pub dimension: usize,
    pub metric: Option<Text>,
    pub model_id: Option<Text>,
    pub key_property: Option<Text>,
    pub entries: Seq<CarriedEntryModel>,
}

/// What carried vectors say.
pub open spec fn carried_entries(entries: Seq<CarriedEdgeEntry>) -> Seq<CarriedEntryModel> {
    Seq::new(entries.len(), |i: int| entries[i]@)
}

impl View for CarriedEdgeStore {
    type V = CarriedStoreModel;

    open spec fn view(&self) -> CarriedStoreModel {
        CarriedStoreModel {
            relationship_type: self.relationship_type@,
            text_column: self.text_column@,
            dimension: self.dimension,
            metric: text_option(self.metric),
            model_id: text_option(self.model_id),
            key_property: text_option(self.key_property),
            entries: carried_entries(self.entries@),
        }
    }
}

/// What carried stores say.
pub open spec fn carried_stores(stores: Seq<CarriedEdgeStore>) -> Seq<CarriedStoreModel> {
    Seq::new(stores.len(), |i: int| stores[i]@)
}

/// The refusal to carry a store.
pub open spec fn refusal_text(
    store: Text,
    group: Text,
    reason: Text,
    relationship_type: Text,
) -> Text {
    "Relationship embedding store '"@ + store + "' cannot be carried: "@ + group + ", and "@
        + reason
        + ". A parallel group is carried only under a key property whose value is unique within the group: pass relationship_keys={'"@
        + relationship_type + "': '<property>'}."@
}

/// The refusal to carry a store.
pub(crate) fn refusal(store: &str, group: &str, reason: &str, relationship_type: &str) -> (message:
    String)
    ensures
        message@ == refusal_text(store@, group@, reason@, relationship_type@),
{
    let mut message = "Relationship embedding store '".to_owned();
    message.append(store);
    message.append("' cannot be carried: ");
    message.append(group);
    message.append(", and ");
    message.append(reason);
    message.append(
        ". A parallel group is carried only under a key property whose value is unique within the group: pass relationship_keys={'",
    );
    message.append(relationship_type);
    message.append("': '<property>'}.");
    message
}

/// Why a parallel group cannot be told apart, where it cannot.
pub open spec fn group_fault(
    topology: Topology,
    members: Seq<EdgeIndex>,
    relationship_type: Text,
    property: Option<Text>,
) -> Option<Text> {
    if members.len() <= 1 {
        None
    } else {
        match property {
            None => Some("relationship_keys names no key for '"@ + relationship_type + "'"@),
            Some(p) => keys_fault(topology, members, p, 0),
        }
    }
}

/// The relationships that run with one: of a type, between its endpoints.
pub open spec fn parallel(topology: Topology, edge: EdgeIndex, relationship_type: Text) -> Seq<
    EdgeIndex,
> {
    group_edges(
        topology.edges@,
        topology.record(edge).source,
        topology.record(edge).target,
        relationship_type,
    )
}

/// The first owner, from `position`, whose vector no address names.
pub open spec fn extract_fault(
    topology: Topology,
    relationship_type: Text,
    label: Text,
    property: Option<Text>,
    nodes: Seq<usize>,
    position: int,
) -> Option<Text>
    decreases nodes.len() - position,
{
    if position < 0 || position >= nodes.len() {
        None
    } else {
        let edge = EdgeIndex { slot: nodes[position] };
        let members = parallel(topology, edge, relationship_type);
        let reason = group_fault(topology, members, relationship_type, property);
        if topology.live(edge) && reason is Some {
            Some(
                refusal_text(
                    label,
                    group_text(
                        topology,
                        relationship_type,
                        topology.record(edge).source,
                        topology.record(edge).target,
                        members.len(),
                    ),
                    reason->0,
                    relationship_type,
                ),
            )
        } else {
            extract_fault(topology, relationship_type, label, property, nodes, position + 1)
        }
    }
}

/// The vectors of the first `count` owners, under their addresses.
pub open spec fn addressed(
    topology: Topology,
    property: Option<Text>,
    store: StoreModel,
    count: nat,
) -> Seq<CarriedEntryModel>
    decreases count,
{
    if count == 0 {
        Seq::empty()
    } else {
        let before = addressed(topology, property, store, (count - 1) as nat);
        let edge = EdgeIndex { slot: store.nodes[count - 1] };
        if topology.live(edge) {
            before.push(
                CarriedEntryModel {
                    place: place_at(topology, property, edge),
                    vector: vector_of(store, edge.slot)->0,
                    text_hash: hash_of(store, edge.slot),
                },
            )
        } else {
            before
        }
    }
}

/// A store as it leaves a graph, or why it cannot.
pub open spec fn extracted(
    topology: Topology,
    relationship_type: Text,
    name: Text,
    store: StoreModel,
    property: Option<Text>,
) -> Result<CarriedStoreModel, Text> {
    let column = listed_column(name);
    match extract_fault(
        topology,
        relationship_type,
        label_text(relationship_type, column),
        property,
        store.nodes,
        0,
    ) {
        Some(fault) => Err(fault),
        None => Ok(
            CarriedStoreModel {
                relationship_type,
                text_column: column,
                dimension: store.dimension,
                metric: store.metric,
                model_id: store.model_id,
                key_property: property,
                entries: addressed(topology, property, store, store.nodes.len()),
            },
        ),
    }
}

pub(crate) fn label(relationship_type: &str, text_column: &str) -> (label: String)
    ensures
        label@ == label_text(relationship_type@, text_column@),
{
    let mut label = relationship_type.to_owned();
    label.append(".");
    label.append(text_column);
    label
}

/// Whether a parallel group cannot be told apart, and why.
fn check_group(
    graph: &DirGraph,
    members: &Vec<EdgeIndex>,
    relationship_type: &str,
    property: Option<&str>,
) -> (fault: Option<String>)
    ensures
        text_option(fault) == group_fault(
            graph.topology,
            members@,
            relationship_type@,
            str_option(property),
        ),
{
    if members.len() <= 1 {
        return None;
    }
    match property {
        None => {
            let mut reason = "relationship_keys names no key for '".to_owned();
            reason.append(relationship_type);
            reason.append("'");
            Some(reason)
        },
        Some(p) => match group_keys(graph, members, p) {
            Ok(_) => None,
            Err(reason) => Some(reason),
        },
    }
}

/// The outcome of an extraction.
pub open spec fn extraction(result: Result<CarriedEdgeStore, String>) -> Result<
    CarriedStoreModel,
    Text,
> {
    match result {
        Ok(store) => Ok(store@),
        Err(message) => Err(message@),
    }
}

fn extract_one(
    src: &DirGraph,
    relationship_type: &str,
    name: &str,
    store: &EdgeEmbeddingStore,
    key_property: Option<&str>,
) -> (result: Result<CarriedEdgeStore, String>)
    requires
        src.well_formed(),
        store.well_formed(),
    ensures
        extraction(result) == extracted(
            src.topology,
            relationship_type@,
            name@,
            store@,
            str_option(key_property),
        ),
{
    let text_column = column_or_name(name);
    let label = label(relationship_type, text_column.as_str());
    let ghost property = str_option(key_property);
    let ghost topology = src.topology;
    let edges = store.edges();
    let mut entries: Vec<CarriedEdgeEntry> = Vec::new();
    assert(carried_entries(entries@) =~= addressed(topology, property, store@, 0));
    let mut i: usize = 0;
    while i < edges.len()
        invariant
            i <= edges@.len(),
            src.well_formed(),
            store.well_formed(),
            topology == src.topology,
            property == str_option(key_property),
            text_column@ == listed_column(name@),
            label@ == label_text(relationship_type@, text_column@),
            edges@.len() == store@.nodes.len(),
            forall|k: int|
                0 <= k < edges@.len() ==> (#[trigger] edges@[k]).slot == store@.nodes[k],
            carried_entries(entries@) == addressed(topology, property, store@, i as nat),
            extract_fault(topology, relationship_type@, label@, property, store@.nodes, 0)
                == extract_fault(
                topology,
                relationship_type@,
                label@,
                property,
                store@.nodes,
                i as int,
            ),
        decreases edges@.len() - i,
    {
        let edge = edges[i];
        assert(edge == EdgeIndex { slot: store@.nodes[i as int] });
        if let Some((source, target)) = src.topology.edge_endpoints(edge) {
            let members = group_members(src, source, target, relationship_type);
            match check_group(src, &members, relationship_type, key_property) {
                None => {},
                Some(reason) => {
                    let group = describe_group(
                        src,
                        relationship_type,
                        source,
                        target,
                        members.len(),
                    );
                    return Err(
                        refusal(
                            label.as_str(),
                            group.as_str(),
                            reason.as_str(),
                            relationship_type,
                        ),
                    );
                },
            }
            assert(crate::store::holds(store@, edge.slot)) by {
                assert(store@.nodes[i as int] == edge.slot);
            }
            let row = read_row(src, store, key_property, edge);
            let ghost before = entries@;
            let entry = CarriedEdgeEntry {
                source_type: row.source_type,
                source_id: row.source_id,
                target_type: row.target_type,
                target_id: row.target_id,
                key: row.key,
                vector: row.vector,
                text_hash: store.text_hash(edge),
            };
            entries.push(entry);
            proof {
                assert(entry@.place == row@.place);
                assert(carried_entries(entries@) =~= carried_entries(before).push(entry@));
            }
        }
        i = i + 1;
    }
    Ok(
        CarriedEdgeStore {
            relationship_type: relationship_type.to_owned(),
            text_column,
            dimension: store.dimension(),
            metric: owned_option(store.metric()),
            model_id: owned_option(store.model_id()),
            key_property: owned_option(key_property),
            entries,
        },
    )
}

/// The first `count` stores under `keys` as they leave a graph, or why one
/// cannot.
pub open spec fn extracted_stores(
    graph: DirGraph,
    pairs: Seq<(Text, Text)>,
    keys: RelationshipKeys,
    count: nat,
) -> Result<Seq<CarriedStoreModel>, Text>
    decreases count,
{
    if count == 0 {
        Ok(Seq::empty())
    } else {
        match extracted_stores(graph, pairs, keys, (count - 1) as nat) {
            Err(fault) => Err(fault),
            Ok(before) => {
                let pair = pairs[count - 1];
                match extracted(
                    graph.topology,
                    pair.0,
                    pair.1,
                    crate::catalog::lookup(graph.edge_embeddings@, pair.0, pair.1)->0,
                    keys.property_of(pair.0),
                ) {
                    Ok(store) => Ok(before.push(store)),
                    Err(fault) => Err(fault),
                }
            },
        }
    }
}

/// Every relationship store of a graph as it leaves, by type and name, or why
/// one cannot.
pub open spec fn extraction_of(graph: DirGraph, keys: RelationshipKeys) -> Result<
    Seq<CarriedStoreModel>,
    Text,
> {
    extracted_stores(
        graph,
        keys_on(graph.edge_embeddings@),
        keys,
        keys_on(graph.edge_embeddings@).len(),
    )
}

/// What an extraction says.
pub open spec fn stores_or_fault(result: Result<Vec<CarriedEdgeStore>, String>) -> Result<
    Seq<CarriedStoreModel>,
    Text,
> {
    match result {
        Ok(stores) => Ok(carried_stores(stores@)),
        Err(message) => Err(message@),
    }
}

/// Every relationship store of a graph, under portable addresses. A vector on a
/// member of a parallel group that no key tells apart is refused.
pub fn extract_edge_stores(src: &DirGraph, keys: &RelationshipKeys) -> (result: Result<
    Vec<CarriedEdgeStore>,
    String,
>)
    requires
        src.well_formed(),
    ensures
        stores_or_fault(result) == extraction_of(*src, *keys),
{
    let listed = listed_keys(&src.edge_embeddings);
    let ghost pairs = keys_on(src.edge_embeddings@);
    let mut stores: Vec<CarriedEdgeStore> = Vec::new();
    assert(carried_stores(stores@) =~= Seq::<CarriedStoreModel>::empty());
    let mut i: usize = 0;
    while i < listed.len()
        invariant
            i <= listed@.len(),
            src.well_formed(),
            pairs == keys_on(src.edge_embeddings@),
            pair_texts(listed@) == pairs,
            pairs.to_set() == crate::name_pairs::keys_kept(
                src.edge_embeddings@,
                src.edge_embeddings@.len() as int,
            ),
            extracted_stores(*src, pairs, *keys, i as nat) == Ok::<Seq<CarriedStoreModel>, Text>(
                carried_stores(stores@),
            ),
        decreases listed@.len() - i,
    {
        let owner = listed[i].0.as_str();
        let name = listed[i].1.as_str();
        proof {
            assert(pairs[i as int] == (owner@, name@));
            assert(pairs.to_set().contains(pairs[i as int]));
            listed_keys_are_kept(src.edge_embeddings@, pairs[i as int]);
        }
        let ghost before = stores@;
        match src.edge_embeddings.get(owner, name) {
            Some(store) => match extract_one(src, owner, name, store, keys.get(owner)) {
                Ok(carried) => {
                    stores.push(carried);
                    assert(carried_stores(stores@) =~= carried_stores(before).push(carried@));
                },
                Err(message) => {
                    proof {
                        faults_stay(*src, pairs, *keys, (i + 1) as nat, pairs.len());
                    }
                    return Err(message);
                },
            },
            None => {
                assert(false);
            },
        }
        i = i + 1;
    }
    Ok(stores)
}

proof fn faults_stay(
    graph: DirGraph,
    pairs: Seq<(Text, Text)>,
    keys: RelationshipKeys,
    count: nat,
    upto: nat,
)
    requires
        count <= upto,
        extracted_stores(graph, pairs, keys, count) is Err,
    ensures
        extracted_stores(graph, pairs, keys, upto) == extracted_stores(graph, pairs, keys, count),
    decreases upto - count,
{
    if count < upto {
        faults_stay(graph, pairs, keys, count, (upto - 1) as nat);
    }
}

/// The first vector, from `position`, that does not fit its store.
pub open spec fn vectors_fault(store: CarriedStoreModel, position: int) -> Option<Text>
    decreases store.entries.len() - position,
{
    if position < 0 || position >= store.entries.len() {
        None
    } else {
        let vector = store.entries[position].vector;
        let place = "Invalid embedding in relationship store '"@ + label_text(
            store.relationship_type,
            store.text_column,
        ) + "' at entry "@ + decimal(position as nat) + ": "@;
        if vector.len() != store.dimension {
            Some(
                place + "expected width "@ + decimal(store.dimension as nat) + ", got "@ + decimal(
                    vector.len(),
                ),
            )
        } else if fault_of(vector) is Some {
            Some(place + non_finite_message(fault_of(vector)->0))
        } else {
            vectors_fault(store, position + 1)
        }
    }
}

/// What is wrong with the shape of a carried store.
pub open spec fn shape_fault(store: CarriedStoreModel) -> Option<Text> {
    let head = "Relationship embedding store '"@ + label_text(
        store.relationship_type,
        store.text_column,
    );
    if store.dimension == 0 {
        Some(head + "' has dimension 0"@)
    } else if metric_fault(store.metric) is Some {
        Some(head + "': "@ + metric_fault(store.metric)->0)
    } else {
        vectors_fault(store, 0)
    }
}

/// The first carried store, from `position`, that is out of shape.
pub open spec fn shapes_fault(stores: Seq<CarriedStoreModel>, position: int) -> Option<Text>
    decreases stores.len() - position,
{
    if position < 0 || position >= stores.len() {
        None
    } else if shape_fault(stores[position]) is Some {
        shape_fault(stores[position])
    } else {
        shapes_fault(stores, position + 1)
    }
}

/// A carried store whose vectors fit it.
pub open spec fn in_shape(store: CarriedStoreModel) -> bool {
    forall|i: int|
        0 <= i < store.entries.len() ==> (#[trigger] store.entries[i]).vector.len()
            == store.dimension
}

pub(crate) proof fn no_vector_fault_at(store: CarriedStoreModel, from: int, at: int)
    requires
        0 <= from <= at < store.entries.len(),
        vectors_fault(store, from) is None,
    ensures
        store.entries[at].vector.len() == store.dimension,
        fault_of(store.entries[at].vector) is None,
    decreases at - from,
{
    if from < at {
        no_vector_fault_at(store, from + 1, at);
    }
}

pub(crate) proof fn no_shape_fault_at(stores: Seq<CarriedStoreModel>, from: int, at: int)
    requires
        0 <= from <= at < stores.len(),
        shapes_fault(stores, from) is None,
    ensures
        shape_fault(stores[at]) is None,
    decreases at - from,
{
    if from < at {
        no_shape_fault_at(stores, from + 1, at);
    }
}

/// Where nothing is out of shape, every vector fits its store.
pub proof fn faultless_shapes_fit(stores: Seq<CarriedStoreModel>)
    requires
        shapes_fault(stores, 0) is None,
    ensures
        forall|i: int| 0 <= i < stores.len() ==> in_shape(#[trigger] stores[i]),
{
    assert forall|i: int| 0 <= i < stores.len() implies in_shape(#[trigger] stores[i]) by {
        no_shape_fault_at(stores, 0, i);
        assert forall|k: int| 0 <= k < stores[i].entries.len() implies (
        #[trigger] stores[i].entries[k]).vector.len() == stores[i].dimension by {
            no_vector_fault_at(stores[i], 0, k);
        }
    }
}

fn validate_shape(store: &CarriedEdgeStore) -> (result: Result<(), String>)
    ensures
        match result {
            Ok(_) => shape_fault(store@) is None,
            Err(message) => shape_fault(store@) == Some(message@),
        },
{
    let label = label(store.relationship_type.as_str(), store.text_column.as_str());
    if store.dimension == 0 {
        let mut message = "Relationship embedding store '".to_owned();
        message.append(label.as_str());
        message.append("' has dimension 0");
        return Err(message);
    }
    let metric: Option<&str> = match &store.metric {
        Some(name) => Some(name.as_str()),
        None => None,
    };
    if let Err(error) = validate_metric(metric) {
        let mut message = "Relationship embedding store '".to_owned();
        message.append(label.as_str());
        message.append("': ");
        message.append(error.as_str());
        return Err(message);
    }
    let mut i: usize = 0;
    while i < store.entries.len()
        invariant
            i <= store.entries@.len(),
            store.dimension != 0,
            metric_fault(store@.metric) is None,
            label@ == label_text(store@.relationship_type, store@.text_column),
            vectors_fault(store@, 0) == vectors_fault(store@, i as int),
        decreases store.entries@.len() - i,
    {
        let vector = &store.entries[i].vector;
        assert(store@.entries[i as int].vector == vector@);
        let finite = validate_finite_vector(vector.as_slice());
        if vector.len() != store.dimension || finite.is_err() {
            let mut message = "Invalid embedding in relationship store '".to_owned();
            message.append(label.as_str());
            message.append("' at entry ");
            push_number(&mut message, i);
            message.append(": ");
            if vector.len() != store.dimension {
                message.append("expected width ");
                push_number(&mut message, store.dimension);
                message.append(", got ");
                push_number(&mut message, vector.len());
            } else if let Err(error) = finite {
                message.append(error.message().as_str());
            }
            return Err(message);
        }
        i = i + 1;
    }
    Ok(())
}

/// Checks the shape of every carried store.
pub fn validate_carried_edge_stores(stores: &Vec<CarriedEdgeStore>) -> (result: Result<(), String>)
    ensures
        match result {
            Ok(_) => shapes_fault(carried_stores(stores@), 0) is None,
            Err(message) => shapes_fault(carried_stores(stores@), 0) == Some(message@),
        },
{
    let mut i: usize = 0;
    while i < stores.len()
        invariant
            i <= stores@.len(),
            shapes_fault(carried_stores(stores@), 0) == shapes_fault(
                carried_stores(stores@),
                i as int,
            ),
        decreases stores@.len() - i,
    {
        assert(carried_stores(stores@)[i as int] == stores@[i as int]@);
        if let Err(message) = validate_shape(&stores[i]) {
            return Err(message);
        }
        i = i + 1;
    }
    Ok(())
}

} // verus!
