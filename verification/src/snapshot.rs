//! Relationship stores as a snapshot keeps them: what is written of a store, and
//! what is checked of a store that was read before a graph takes it.

use crate::catalog::{
    a_kept_store_is_found, entry_place, kept, keys_distinct, place_is_first, with_entry, Catalog,
    EntryModel,
};
use crate::coordinate::{fault_of, non_finite_message, validate_finite_vector};
use crate::edge_store::EdgeEmbeddingStore;
use crate::freshness::{uncovered, IndexFreshness, DEFAULT_AUTO_REFRESH_LIMIT};
use crate::graph::DirGraph;
use crate::name_pairs::{keys_kept, listed_keys, listed_keys_are_kept, name_order, pair_texts};
use crate::names::{column_of, text_column_of};
use crate::order::ascends;
use crate::store::{rows_of, EmbeddingStore, StoreModel};
use crate::text::{decimal, push_number, str_option, text_eq, text_option, Text};
use crate::topology::Topology;
use crate::value::EdgeIndex;
use std::collections::HashMap;
use vstd::prelude::*;
use vstd::std_specs::iter::IteratorSpec;

verus! {

broadcast use vstd::std_specs::hash::group_hash_axioms;

/// What a snapshot keeps of a store. An index is not kept: it is built again.
#[derive(Debug, Clone)]
pub struct PersistedEdgeEmbeddingStore {
    /// The numbers in a vector.
    pub dimension: usize,
    /// Every vector's numbers, in slot order.
    pub data: Vec<u32>,
    /// The relationship of each vector.
    pub edge_slots: Vec<usize>,
    /// The metric, where one is declared.
    pub metric: Option<String>,
    /// The model, where one made every vector.
    pub model_id: Option<String>,
    /// The hash of the text each generated vector was made from.
    pub text_hashes: HashMap<usize, u64>,
}

/// What is kept, as plain values.
pub struct PersistedModel {
    pub dimension: usize,
    pub data: Seq<u32>,
    pub edge_slots: Seq<usize>,
    pub metric: Option<Text>,
    pub model_id: Option<Text>,
    pub hashes: Map<usize, u64>,
}

impl View for PersistedEdgeEmbeddingStore {
    type V = PersistedModel;

    open spec fn view(&self) -> PersistedModel {
        PersistedModel {
            dimension: self.dimension,
            data: self.data@,
            edge_slots: self.edge_slots@,
            metric: text_option(self.metric),
            model_id: text_option(self.model_id),
            hashes: self.text_hashes@,
        }
    }
}

/// The store that a kept store is read as.
pub open spec fn read_store(kept: PersistedModel) -> StoreModel {
    StoreModel {
        dimension: kept.dimension,
        nodes: kept.edge_slots,
        rows: rows_of(kept.data, kept.dimension as nat, kept.edge_slots.len()),
        metric: kept.metric,
        model_id: kept.model_id,
        hashes: kept.hashes,
        index: None,
        freshness: uncovered(DEFAULT_AUTO_REFRESH_LIMIT),
    }
}

/// The first relationship among the first `count` that was named before.
pub open spec fn repeated_slot(slots: Seq<usize>, count: nat) -> Option<usize>
    decreases count,
{
    if count == 0 {
        None
    } else {
        match repeated_slot(slots, (count - 1) as nat) {
            Some(slot) => Some(slot),
            None => if slots.take(count - 1).contains(slots[count - 1]) {
                Some(slots[count - 1])
            } else {
                None
            },
        }
    }
}

/// What is wrong with a relationship that a vector of a type's store belongs to.
pub open spec fn owner_fault(topology: Topology, connection_type: Text, slot: usize) -> Option<
    Text,
> {
    let edge = EdgeIndex { slot };
    let named = "relationship slot "@ + decimal(slot as nat);
    if !topology.live(edge) {
        Some(named + " is not live"@)
    } else if topology.type_of(edge) != connection_type {
        Some(
            named + " has type '"@ + topology.type_of(edge) + "', expected '"@ + connection_type
                + "'"@,
        )
    } else if !topology.node_lives(topology.record(edge).source) || !topology.node_lives(
        topology.record(edge).target,
    ) {
        Some(named + " has a dead endpoint"@)
    } else {
        None
    }
}

/// What is wrong with the first of the first `count` relationships with which
/// something is.
pub open spec fn owners_fault(
    topology: Topology,
    connection_type: Text,
    slots: Seq<usize>,
    count: nat,
) -> Option<Text>
    decreases count,
{
    if count == 0 {
        None
    } else {
        match owners_fault(topology, connection_type, slots, (count - 1) as nat) {
            Some(fault) => Some(fault),
            None => owner_fault(topology, connection_type, slots[count - 1]),
        }
    }
}

/// Whether every hash is that of a vector.
pub open spec fn hashes_belong(kept: PersistedModel) -> bool {
    forall|slot: usize| #[trigger] kept.hashes.contains_key(slot) ==> kept.edge_slots.contains(slot)
}

/// What is wrong with a store's names and numbers, before its owners are looked
/// at.
pub open spec fn form_fault(
    connection_type: Text,
    property: Text,
    kept: PersistedModel,
) -> Option<Text> {
    if connection_type.len() == 0 {
        Some("relationship type is empty"@)
    } else if column_of(property) is None {
        Some(
            "embedding property '"@ + property + "' is not a canonical *_emb store name"@,
        )
    } else if kept.dimension == 0 {
        Some("embedding dimension is zero"@)
    } else if kept.data.len() != kept.edge_slots.len() * kept.dimension {
        Some(
            "embedding data cardinality "@ + decimal(kept.data.len()) + " does not hold "@
                + decimal(kept.edge_slots.len()) + " vectors of dimension "@ + decimal(
                kept.dimension as nat,
            ),
        )
    } else {
        match fault_of(kept.data) {
            Some(error) => Some(non_finite_message(error)),
            None => None,
        }
    }
}

/// Whether a graph takes a kept store under a relationship type and a store name.
pub open spec fn taken(
    topology: Topology,
    connection_type: Text,
    property: Text,
    kept: PersistedModel,
) -> bool {
    &&& repeated_slot(kept.edge_slots, kept.edge_slots.len()) is None
    &&& form_fault(connection_type, property, kept) is None
    &&& hashes_belong(kept)
    &&& owners_fault(topology, connection_type, kept.edge_slots, kept.edge_slots.len()) is None
}

/// Whether a message is what a store that is not taken is refused with. Where
/// several hashes belong to no vector, any one of them is named.
pub open spec fn refused_with(
    topology: Topology,
    connection_type: Text,
    property: Text,
    kept: PersistedModel,
    message: Text,
) -> bool {
    match repeated_slot(kept.edge_slots, kept.edge_slots.len()) {
        Some(slot) => message == "relationship slot "@ + decimal(slot as nat)
            + " appears more than once"@,
        None => checked_with(topology, connection_type, property, kept, message),
    }
}

/// Whether a message is what a store whose relationships are all different is
/// refused with.
pub open spec fn checked_with(
    topology: Topology,
    connection_type: Text,
    property: Text,
    kept: PersistedModel,
    message: Text,
) -> bool {
    match form_fault(connection_type, property, kept) {
        Some(fault) => message == fault,
        None => if hashes_belong(kept) {
            owners_fault(topology, connection_type, kept.edge_slots, kept.edge_slots.len())
                == Some(message)
        } else {
            exists|slot: usize| #[trigger]
                absent_hash(kept, slot) && message == "source hash names absent relationship slot "@
                    + decimal(slot as nat)
        },
    }
}

/// Whether a hash is that of a relationship without a vector.
pub open spec fn absent_hash(kept: PersistedModel, slot: usize) -> bool {
    kept.hashes.contains_key(slot) && !kept.edge_slots.contains(slot)
}

/// A slot among hashes that is the owner of no vector.
fn find_absent(hashes: &HashMap<usize, u64>, slots: &HashMap<usize, usize>) -> (absent: Option<
    usize,
>)
    ensures
        match absent {
            Some(slot) => hashes@.contains_key(slot) && !slots@.contains_key(slot),
            None => forall|slot: usize|
                #[trigger] hashes@.contains_key(slot) ==> slots@.contains_key(slot),
        },
{
    let ghost keys = hashes.keys().remaining().unref();
    assert(keys.to_set() == hashes@.dom());
    for key in it: hashes.keys()
        invariant
            it.seq().unref() == keys,
            keys.to_set() == hashes@.dom(),
            forall|i: int| 0 <= i < it.index() ==> slots@.contains_key(#[trigger] keys[i]),
    {
        assert(*key == keys[it.index() as int]);
        if !slots.contains_key(key) {
            assert(keys.contains(*key));
            assert(keys.to_set().contains(*key));
            return Some(*key);
        }
    }
    proof {
        assert forall|slot: usize| #[trigger] hashes@.contains_key(slot) implies slots@.contains_key(
            slot,
        ) by {
            assert(keys.to_set().contains(slot));
            assert(keys.contains(slot));
        }
    }
    None
}

impl EdgeEmbeddingStore {
    /// Whether the store has exactly a kept store's contents, its owners placed.
    pub open spec fn reads(self, kept: PersistedModel) -> bool {
        &&& self.numeric.dimension == kept.dimension
        &&& self.numeric.data@ == kept.data
        &&& self.numeric.slot_to_node@ == kept.edge_slots
        &&& text_option(self.numeric.metric) == kept.metric
        &&& text_option(self.numeric.model_id) == kept.model_id
        &&& self.numeric.text_hashes@ == kept.hashes
        &&& self.numeric.index is None
        &&& self.numeric.freshness.well_formed()
        &&& self.numeric.freshness@ == uncovered(DEFAULT_AUTO_REFRESH_LIMIT)
        &&& forall|i: int|
            0 <= i < kept.edge_slots.len() ==> self.numeric.node_to_slot@.contains_key(
                #[trigger] kept.edge_slots[i],
            ) && self.numeric.node_to_slot@[kept.edge_slots[i]] == i
        &&& forall|n: usize| #[trigger]
            self.numeric.node_to_slot@.contains_key(n) ==> self.numeric.node_to_slot@[n]
                < kept.edge_slots.len() && kept.edge_slots[self.numeric.node_to_slot@[n] as int]
                == n
    }

    /// The store that a kept store holds, which is yet to be checked; or an error
    /// where one relationship has two vectors.
    pub fn from_persisted(payload: PersistedEdgeEmbeddingStore) -> (result: Result<
        EdgeEmbeddingStore,
        String,
    >)
        ensures
            match result {
                Ok(store) => repeated_slot(payload@.edge_slots, payload@.edge_slots.len()) is None
                    && store.reads(payload@),
                Err(message) => {
                    let repeated = repeated_slot(payload@.edge_slots, payload@.edge_slots.len());
                    repeated is Some && message@ == "relationship slot "@ + decimal(
                        repeated->0 as nat,
                    ) + " appears more than once"@
                },
            },
    {
        let ghost kept = payload@;
        let mut node_to_slot: HashMap<usize, usize> = HashMap::new();
        let mut slot: usize = 0;
        while slot < payload.edge_slots.len()
            invariant
                slot <= payload.edge_slots@.len(),
                kept.edge_slots == payload.edge_slots@,
                repeated_slot(kept.edge_slots, slot as nat) is None,
                forall|i: int|
                    0 <= i < slot ==> node_to_slot@.contains_key(#[trigger] kept.edge_slots[i])
                        && node_to_slot@[kept.edge_slots[i]] == i,
                forall|n: usize| #[trigger]
                    node_to_slot@.contains_key(n) ==> node_to_slot@[n] < slot
                        && kept.edge_slots[node_to_slot@[n] as int] == n,
            decreases payload.edge_slots@.len() - slot,
        {
            let edge: usize = payload.edge_slots[slot];
            let ghost earlier = kept.edge_slots.take(slot as int);
            if node_to_slot.contains_key(&edge) {
                proof {
                    let place = node_to_slot@[edge] as int;
                    assert(earlier[place] == edge);
                    assert(repeated_slot(kept.edge_slots, (slot + 1) as nat) == Some(edge));
                    first_repeat_stays(kept.edge_slots, (slot + 1) as nat, kept.edge_slots.len());
                }
                let mut message = "relationship slot ".to_owned();
                push_number(&mut message, edge);
                message.append(" appears more than once");
                return Err(message);
            }
            proof {
                if earlier.contains(edge) {
                    let k = earlier.index_of(edge);
                    assert(earlier[k] == edge);
                    assert(kept.edge_slots[k] == edge);
                }
            }
            node_to_slot.insert(edge, slot);
            slot = slot + 1;
        }
        Ok(
            EdgeEmbeddingStore {
                numeric: EmbeddingStore {
                    dimension: payload.dimension,
                    data: payload.data,
                    slot_to_node: payload.edge_slots,
                    node_to_slot,
                    metric: payload.metric,
                    model_id: payload.model_id,
                    text_hashes: payload.text_hashes,
                    index: None,
                    freshness: IndexFreshness::covering(0, DEFAULT_AUTO_REFRESH_LIMIT),
                },
            },
        )
    }
}

proof fn first_repeat_stays(slots: Seq<usize>, count: nat, more: nat)
    requires
        repeated_slot(slots, count) is Some,
        count <= more,
    ensures
        repeated_slot(slots, more) == repeated_slot(slots, count),
    decreases more,
{
    if count < more {
        first_repeat_stays(slots, count, (more - 1) as nat);
    }
}

proof fn first_fault_stays(
    topology: Topology,
    connection_type: Text,
    slots: Seq<usize>,
    count: nat,
    more: nat,
)
    requires
        owners_fault(topology, connection_type, slots, count) is Some,
        count <= more,
    ensures
        owners_fault(topology, connection_type, slots, more) == owners_fault(
            topology,
            connection_type,
            slots,
            count,
        ),
    decreases more,
{
    if count < more {
        first_fault_stays(topology, connection_type, slots, count, (more - 1) as nat);
    }
}

fn check_owner(topology: &Topology, connection_type: &str, slot: usize) -> (result: Result<
    (),
    String,
>)
    ensures
        match result {
            Ok(_) => owner_fault(*topology, connection_type@, slot) is None,
            Err(message) => owner_fault(*topology, connection_type@, slot) == Some(message@),
        },
{
    let edge = EdgeIndex { slot };
    let mut message = "relationship slot ".to_owned();
    push_number(&mut message, slot);
    let data = match topology.edge_weight(edge) {
        Some(data) => data,
        None => {
            message.append(" is not live");
            return Err(message);
        },
    };
    if !text_eq(data.connection_type.as_str(), connection_type) {
        message.append(" has type '");
        message.append(data.connection_type.as_str());
        message.append("', expected '");
        message.append(connection_type);
        message.append("'");
        return Err(message);
    }
    if let Some((source, target)) = topology.edge_endpoints(edge) {
        if topology.node_view(source).is_none() || topology.node_view(target).is_none() {
            message.append(" has a dead endpoint");
            return Err(message);
        }
    }
    Ok(())
}

fn check_form(connection_type: &str, property: &str, store: &EmbeddingStore) -> (result: Result<
    (),
    String,
>)
    ensures
        forall|kept: PersistedModel|
            kept.dimension == store.dimension && kept.data == store.data@ && kept.edge_slots
                == store.slot_to_node@ ==> match result {
                Ok(_) => (#[trigger] form_fault(connection_type@, property@, kept)) is None,
                Err(message) => form_fault(connection_type@, property@, kept) == Some(message@),
            },
        result is Ok ==> store.dimension > 0 && store.data@.len() == store.slot_to_node@.len()
            * store.dimension,
{
    if connection_type.is_empty() {
        return Err("relationship type is empty".to_owned());
    }
    if text_column_of(property).is_none() {
        let mut message = "embedding property '".to_owned();
        message.append(property);
        message.append("' is not a canonical *_emb store name");
        return Err(message);
    }
    if store.dimension == 0 {
        return Err("embedding dimension is zero".to_owned());
    }
    let needed = store.slot_to_node.len().checked_mul(store.dimension);
    let fits = match needed {
        Some(count) => count == store.data.len(),
        None => false,
    };
    if !fits {
        let mut message = "embedding data cardinality ".to_owned();
        push_number(&mut message, store.data.len());
        message.append(" does not hold ");
        push_number(&mut message, store.slot_to_node.len());
        message.append(" vectors of dimension ");
        push_number(&mut message, store.dimension);
        return Err(message);
    }
    match validate_finite_vector(store.data.as_slice()) {
        Ok(_) => Ok(()),
        Err(error) => Err(error.message()),
    }
}

impl EdgeEmbeddingStore {
    /// Checks a store that was read, before a graph takes it: its names and
    /// numbers, that its hashes are those of its vectors, and that each of its
    /// owners is a live relationship of the type.
    pub fn validate_for_graph(
        &self,
        graph: &DirGraph,
        relationship_type: &str,
        embedding_property: &str,
    ) -> (result: Result<(), String>)
        ensures
            forall|kept: PersistedModel| #[trigger]
                self.reads(kept) ==> match result {
                    Ok(_) => form_fault(relationship_type@, embedding_property@, kept) is None
                        && hashes_belong(kept) && owners_fault(
                        graph.topology,
                        relationship_type@,
                        kept.edge_slots,
                        kept.edge_slots.len(),
                    ) is None && self.well_formed() && self@ == read_store(kept),
                    Err(message) => checked_with(
                        graph.topology,
                        relationship_type@,
                        embedding_property@,
                        kept,
                        message@,
                    ),
                },
    {
        if let Err(message) = check_form(relationship_type, embedding_property, &self.numeric) {
            return Err(message);
        }
        if let Some(slot) = find_absent(&self.numeric.text_hashes, &self.numeric.node_to_slot) {
            let mut message = "source hash names absent relationship slot ".to_owned();
            push_number(&mut message, slot);
            proof {
                assert forall|kept: PersistedModel| #[trigger] self.reads(kept) implies checked_with(
                    graph.topology,
                    relationship_type@,
                    embedding_property@,
                    kept,
                    message@,
                ) by {
                    if kept.edge_slots.contains(slot) {
                        let k = kept.edge_slots.index_of(slot);
                        assert(kept.edge_slots[k] == slot);
                    }
                    assert(absent_hash(kept, slot));
                    assert(kept.hashes.contains_key(slot));
                }
            }
            return Err(message);
        }
        let ghost slots = self.numeric.slot_to_node@;
        let mut i: usize = 0;
        while i < self.numeric.slot_to_node.len()
            invariant
                i <= self.numeric.slot_to_node@.len(),
                slots == self.numeric.slot_to_node@,
                owners_fault(graph.topology, relationship_type@, slots, i as nat) is None,
                forall|kept: PersistedModel| #[trigger]
                    self.reads(kept) ==> form_fault(relationship_type@, embedding_property@, kept)
                        is None,
                forall|slot: usize| #[trigger]
                    self.numeric.text_hashes@.contains_key(slot)
                        ==> self.numeric.node_to_slot@.contains_key(slot),
            decreases self.numeric.slot_to_node@.len() - i,
        {
            let slot: usize = self.numeric.slot_to_node[i];
            if let Err(message) = check_owner(&graph.topology, relationship_type, slot) {
                proof {
                    first_fault_stays(
                        graph.topology,
                        relationship_type@,
                        slots,
                        (i + 1) as nat,
                        slots.len(),
                    );
                    assert forall|kept: PersistedModel| #[trigger]
                        self.reads(kept) implies checked_with(
                        graph.topology,
                        relationship_type@,
                        embedding_property@,
                        kept,
                        message@,
                    ) by {
                        self.hashes_are_placed(kept);
                    }
                }
                return Err(message);
            }
            i = i + 1;
        }
        proof {
            assert forall|kept: PersistedModel| #[trigger] self.reads(kept) implies hashes_belong(
                kept,
            ) && self.well_formed() && self@ == read_store(kept) by {
                self.hashes_are_placed(kept);
                assert(self@ =~= read_store(kept));
            }
        }
        Ok(())
    }

    proof fn hashes_are_placed(&self, kept: PersistedModel)
        requires
            self.reads(kept),
            forall|slot: usize| #[trigger]
                self.numeric.text_hashes@.contains_key(slot)
                    ==> self.numeric.node_to_slot@.contains_key(slot),
        ensures
            hashes_belong(kept),
    {
        assert forall|slot: usize| #[trigger]
            kept.hashes.contains_key(slot) implies kept.edge_slots.contains(slot) by {
            assert(self.numeric.text_hashes@.contains_key(slot));
            assert(self.numeric.node_to_slot@.contains_key(slot));
            assert(kept.edge_slots[self.numeric.node_to_slot@[slot] as int] == slot);
        }
    }
}

/// A kept store, and what it is kept under.
#[derive(Debug, Clone)]
pub struct DecodedStore {
    /// The relationship type.
    pub relationship_type: String,
    /// The store's name.
    pub property: String,
    /// What is kept of the store.
    pub store: PersistedEdgeEmbeddingStore,
}

/// A kept store and its key, as plain values.
pub struct DecodedModel {
    pub relationship_type: Text,
    pub property: Text,
    pub store: PersistedModel,
}

impl View for DecodedStore {
    type V = DecodedModel;

    open spec fn view(&self) -> DecodedModel {
        DecodedModel {
            relationship_type: self.relationship_type@,
            property: self.property@,
            store: self.store@,
        }
    }
}

/// Kept stores, as plain values.
pub open spec fn decoded_models(decoded: Seq<DecodedStore>) -> Seq<DecodedModel> {
    Seq::new(decoded.len(), |i: int| decoded[i]@)
}

/// Whether a graph takes a kept store.
pub open spec fn takes_store(topology: Topology, decoded: DecodedModel) -> bool {
    taken(topology, decoded.relationship_type, decoded.property, decoded.store)
}

/// The stores that the first `count` kept ones are read as.
pub open spec fn read_upto(decoded: Seq<DecodedModel>, count: nat) -> Seq<EntryModel<StoreModel>>
    decreases count,
{
    if count == 0 {
        Seq::empty()
    } else {
        with_entry(
            read_upto(decoded, (count - 1) as nat),
            decoded[count - 1].relationship_type,
            decoded[count - 1].property,
            read_store(decoded[count - 1].store),
        )
    }
}

/// Whether a message is what kept stores are refused with: for the first one
/// that is not taken.
pub open spec fn snapshot_refused(
    topology: Topology,
    decoded: Seq<DecodedModel>,
    message: Text,
) -> bool {
    if decoded.len() == 0 {
        message == "required payload contains no stores"@
    } else {
        exists|i: int, fault: Text| #[trigger] refused_at(topology, decoded, i, fault)
            && message == "store '"@ + decoded[i].relationship_type + "."@ + decoded[i].property
            + "' is invalid: "@ + fault
    }
}

/// Whether the first kept store that is not taken is the one at `i`, with
/// `fault`.
pub open spec fn refused_at(
    topology: Topology,
    decoded: Seq<DecodedModel>,
    i: int,
    fault: Text,
) -> bool {
    &&& 0 <= i < decoded.len()
    &&& forall|k: int| 0 <= k < i ==> takes_store(topology, #[trigger] decoded[k])
    &&& refused_with(
        topology,
        decoded[i].relationship_type,
        decoded[i].property,
        decoded[i].store,
        fault,
    )
}

fn read_one(graph: &DirGraph, decoded: DecodedStore) -> (result: Result<
    EdgeEmbeddingStore,
    String,
>)
    ensures
        match result {
            Ok(store) => takes_store(graph.topology, decoded@) && store.well_formed() && store@
                == read_store(decoded@.store) && column_of(decoded@.property) is Some,
            Err(message) => refused_with(
                graph.topology,
                decoded@.relationship_type,
                decoded@.property,
                decoded@.store,
                message@,
            ),
        },
{
    let ghost kept = decoded@.store;
    match EdgeEmbeddingStore::from_persisted(decoded.store) {
        Err(message) => Err(message),
        Ok(store) => {
            assert(store.reads(kept));
            match store.validate_for_graph(
                graph,
                decoded.relationship_type.as_str(),
                decoded.property.as_str(),
            ) {
                Err(message) => Err(message),
                Ok(_) => Ok(store),
            }
        },
    }
}

/// Whether a graph can hold the stores as its relationship stores.
spec fn stores_hold(stores: Catalog<EdgeEmbeddingStore>) -> bool {
    &&& keys_distinct(stores@)
    &&& forall|i: int|
        0 <= i < stores.entries@.len() ==> (#[trigger] stores.entries@[i]).store.well_formed()
            && column_of(stores.entries@[i].name@) is Some
}

/// The stores that a snapshot holds, each checked against the graph; or an error
/// that names the first one that cannot be taken. Nothing is installed: either
/// every store is handed back or none.
pub fn validate_decoded_edge_embedding_stores(
    graph: &DirGraph,
    decoded: Vec<DecodedStore>,
) -> (result: Result<Catalog<EdgeEmbeddingStore>, String>)
    ensures
        match result {
            Ok(stores) => {
                &&& decoded@.len() > 0
                &&& forall|i: int|
                    0 <= i < decoded@.len() ==> takes_store(
                        graph.topology,
                        #[trigger] decoded_models(decoded@)[i],
                    )
                &&& stores@ == read_upto(decoded_models(decoded@), decoded@.len())
                &&& graph.well_formed() ==> (DirGraph { edge_embeddings: stores, ..*graph }).well_formed()
            },
            Err(message) => snapshot_refused(
                graph.topology,
                decoded_models(decoded@),
                message@,
            ),
        },
{
    let ghost all = decoded_models(decoded@);
    let ghost whole = decoded@;
    if decoded.len() == 0 {
        return Err("required payload contains no stores".to_owned());
    }
    let mut left = decoded;
    let mut stores: Catalog<EdgeEmbeddingStore> = Catalog::new();
    let ghost mut n: int = 0;
    assert(whole.skip(0) =~= whole);
    while left.len() > 0
        invariant
            0 <= n <= whole.len(),
            left@ == whole.skip(n),
            whole == decoded@,
            whole.len() > 0,
            all == decoded_models(whole),
            forall|i: int| 0 <= i < n ==> takes_store(graph.topology, #[trigger] all[i]),
            stores@ == read_upto(all, n as nat),
            stores_hold(stores),
        decreases left@.len(),
    {
        let next = left.remove(0);
        assert(next == whole[n]);
        assert(left@ =~= whole.skip(n + 1));
        let relationship_type = next.relationship_type.as_str().to_owned();
        let property = next.property.as_str().to_owned();
        match read_one(graph, next) {
            Err(fault) => {
                let mut message = "store '".to_owned();
                message.append(relationship_type.as_str());
                message.append(".");
                message.append(property.as_str());
                message.append("' is invalid: ");
                message.append(fault.as_str());
                assert(refused_at(graph.topology, all, n, fault@));
                return Err(message);
            },
            Ok(store) => {
                let ghost before = stores;
                let _ = stores.insert(relationship_type.as_str(), property.as_str(), store);
                proof {
                    a_kept_store_is_found(before@, relationship_type@, property@, store@);
                    place_is_first(before@, relationship_type@, property@);
                    assert forall|i: int| 0 <= i < stores.entries@.len() implies (
                    #[trigger] stores.entries@[i]).store.well_formed() && column_of(
                        stores.entries@[i].name@,
                    ) is Some by {
                        assert(stores@[i].name == stores.entries@[i].name@);
                        if i < before.entries@.len() {
                            assert(before@[i].name == before.entries@[i].name@);
                        }
                        if stores.entries@[i].store != store {
                            let j = choose|j: int|
                                0 <= j < before.entries@.len()
                                    && #[trigger] before.entries@[j].store
                                    == stores.entries@[i].store;
                            assert(before.entries@[j].store.well_formed());
                        }
                    }
                }
            },
        }
        proof {
            n = n + 1;
        }
    }
    Ok(stores)
}

/// What a snapshot writes of a store, borrowed from the store.
#[derive(Debug, Clone)]
pub struct PersistedEdgeEmbeddingStoreRef<'a> {
    /// The numbers in a vector.
    pub dimension: usize,
    /// Every vector's numbers, in slot order.
    pub data: &'a Vec<u32>,
    /// The relationship of each vector.
    pub edge_slots: &'a Vec<usize>,
    /// The metric, where one is declared.
    pub metric: Option<&'a str>,
    /// The model, where one made every vector.
    pub model_id: Option<&'a str>,
    /// The hash of the text each generated vector was made from.
    pub text_hashes: &'a HashMap<usize, u64>,
}

impl<'a> View for PersistedEdgeEmbeddingStoreRef<'a> {
    type V = PersistedModel;

    open spec fn view(&self) -> PersistedModel {
        PersistedModel {
            dimension: self.dimension,
            data: self.data@,
            edge_slots: self.edge_slots@,
            metric: str_option(self.metric),
            model_id: str_option(self.model_id),
            hashes: self.text_hashes@,
        }
    }
}

/// What a snapshot keeps of a store.
pub open spec fn kept_of(store: EdgeEmbeddingStore) -> PersistedModel {
    PersistedModel {
        dimension: store.numeric.dimension,
        data: store.numeric.data@,
        edge_slots: store.numeric.slot_to_node@,
        metric: text_option(store.numeric.metric),
        model_id: text_option(store.numeric.model_id),
        hashes: store.numeric.text_hashes@,
    }
}

impl EdgeEmbeddingStore {
    /// What a snapshot writes of the store.
    pub fn persisted(&self) -> (written: PersistedEdgeEmbeddingStoreRef<'_>)
        ensures
            written@ == kept_of(*self),
    {
        PersistedEdgeEmbeddingStoreRef {
            dimension: self.numeric.dimension,
            data: &self.numeric.data,
            edge_slots: &self.numeric.slot_to_node,
            metric: self.metric(),
            model_id: self.model_id(),
            text_hashes: &self.numeric.text_hashes,
        }
    }
}

/// A store that a snapshot writes, and what it is written under.
#[derive(Debug, Clone)]
pub struct PersistedEntry<'a> {
    /// The relationship type.
    pub relationship_type: &'a str,
    /// The store's name.
    pub property: &'a str,
    /// What is written of the store.
    pub store: PersistedEdgeEmbeddingStoreRef<'a>,
}

/// Written stores, as plain values.
pub open spec fn written_models<'a>(entries: Seq<PersistedEntry<'a>>) -> Seq<DecodedModel> {
    Seq::new(
        entries.len(),
        |i: int|
            DecodedModel {
                relationship_type: entries[i].relationship_type@,
                property: entries[i].property@,
                store: entries[i].store@,
            },
    )
}

/// The keys of written stores.
pub open spec fn written_keys(models: Seq<DecodedModel>) -> Seq<(Text, Text)> {
    Seq::new(models.len(), |i: int| (models[i].relationship_type, models[i].property))
}

/// Whether stores are written: each under its key, once, and by key.
pub open spec fn writes_stores(
    catalog: Catalog<EdgeEmbeddingStore>,
    models: Seq<DecodedModel>,
) -> bool {
    &&& ascends(written_keys(models), name_order())
    &&& written_keys(models).to_set() == keys_kept(catalog@, catalog@.len() as int)
    &&& forall|i: int|
        0 <= i < models.len() ==> (#[trigger] models[i]).store == kept_of(
            catalog.entries@[entry_place(
                catalog@,
                models[i].relationship_type,
                models[i].property,
            )].store,
        )
}

/// Whether a snapshot of the graph has relationship stores to write.
pub fn has_persisted_edge_embeddings(graph: &DirGraph) -> (has: bool)
    ensures
        has == (graph.edge_embeddings@.len() > 0),
{
    !graph.edge_embeddings.is_empty()
}

/// What a snapshot of the graph writes of its relationship stores, by
/// relationship type and store name.
pub fn persisted_edge_embedding_stores(graph: &DirGraph) -> (entries: Vec<PersistedEntry<'_>>)
    ensures
        writes_stores(graph.edge_embeddings, written_models(entries@)),
{
    let catalog = &graph.edge_embeddings;
    let keys = listed_keys(catalog);
    let ghost names = pair_texts(keys@);
    let mut entries: Vec<PersistedEntry<'_>> = Vec::new();
    let mut i: usize = 0;
    while i < keys.len()
        invariant
            i <= keys@.len(),
            *catalog == graph.edge_embeddings,
            names == pair_texts(keys@),
            names.to_set() == keys_kept(catalog@, catalog@.len() as int),
            entries@.len() == i,
            forall|k: int|
                0 <= k < i ==> (#[trigger] written_models(entries@)[k]) == (DecodedModel {
                    relationship_type: names[k].0,
                    property: names[k].1,
                    store: kept_of(
                        catalog.entries@[entry_place(catalog@, names[k].0, names[k].1)].store,
                    ),
                }),
        decreases keys@.len() - i,
    {
        let ghost before = entries@;
        proof {
            assert(names.contains(names[i as int]));
            assert(names.to_set().contains(names[i as int]));
            listed_keys_are_kept(catalog@, names[i as int]);
            place_is_first(catalog@, names[i as int].0, names[i as int].1);
        }
        if let Some(place) = catalog.position(keys[i].0.as_str(), keys[i].1.as_str()) {
            let entry = &catalog.entries[place];
            assert(catalog@[place as int].owner_type == entry.owner_type@);
            assert(catalog@[place as int].name == entry.name@);
            entries.push(
                PersistedEntry {
                    relationship_type: entry.owner_type.as_str(),
                    property: entry.name.as_str(),
                    store: entry.store.persisted(),
                },
            );
            proof {
                assert forall|k: int| 0 <= k < i + 1 implies (#[trigger] written_models(
                    entries@,
                )[k]) == (DecodedModel {
                    relationship_type: names[k].0,
                    property: names[k].1,
                    store: kept_of(
                        catalog.entries@[entry_place(catalog@, names[k].0, names[k].1)].store,
                    ),
                }) by {
                    if k < i {
                        assert(written_models(before)[k] == written_models(entries@)[k]);
                    }
                }
            }
        }
        i = i + 1;
    }
    proof {
        let models = written_models(entries@);
        assert(written_keys(models) =~= names);
    }
    entries
}

} // verus!
