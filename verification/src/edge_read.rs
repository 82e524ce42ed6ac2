//! Reading the vectors of a relationship store by their endpoints.

use crate::address::RelationshipVector;
use crate::catalog::lookup;
use crate::edge_store::EdgeEmbeddingStore;
use crate::graph::DirGraph;
use crate::groups::{
    describe_group, group_keys, group_members, group_text, key_of, key_value, keys_fault,
    RelationshipKeys,
};
use crate::hints::{missing_store_error, missing_store_text, Surface};
use crate::inventory::EmbeddingEntity;
use crate::names::{store_name, store_name_of};
use crate::order::{rank_order, rank_order_is_total, sorted, Ranking};
use crate::store::{vector_of, StoreModel};
use crate::text::{
    lex_le, lex_le_antisymmetric, lex_le_total, lex_le_transitive, str_option, text_eq, text_le, Text,
};
use crate::topology::Topology;
use crate::value::{
    model_option, value_before, value_before_total, value_before_transitive, EdgeIndex, Value,
    ValueModel,
};
use vstd::prelude::*;
use vstd::relations::total_ordering;

verus! {

/// A relationship's vector, named by its endpoints.
#[derive(Debug, Clone)]
pub struct RelationshipEmbedding {
    /// The source node's type.
    pub source_type: String,
    /// The source node's id.
    pub source_id: Value,
    /// The target node's type.
    pub target_type: String,
    /// The target node's id.
    pub target_id: Value,
    /// The relationship's key value, where a key property is named and the
    /// relationship has it.
    pub key: Option<Value>,
    /// The vector.
    pub vector: Vec<u32>,
}

/// Where a relationship stands: its endpoints and its key value.
pub struct PlaceModel {
    pub source_type: Text,
    pub source_id: ValueModel,
    pub target_type: Text,
    pub target_id: ValueModel,
    pub key: Option<ValueModel>,
}

/// What a read vector says.
pub struct ReadModel {
    pub place: PlaceModel,
    pub vector: Seq<u32>,
}

impl View for RelationshipEmbedding {
    type V = ReadModel;

    open spec fn view(&self) -> ReadModel {
        ReadModel {
            place: PlaceModel {
                source_type: self.source_type@,
                source_id: self.source_id@,
                target_type: self.target_type@,
                target_id: self.target_id@,
                key: model_option(self.key),
            },
            vector: self.vector@,
        }
    }
}

/// What the read vectors say.
pub open spec fn read_models(rows: Seq<RelationshipEmbedding>) -> Seq<ReadModel> {
    Seq::new(rows.len(), |i: int| rows[i]@)
}

/// Where a relationship stands, under a key property.
pub open spec fn place_at(topology: Topology, property: Option<Text>, edge: EdgeIndex) -> PlaceModel {
    let source = topology.node(topology.record(edge).source);
    let target = topology.node(topology.record(edge).target);
    PlaceModel {
        source_type: source.node_type@,
        source_id: source.id@,
        target_type: target.node_type@,
        target_id: target.id@,
        key: match property {
            Some(p) => key_of(topology, edge, p),
            None => None,
        },
    }
}

/// Whether two values rank the same.
pub open spec fn value_level(a: ValueModel, b: ValueModel) -> bool {
    value_before(a, b) && value_before(b, a)
}

/// Whether a key value comes no later than another; no value comes first.
pub open spec fn key_before(a: Option<ValueModel>, b: Option<ValueModel>) -> bool {
    match (a, b) {
        (None, _) => true,
        (Some(_), None) => false,
        (Some(x), Some(y)) => value_before(x, y),
    }
}

/// Whether a place comes no later than another: by source type, source id,
/// target type, target id and key.
pub open spec fn place_before(a: PlaceModel, b: PlaceModel) -> bool {
    if a.source_type != b.source_type {
        lex_le(a.source_type, b.source_type)
    } else if !value_level(a.source_id, b.source_id) {
        value_before(a.source_id, b.source_id)
    } else if a.target_type != b.target_type {
        lex_le(a.target_type, b.target_type)
    } else if !value_level(a.target_id, b.target_id) {
        value_before(a.target_id, b.target_id)
    } else {
        key_before(a.key, b.key)
    }
}

/// Whether a relationship's row comes no later than another's: by place, then
/// by slot.
pub open spec fn row_before(topology: Topology, property: Option<Text>, a: usize, b: usize) -> bool {
    let x = place_at(topology, property, EdgeIndex { slot: a });
    let y = place_at(topology, property, EdgeIndex { slot: b });
    let a_lives = topology.live(EdgeIndex { slot: a });
    let b_lives = topology.live(EdgeIndex { slot: b });
    if a_lives != b_lives {
        b_lives
    } else if a_lives && !(place_before(x, y) && place_before(y, x)) {
        place_before(x, y)
    } else {
        a <= b
    }
}

/// The order of rows.
pub open spec fn row_order(topology: Topology, property: Option<Text>) -> spec_fn(
    usize,
    usize,
) -> bool {
    |a: usize, b: usize| row_before(topology, property, a, b)
}

proof fn value_trio(a: ValueModel, b: ValueModel, c: ValueModel)
    ensures
        value_before(a, b) || value_before(b, a),
        value_before(b, c) || value_before(c, b),
        value_before(a, c) || value_before(c, a),
        value_before(a, b) && value_before(b, c) ==> value_before(a, c),
        value_before(a, c) && value_before(c, b) ==> value_before(a, b),
        value_before(b, a) && value_before(a, c) ==> value_before(b, c),
        value_before(b, c) && value_before(c, a) ==> value_before(b, a),
        value_before(c, a) && value_before(a, b) ==> value_before(c, b),
        value_before(c, b) && value_before(b, a) ==> value_before(c, a),
{
    value_before_total(a, b);
    value_before_total(b, c);
    value_before_total(a, c);
    if value_before(a, b) && value_before(b, c) {
        value_before_transitive(a, b, c);
    }
    if value_before(a, c) && value_before(c, b) {
        value_before_transitive(a, c, b);
    }
    if value_before(b, a) && value_before(a, c) {
        value_before_transitive(b, a, c);
    }
    if value_before(b, c) && value_before(c, a) {
        value_before_transitive(b, c, a);
    }
    if value_before(c, a) && value_before(a, b) {
        value_before_transitive(c, a, b);
    }
    if value_before(c, b) && value_before(b, a) {
        value_before_transitive(c, b, a);
    }
}

proof fn text_trio(a: Text, b: Text, c: Text)
    ensures
        lex_le(a, b) || lex_le(b, a),
        lex_le(a, b) && lex_le(b, a) ==> a == b,
        lex_le(a, b) && lex_le(b, c) ==> lex_le(a, c),
        lex_le(a, c) && lex_le(c, a) ==> a == c,
{
    lex_le_total(a, b);
    if lex_le(a, b) && lex_le(b, a) {
        lex_le_antisymmetric(a, b);
    }
    if lex_le(a, b) && lex_le(b, c) {
        lex_le_transitive(a, b, c);
    }
    if lex_le(a, c) && lex_le(c, a) {
        lex_le_antisymmetric(a, c);
    }
}

proof fn place_before_total(a: PlaceModel, b: PlaceModel)
    ensures
        place_before(a, b) || place_before(b, a),
{
    lex_le_total(a.source_type, b.source_type);
    lex_le_total(a.target_type, b.target_type);
    value_before_total(a.source_id, b.source_id);
    value_before_total(a.target_id, b.target_id);
    if a.key is Some && b.key is Some {
        value_before_total(a.key->0, b.key->0);
    }
}

proof fn place_before_transitive(a: PlaceModel, b: PlaceModel, c: PlaceModel)
    requires
        place_before(a, b),
        place_before(b, c),
    ensures
        place_before(a, c),
{
    text_trio(a.source_type, b.source_type, c.source_type);
    text_trio(b.source_type, c.source_type, a.source_type);
    text_trio(a.target_type, b.target_type, c.target_type);
    text_trio(b.target_type, c.target_type, a.target_type);
    value_trio(a.source_id, b.source_id, c.source_id);
    value_trio(a.target_id, b.target_id, c.target_id);
    if a.key is Some && b.key is Some && c.key is Some {
        value_trio(a.key->0, b.key->0, c.key->0);
    }
}

/// Rows by where their relationships stand.
struct ByPlace<'a> {
    graph: &'a DirGraph,
    property: Option<&'a str>,
}

fn level(a: &Value, b: &Value) -> (result: bool)
    ensures
        result == value_level(a@, b@),
{
    a.precedes(b) && b.precedes(a)
}

fn key_le(a: Option<&Value>, b: Option<&Value>) -> (le: bool)
    ensures
        le == key_before(
            match a {
                Some(x) => Some(x@),
                None => None,
            },
            match b {
                Some(y) => Some(y@),
                None => None,
            },
        ),
{
    match (a, b) {
        (None, _) => true,
        (Some(_), None) => false,
        (Some(x), Some(y)) => x.precedes(y),
    }
}

impl<'a> ByPlace<'a> {
    fn place_le(&self, a: EdgeIndex, b: EdgeIndex) -> (le: bool)
        requires
            self.graph.well_formed(),
            self.graph.topology.live(a),
            self.graph.topology.live(b),
        ensures
            le == place_before(
                place_at(self.graph.topology, str_option(self.property), a),
                place_at(self.graph.topology, str_option(self.property), b),
            ),
    {
        let topology = &self.graph.topology;
        assert(topology.edges@[a.slot as int] is Some);
        assert(topology.edges@[b.slot as int] is Some);
        let (a_from, a_to) = topology.edge_endpoints(a).unwrap();
        let (b_from, b_to) = topology.edge_endpoints(b).unwrap();
        let a_source = topology.node_view(a_from).unwrap();
        let b_source = topology.node_view(b_from).unwrap();
        if !text_eq(a_source.node_type.as_str(), b_source.node_type.as_str()) {
            return text_le(a_source.node_type.as_str(), b_source.node_type.as_str());
        }
        if !level(&a_source.id, &b_source.id) {
            return a_source.id.precedes(&b_source.id);
        }
        let a_target = topology.node_view(a_to).unwrap();
        let b_target = topology.node_view(b_to).unwrap();
        if !text_eq(a_target.node_type.as_str(), b_target.node_type.as_str()) {
            return text_le(a_target.node_type.as_str(), b_target.node_type.as_str());
        }
        if !level(&a_target.id, &b_target.id) {
            return a_target.id.precedes(&b_target.id);
        }
        match self.property {
            Some(property) => key_le(
                key_value(self.graph, a, property),
                key_value(self.graph, b, property),
            ),
            None => true,
        }
    }
}

impl<'a> Ranking<usize> for ByPlace<'a> {
    closed spec fn valid(self) -> bool {
        self.graph.well_formed()
    }

    closed spec fn before(self, a: usize, b: usize) -> bool {
        row_before(self.graph.topology, str_option(self.property), a, b)
    }

    proof fn total(self, a: usize, b: usize) {
        let property = str_option(self.property);
        place_before_total(
            place_at(self.graph.topology, property, EdgeIndex { slot: a }),
            place_at(self.graph.topology, property, EdgeIndex { slot: b }),
        );
    }

    proof fn transitive(self, a: usize, b: usize, c: usize) {
        let property = str_option(self.property);
        let topology = self.graph.topology;
        let x = place_at(topology, property, EdgeIndex { slot: a });
        let y = place_at(topology, property, EdgeIndex { slot: b });
        let z = place_at(topology, property, EdgeIndex { slot: c });
        place_before_total(x, y);
        place_before_total(y, z);
        place_before_total(x, z);
        if place_before(x, y) && place_before(y, z) {
            place_before_transitive(x, y, z);
        }
        if place_before(z, x) && place_before(x, y) {
            place_before_transitive(z, x, y);
        }
        if place_before(y, z) && place_before(z, x) {
            place_before_transitive(y, z, x);
        }
    }

    proof fn antisymmetric(self, a: usize, b: usize) {
    }

    fn precedes(&self, a: usize, b: usize) -> (result: bool) {
        let left = EdgeIndex::new(a);
        let right = EdgeIndex::new(b);
        let a_lives = self.graph.topology.edge_weight(left).is_some();
        let b_lives = self.graph.topology.edge_weight(right).is_some();
        if a_lives != b_lives {
            return b_lives;
        }
        if a_lives {
            let forth = self.place_le(left, right);
            let back = self.place_le(right, left);
            if !(forth && back) {
                return forth;
            }
        }
        a <= b
    }
}

/// Rows are in a total order.
pub(crate) proof fn row_order_is_total(graph: DirGraph, property: Option<&str>)
    ensures
        total_ordering(row_order(graph.topology, str_option(property))),
{
    let ranking = ByPlace { graph: &graph, property };
    rank_order_is_total(ranking);
    assert(rank_order(ranking) =~= row_order(graph.topology, str_option(property)));
}

/// The first `count` owners that are live.
pub open spec fn live_owners(topology: Topology, nodes: Seq<usize>, count: nat) -> Seq<usize>
    decreases count,
{
    if count == 0 {
        Seq::empty()
    } else {
        let before = live_owners(topology, nodes, (count - 1) as nat);
        if topology.live(EdgeIndex { slot: nodes[count - 1] }) {
            before.push(nodes[count - 1])
        } else {
            before
        }
    }
}

/// The refusal of a key that does not tell a group apart.
pub open spec fn unkeyed_text(label: Text, group: Text, reason: Text) -> Text {
    "Relationship embedding store '"@ + label + "': "@ + group + ", and "@ + reason
        + "; the key named in relationship_keys must be unique within each group"@
}

/// The label of a store.
pub open spec fn label_text(relationship_type: Text, text_column: Text) -> Text {
    relationship_type + "."@ + text_column
}

/// The first owner, from `position`, whose parallel group the key does not tell
/// apart.
pub open spec fn read_fault(
    topology: Topology,
    relationship_type: Text,
    text_column: Text,
    property: Option<Text>,
    nodes: Seq<usize>,
    position: int,
) -> Option<Text>
    decreases nodes.len() - position,
{
    if position < 0 || position >= nodes.len() || property is None {
        None
    } else {
        let edge = EdgeIndex { slot: nodes[position] };
        let record = topology.record(edge);
        let members = crate::topology::group_edges(
            topology.edges@,
            record.source,
            record.target,
            relationship_type,
        );
        if topology.live(edge) && members.len() > 1 && keys_fault(
            topology,
            members,
            property->0,
            0,
        ) is Some {
            Some(
                unkeyed_text(
                    label_text(relationship_type, text_column),
                    group_text(
                        topology,
                        relationship_type,
                        record.source,
                        record.target,
                        members.len(),
                    ),
                    keys_fault(topology, members, property->0, 0)->0,
                ),
            )
        } else {
            read_fault(
                topology,
                relationship_type,
                text_column,
                property,
                nodes,
                position + 1,
            )
        }
    }
}

/// The rows of a store: where each relationship stands and its vector, by place
/// and then by slot.
pub open spec fn store_rows(topology: Topology, property: Option<Text>, store: StoreModel) -> Seq<
    ReadModel,
> {
    let order = live_owners(topology, store.nodes, store.nodes.len()).sort_by(
        row_order(topology, property),
    );
    Seq::new(
        order.len(),
        |i: int|
            ReadModel {
                place: place_at(topology, property, EdgeIndex { slot: order[i] }),
                vector: vector_of(store, order[i])->0,
            },
    )
}

/// Why a read is refused.
pub open spec fn relationship_read_fault(
    graph: DirGraph,
    relationship_type: Text,
    text_column: Text,
    property: Option<Text>,
) -> Option<Text> {
    match lookup(graph.edge_embeddings@, relationship_type, store_name_of(text_column)) {
        None => Some(
            missing_store_text(
                graph,
                EmbeddingEntity::Relationship,
                relationship_type,
                text_column,
                Surface::Method,
            ),
        ),
        Some(store) => read_fault(
            graph.topology,
            relationship_type,
            text_column,
            property,
            store.nodes,
            0,
        ),
    }
}

pub(crate) fn copy_numbers(vector: &[u32]) -> (copy: Vec<u32>)
    ensures
        copy@ == vector@,
{
    let mut copy: Vec<u32> = Vec::new();
    let mut i: usize = 0;
    while i < vector.len()
        invariant
            i <= vector@.len(),
            copy@ == vector@.take(i as int),
        decreases vector@.len() - i,
    {
        copy.push(vector[i]);
        assert(vector@.take(i + 1) =~= vector@.take(i as int).push(vector@[i as int]));
        i = i + 1;
    }
    assert(vector@.take(i as int) =~= vector@);
    copy
}

/// A relationship's row.
pub(crate) fn read_row(
    graph: &DirGraph,
    store: &EdgeEmbeddingStore,
    property: Option<&str>,
    edge: EdgeIndex,
) -> (row: RelationshipEmbedding)
    requires
        graph.well_formed(),
        store.well_formed(),
        graph.topology.live(edge),
        vector_of(store@, edge.slot) is Some,
    ensures
        row@ == (ReadModel {
            place: place_at(graph.topology, str_option(property), edge),
            vector: vector_of(store@, edge.slot)->0,
        }),
{
    assert(graph.topology.edges@[edge.slot as int] is Some);
    let (source, target) = graph.topology.edge_endpoints(edge).unwrap();
    let from = graph.topology.node_view(source).unwrap();
    let to = graph.topology.node_view(target).unwrap();
    let key: Option<Value> = match property {
        Some(p) => match key_value(graph, edge, p) {
            Some(value) => Some(value.copy()),
            None => None,
        },
        None => None,
    };
    let vector = store.get(edge).unwrap();
    RelationshipEmbedding {
        source_type: from.node_type.as_str().to_owned(),
        source_id: from.id.copy(),
        target_type: to.node_type.as_str().to_owned(),
        target_id: to.id.copy(),
        key,
        vector: copy_numbers(vector),
    }
}

proof fn owners_are_held(topology: Topology, store: StoreModel, count: nat)
    requires
        count <= store.nodes.len(),
    ensures
        forall|s: usize|
            #[trigger] live_owners(topology, store.nodes, count).contains(s) ==> topology.live(
                EdgeIndex { slot: s },
            ) && store.nodes.contains(s),
    decreases count,
{
    if count > 0 {
        owners_are_held(topology, store, (count - 1) as nat);
        let before = live_owners(topology, store.nodes, (count - 1) as nat);
        let all = live_owners(topology, store.nodes, count);
        assert forall|s: usize| #[trigger] all.contains(s) implies topology.live(
            EdgeIndex { slot: s },
        ) && store.nodes.contains(s) by {
            let k = all.index_of(s);
            if k < before.len() {
                assert(before[k] == s);
                assert(before.contains(s));
            } else {
                assert(store.nodes[count - 1] == s);
            }
        }
    }
}

/// Every vector of a relationship store, named by its endpoints: ordered by
/// source, target and key, and then by slot. A key property that is named must
/// tell every parallel group apart.
pub fn relationship_embeddings(
    graph: &DirGraph,
    relationship_type: &str,
    text_column: &str,
    keys: &RelationshipKeys,
) -> (result: Result<Vec<RelationshipEmbedding>, String>)
    requires
        graph.well_formed(),
    ensures
        match result {
            Ok(rows) => {
                &&& relationship_read_fault(
                    *graph,
                    relationship_type@,
                    text_column@,
                    keys.property_of(relationship_type@),
                ) is None
                &&& read_models(rows@) == store_rows(
                    graph.topology,
                    keys.property_of(relationship_type@),
                    lookup(
                        graph.edge_embeddings@,
                        relationship_type@,
                        store_name_of(text_column@),
                    )->0,
                )
            },
            Err(message) => relationship_read_fault(
                *graph,
                relationship_type@,
                text_column@,
                keys.property_of(relationship_type@),
            ) == Some(message@),
        },
{
    let name = store_name(text_column);
    let store = match graph.edge_embeddings.get(relationship_type, name.as_str()) {
        Some(store) => store,
        None => {
            return Err(
                missing_store_error(
                    graph,
                    EmbeddingEntity::Relationship,
                    relationship_type,
                    text_column,
                    Surface::Method,
                ),
            );
        },
    };
    let property = keys.get(relationship_type);
    let ghost key = keys.property_of(relationship_type@);
    let ghost topology = graph.topology;
    let edges = store.edges();
    let mut owners: Vec<usize> = Vec::new();
    let mut i: usize = 0;
    while i < edges.len()
        invariant
            i <= edges@.len(),
            graph.well_formed(),
            store.well_formed(),
            topology == graph.topology,
            str_option(property) == key,
            key == keys.property_of(relationship_type@),
            lookup(graph.edge_embeddings@, relationship_type@, store_name_of(text_column@))
                == Some(store@),
            edges@.len() == store@.nodes.len(),
            forall|k: int|
                0 <= k < edges@.len() ==> (#[trigger] edges@[k]).slot == store@.nodes[k],
            owners@ == live_owners(topology, store@.nodes, i as nat),
            read_fault(topology, relationship_type@, text_column@, key, store@.nodes, 0)
                == read_fault(
                topology,
                relationship_type@,
                text_column@,
                key,
                store@.nodes,
                i as int,
            ),
        decreases edges@.len() - i,
    {
        let edge = edges[i];
        assert(edge == EdgeIndex { slot: store@.nodes[i as int] });
        if let Some((source, target)) = graph.topology.edge_endpoints(edge) {
            if let Some(p) = property {
                let members = group_members(graph, source, target, relationship_type);
                if members.len() > 1 {
                    match group_keys(graph, &members, p) {
                        Ok(_) => {},
                        Err(reason) => {
                            let group = describe_group(
                                graph,
                                relationship_type,
                                source,
                                target,
                                members.len(),
                            );
                            let mut label = relationship_type.to_owned();
                            label.append(".");
                            label.append(text_column);
                            let mut message = "Relationship embedding store '".to_owned();
                            message.append(label.as_str());
                            message.append("': ");
                            message.append(group.as_str());
                            message.append(", and ");
                            message.append(reason.as_str());
                            message.append(
                                "; the key named in relationship_keys must be unique within each group",
                            );
                            return Err(message);
                        },
                    }
                }
            }
            owners.push(edge.slot);
        }
        i = i + 1;
    }
    let ranking = ByPlace { graph, property };
    let order = sorted(&ranking, &owners);
    let ghost expected = store_rows(topology, key, store@);
    proof {
        assert(rank_order(ranking) =~= row_order(topology, key));
        crate::order::rank_order_is_total(ranking);
        owners@.lemma_sort_by_ensures(row_order(topology, key));
        owners_are_held(topology, store@, store@.nodes.len());
    }
    let mut rows: Vec<RelationshipEmbedding> = Vec::new();
    let mut n: usize = 0;
    while n < order.len()
        invariant
            n <= order@.len(),
            graph.well_formed(),
            store.well_formed(),
            topology == graph.topology,
            str_option(property) == key,
            order@ == owners@.sort_by(row_order(topology, key)),
            owners@ == live_owners(topology, store@.nodes, store@.nodes.len()),
            forall|s: usize| !owners@.contains(s) ==> !(#[trigger] order@.contains(s)),
            forall|s: usize|
                #[trigger] owners@.contains(s) ==> topology.live(EdgeIndex { slot: s })
                    && store@.nodes.contains(s),
            expected == store_rows(topology, key, store@),
            rows@.len() == n,
            forall|k: int| 0 <= k < n ==> (#[trigger] rows@[k])@ == expected[k],
        decreases order@.len() - n,
    {
        assert(order@.contains(order@[n as int]));
        assert(owners@.contains(order@[n as int]));
        let row = read_row(graph, store, property, EdgeIndex::new(order[n]));
        assert(row@ == expected[n as int]);
        rows.push(row);
        n = n + 1;
    }
    assert(read_models(rows@) =~= expected);
    Ok(rows)
}

impl From<RelationshipEmbedding> for RelationshipVector {
    /// A read vector as a row that writes it back.
    fn from(row: RelationshipEmbedding) -> (vector: RelationshipVector) {
        RelationshipVector {
            source_type: Some(row.source_type),
            source_id: row.source_id,
            target_type: Some(row.target_type),
            target_id: row.target_id,
            key: row.key,
            vector: row.vector,
        }
    }
}

impl vstd::std_specs::convert::FromSpecImpl<RelationshipEmbedding> for RelationshipVector {
    open spec fn obeys_from_spec() -> bool {
        true
    }

    open spec fn from_spec(row: RelationshipEmbedding) -> RelationshipVector {
        RelationshipVector {
            source_type: Some(row.source_type),
            source_id: row.source_id,
            target_type: Some(row.target_type),
            target_id: row.target_id,
            key: row.key,
            vector: row.vector,
        }
    }
}

} // verus!
