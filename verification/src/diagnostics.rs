//! Which text columns are embedded, which could be, and which stores cover
//! nothing.

use crate::catalog::{lookup, Catalog, EntryModel};
use crate::graph::{members_at_place, members_of, members_or_none, type_place, type_registered, DirGraph};
use crate::inventory::{effective_metric, EmbeddingEntity};
use crate::metric::metric_or_cosine;
use crate::name_pairs::{
    insert_names, listed_pairs_are_kept, name_order, name_order_is_order, pair_texts, pairs_kept,
    NamePair,
};
use crate::names::{column_or_name, listed_column, store_name, store_name_of};
use crate::order::{ascending, ascending_lists_the_set, ascending_of_items, ascends};
use crate::store::{EmbeddingStore, StoreModel};
use crate::text::{str_option, text_eq, text_option, Text};
use crate::topology::{get_property, property_in, EdgeRecord, Property, Topology};
use crate::value::{NodeIndex, Value, ValueModel};
use vstd::hash_set::StringHashSet;
use vstd::prelude::*;
use vstd::utf8::encode_utf8;

verus! {

/// How a type and a text column are covered.
#[derive(Debug, Clone, Copy, PartialEq, Eq, Structural)]
pub enum EmbeddingCoverage {
    /// There is a store, and an element carries the column.
    Embedded,
    /// An element carries the column as a text, and there is no store.
    Embeddable,
    /// There is a store, and no element carries the column.
    StoreOrphan,
}

impl EmbeddingCoverage {
    /// The coverage's name.
    pub fn as_str(self) -> (name: &'static str)
        ensures
            name@ == match self {
                EmbeddingCoverage::Embedded => "embedded"@,
                EmbeddingCoverage::Embeddable => "embeddable"@,
                EmbeddingCoverage::StoreOrphan => "store_orphan"@,
            },
    {
        match self {
            EmbeddingCoverage::Embedded => "embedded",
            EmbeddingCoverage::Embeddable => "embeddable",
            EmbeddingCoverage::StoreOrphan => "store_orphan",
        }
    }
}

/// How long a column's texts are, in bytes. The mean length and the share of
/// distinct texts are these over the elements that carry the column.
#[derive(Debug, Clone, Copy, PartialEq, Eq)]
pub struct LengthStats {
    /// The bytes of all texts.
    pub total_length: u128,
    /// The bytes of the longest text.
    pub max_length: usize,
    /// The distinct texts.
    pub distinct_count: usize,
}

/// The coverage of a type and a text column.
#[derive(Debug, Clone, PartialEq, Eq)]
pub struct EmbeddingDiagnostic {
    /// What is covered.
    pub entity: EmbeddingEntity,
    /// The node or relationship type.
    pub owner_type: String,
    /// The text column.
    pub text_column: String,
    /// The store's name.
    pub embedding_key: String,
    /// The elements of the type that carry the column as a text.
    pub with_property: usize,
    /// The vectors in the store.
    pub embedded: usize,
    /// How the column is covered.
    pub status: EmbeddingCoverage,
    /// The numbers in a vector of the store.
    pub dimension: Option<usize>,
    /// The metric the store is scored under.
    pub metric: Option<String>,
    /// How long the texts are.
    pub length_stats: LengthStats,
}

/// What a diagnostic says.
pub struct DiagnosticModel {
    pub entity: EmbeddingEntity,
    pub owner_type: Text,
    pub text_column: Text,
    pub embedding_key: Text,
    pub with_property: nat,
    pub embedded: nat,
    pub status: EmbeddingCoverage,
    pub dimension: Option<usize>,
    pub metric: Option<Text>,
    pub total_length: nat,
    pub max_length: nat,
    pub distinct_count: nat,
}

impl View for EmbeddingDiagnostic {
    type V = DiagnosticModel;

    open spec fn view(&self) -> DiagnosticModel {
        DiagnosticModel {
            entity: self.entity,
            owner_type: self.owner_type@,
            text_column: self.text_column@,
            embedding_key: self.embedding_key@,
            with_property: self.with_property as nat,
            embedded: self.embedded as nat,
            status: self.status,
            dimension: self.dimension,
            metric: text_option(self.metric),
            total_length: self.length_stats.total_length as nat,
            max_length: self.length_stats.max_length as nat,
            distinct_count: self.length_stats.distinct_count as nat,
        }
    }
}

/// The text that properties hold under a name.
pub open spec fn text_in(properties: Seq<Property>, name: Text) -> Option<Text> {
    match property_in(properties, name) {
        Some(ValueModel::String(text)) => Some(text),
        _ => None,
    }
}

/// The texts of a column on the first `count` nodes, as they come.
pub open spec fn node_texts(
    topology: Topology,
    members: Seq<NodeIndex>,
    column: Text,
    count: nat,
) -> Seq<Text>
    decreases count,
{
    if count == 0 {
        Seq::empty()
    } else {
        let before = node_texts(topology, members, column, (count - 1) as nat);
        let node = members[count - 1];
        if topology.node_lives(node) && text_in(topology.node(node).properties@, column) is Some {
            before.push(text_in(topology.node(node).properties@, column)->0)
        } else {
            before
        }
    }
}

/// The texts of a column on the first `count` relationship slots, as they come.
pub open spec fn edge_texts(
    edges: Seq<Option<EdgeRecord>>,
    connection_type: Text,
    column: Text,
    count: nat,
) -> Seq<Text>
    decreases count,
{
    if count == 0 {
        Seq::empty()
    } else {
        let before = edge_texts(edges, connection_type, column, (count - 1) as nat);
        match edges[count - 1] {
            Some(record) => if record.data.connection_type@ == connection_type && text_in(
                record.data.properties@,
                column,
            ) is Some {
                before.push(text_in(record.data.properties@, column)->0)
            } else {
                before
            },
            None => before,
        }
    }
}

/// The texts of a column on the nodes of a type.
pub open spec fn texts_of_nodes(graph: DirGraph, owner_type: Text, column: Text) -> Seq<Text> {
    let members = members_or_none(graph.node_types@, owner_type);
    node_texts(graph.topology, members, column, members.len())
}

/// The texts of a column on the relationships of a type.
pub open spec fn texts_of_edges(graph: DirGraph, owner_type: Text, column: Text) -> Seq<Text> {
    edge_texts(graph.topology.edges@, owner_type, column, graph.topology.edges@.len())
}

/// The bytes of a text.
pub open spec fn bytes_in(text: Text) -> nat {
    encode_utf8(text).len()
}

/// The bytes of all texts.
pub open spec fn total_bytes(values: Seq<Text>) -> nat
    decreases values.len(),
{
    if values.len() == 0 {
        0
    } else {
        total_bytes(values.drop_last()) + bytes_in(values.last())
    }
}

/// The bytes of the longest text.
pub open spec fn most_bytes(values: Seq<Text>) -> nat
    decreases values.len(),
{
    if values.len() == 0 {
        0
    } else if bytes_in(values.last()) > most_bytes(values.drop_last()) {
        bytes_in(values.last())
    } else {
        most_bytes(values.drop_last())
    }
}

/// Whether a type is asked about.
pub open spec fn asked(only: Option<Text>, owner_type: Text) -> bool {
    only is None || only->0 == owner_type
}

/// The coverage of a type and a column: what the texts and the store give.
pub open spec fn coverage_row(
    entity: EmbeddingEntity,
    owner_type: Text,
    column: Text,
    values: Seq<Text>,
    carriers: nat,
    store: Option<StoreModel>,
) -> DiagnosticModel {
    DiagnosticModel {
        entity,
        owner_type,
        text_column: column,
        embedding_key: store_name_of(column),
        with_property: carriers,
        embedded: match store {
            Some(s) => s.nodes.len(),
            None => 0,
        },
        status: if store is None {
            EmbeddingCoverage::Embeddable
        } else if carriers == 0 {
            EmbeddingCoverage::StoreOrphan
        } else {
            EmbeddingCoverage::Embedded
        },
        dimension: match store {
            Some(s) => Some(s.dimension),
            None => None,
        },
        metric: match store {
            Some(s) => Some(metric_or_cosine(s.metric)),
            None => None,
        },
        total_length: total_bytes(values),
        max_length: most_bytes(values),
        distinct_count: values.to_set().len(),
    }
}

/// Whether every node has the column though no property carries it.
pub open spec fn builtin(column: Text) -> bool {
    column == "id"@ || column == "title"@ || column == "type"@
}

/// The coverage of a node type and a column.
pub open spec fn node_row(graph: DirGraph, owner_type: Text, column: Text) -> DiagnosticModel {
    let values = texts_of_nodes(graph, owner_type, column);
    let store = lookup(graph.embeddings@, owner_type, store_name_of(column));
    coverage_row(
        EmbeddingEntity::Node,
        owner_type,
        column,
        values,
        if store is Some && values.len() == 0 && builtin(column) {
            members_or_none(graph.node_types@, owner_type).len()
        } else {
            values.len()
        },
        store,
    )
}

/// The coverage of a relationship type and a column.
pub open spec fn edge_row(graph: DirGraph, owner_type: Text, column: Text) -> DiagnosticModel {
    let values = texts_of_edges(graph, owner_type, column);
    coverage_row(
        EmbeddingEntity::Relationship,
        owner_type,
        column,
        values,
        values.len(),
        lookup(graph.edge_embeddings@, owner_type, store_name_of(column)),
    )
}

/// The node types and columns that carry a signal: a text, or a store.
pub open spec fn node_signals(graph: DirGraph, only: Option<Text>) -> Set<(Text, Text)> {
    Set::new(
        |p: (Text, Text)|
            asked(only, p.0) && (texts_of_nodes(graph, p.0, p.1).len() > 0 || lookup(
                graph.embeddings@,
                p.0,
                store_name_of(p.1),
            ) is Some),
    )
}

/// The relationship types and columns that carry a signal.
pub open spec fn edge_signals(graph: DirGraph, only: Option<Text>) -> Set<(Text, Text)> {
    Set::new(
        |p: (Text, Text)|
            asked(only, p.0) && (texts_of_edges(graph, p.0, p.1).len() > 0 || lookup(
                graph.edge_embeddings@,
                p.0,
                store_name_of(p.1),
            ) is Some),
    )
}

/// The node rows, by type and then by column.
pub open spec fn node_rows(graph: DirGraph, only: Option<Text>) -> Seq<DiagnosticModel> {
    let pairs = ascending(node_signals(graph, only), name_order());
    Seq::new(pairs.len(), |i: int| node_row(graph, pairs[i].0, pairs[i].1))
}

/// The relationship rows, by type and then by column.
pub open spec fn edge_rows(graph: DirGraph, only: Option<Text>) -> Seq<DiagnosticModel> {
    let pairs = ascending(edge_signals(graph, only), name_order());
    Seq::new(pairs.len(), |i: int| edge_row(graph, pairs[i].0, pairs[i].1))
}

/// What the rows say.
pub open spec fn diagnostics(rows: Seq<EmbeddingDiagnostic>) -> Seq<DiagnosticModel> {
    Seq::new(rows.len(), |i: int| rows[i]@)
}

/// The columns that properties hold as texts.
pub open spec fn text_columns(owner_type: Text, properties: Seq<Property>) -> Set<(Text, Text)> {
    Set::new(|p: (Text, Text)| p.0 == owner_type && text_in(properties, p.1) is Some)
}

proof fn a_carried_property_is_listed(properties: Seq<Property>, name: Text)
    requires
        property_in(properties, name) is Some,
    ensures
        exists|j: int| 0 <= j < properties.len() && (#[trigger] properties[j]).name@ == name,
    decreases properties.len(),
{
    if properties[0].name@ == name {
        assert(properties[0].name@ == name);
    } else {
        a_carried_property_is_listed(properties.drop_first(), name);
        let j = choose|j: int|
            0 <= j < properties.drop_first().len() && (#[trigger] properties.drop_first()[j]).name@
                == name;
        assert(properties[j + 1].name@ == name);
    }
}

fn text_property<'a>(properties: &'a Vec<Property>, name: &str) -> (text: Option<&'a str>)
    ensures
        str_option(text) == text_in(properties@, name@),
{
    match get_property(properties, name) {
        Some(Value::String(text)) => Some(text.as_str()),
        _ => None,
    }
}

fn insert_text_columns(pairs: &mut Vec<NamePair>, owner_type: &str, properties: &Vec<Property>)
    requires
        ascends(pair_texts(old(pairs)@), name_order()),
    ensures
        ascends(pair_texts(final(pairs)@), name_order()),
        pair_texts(final(pairs)@).to_set() == pair_texts(old(pairs)@).to_set().union(
            text_columns(owner_type@, properties@),
        ),
{
    let ghost before = pair_texts(pairs@).to_set();
    let mut j: usize = 0;
    while j < properties.len()
        invariant
            j <= properties@.len(),
            ascends(pair_texts(pairs@), name_order()),
            before.subset_of(pair_texts(pairs@).to_set()),
            pair_texts(pairs@).to_set().subset_of(
                before.union(text_columns(owner_type@, properties@)),
            ),
            forall|k: int|
                0 <= k < j && text_in(properties@, (#[trigger] properties@[k]).name@) is Some
                    ==> pair_texts(pairs@).to_set().contains((owner_type@, properties@[k].name@)),
        decreases properties@.len() - j,
    {
        if text_property(properties, properties[j].name.as_str()).is_some() {
            insert_names(pairs, owner_type, properties[j].name.as_str());
        }
        j = j + 1;
    }
    proof {
        let after = pair_texts(pairs@).to_set();
        assert(after =~= before.union(text_columns(owner_type@, properties@))) by {
            assert forall|p: (Text, Text)|
                before.union(text_columns(owner_type@, properties@)).contains(
                    p,
                ) implies after.contains(p) by {
                if text_columns(owner_type@, properties@).contains(p) {
                    a_carried_property_is_listed(properties@, p.1);
                    let k = choose|k: int|
                        0 <= k < properties@.len() && (#[trigger] properties@[k]).name@ == p.1;
                    assert(after.contains((owner_type@, properties@[k].name@)));
                }
            }
        }
    }
}

/// The columns that the first `count` nodes hold as texts.
pub open spec fn member_columns(
    topology: Topology,
    owner_type: Text,
    members: Seq<NodeIndex>,
    count: nat,
) -> Set<(Text, Text)> {
    Set::new(
        |p: (Text, Text)| p.0 == owner_type && node_texts(topology, members, p.1, count).len() > 0,
    )
}

fn insert_member_columns(
    pairs: &mut Vec<NamePair>,
    topology: &Topology,
    owner_type: &str,
    members: &Vec<NodeIndex>,
)
    requires
        ascends(pair_texts(old(pairs)@), name_order()),
    ensures
        ascends(pair_texts(final(pairs)@), name_order()),
        pair_texts(final(pairs)@).to_set() == pair_texts(old(pairs)@).to_set().union(
            member_columns(*topology, owner_type@, members@, members@.len()),
        ),
{
    let ghost before = pair_texts(pairs@).to_set();
    assert(before =~= before.union(member_columns(*topology, owner_type@, members@, 0)));
    let mut i: usize = 0;
    while i < members.len()
        invariant
            i <= members@.len(),
            ascends(pair_texts(pairs@), name_order()),
            pair_texts(pairs@).to_set() == before.union(
                member_columns(*topology, owner_type@, members@, i as nat),
            ),
        decreases members@.len() - i,
    {
        let ghost so_far = pair_texts(pairs@).to_set();
        match topology.node_view(members[i]) {
            Some(node) => {
                insert_text_columns(pairs, owner_type, &node.properties);
            },
            None => {},
        }
        proof {
            let after = pair_texts(pairs@).to_set();
            assert(after =~= before.union(
                member_columns(*topology, owner_type@, members@, (i + 1) as nat),
            ));
        }
        i = i + 1;
    }
}

fn insert_stores<S: View>(pairs: &mut Vec<NamePair>, catalog: &Catalog<S>, only: Option<&str>)
    requires
        ascends(pair_texts(old(pairs)@), name_order()),
    ensures
        ascends(pair_texts(final(pairs)@), name_order()),
        forall|p: (Text, Text)|
            #[trigger] pair_texts(final(pairs)@).to_set().contains(p) <==> (pair_texts(
                old(pairs)@,
            ).to_set().contains(p) || (asked(str_option(only), p.0) && pairs_kept(
                catalog@,
                catalog@.len() as int,
            ).contains(p))),
{
    let ghost before = pair_texts(pairs@).to_set();
    let mut i: usize = 0;
    while i < catalog.entries.len()
        invariant
            i <= catalog.entries@.len(),
            ascends(pair_texts(pairs@), name_order()),
            before == pair_texts(old(pairs)@).to_set(),
            forall|p: (Text, Text)|
                #[trigger] pair_texts(pairs@).to_set().contains(p) <==> (before.contains(p) || (
                asked(str_option(only), p.0) && pairs_kept(catalog@, i as int).contains(p))),
        decreases catalog.entries@.len() - i,
    {
        let ghost so_far = pair_texts(pairs@).to_set();
        let wanted = match only {
            Some(t) => text_eq(t, catalog.entries[i].owner_type.as_str()),
            None => true,
        };
        if wanted {
            let column = column_or_name(catalog.entries[i].name.as_str());
            insert_names(pairs, catalog.entries[i].owner_type.as_str(), column.as_str());
        }
        proof {
            let entry = catalog@[i as int];
            let pair = (entry.owner_type, listed_column(entry.name));
            assert forall|p: (Text, Text)|
                #[trigger] pair_texts(pairs@).to_set().contains(p) <==> (before.contains(p) || (
                asked(str_option(only), p.0) && pairs_kept(catalog@, i + 1).contains(p))) by {
                assert(pairs_kept(catalog@, i + 1).contains(p) <==> (p == pair || pairs_kept(
                    catalog@,
                    i as int,
                ).contains(p))) by {
                    if p == pair {
                        assert(catalog@[i as int].owner_type == p.0);
                    }
                }
                assert(so_far.contains(p) <==> (before.contains(p) || (asked(
                    str_option(only),
                    p.0,
                ) && pairs_kept(catalog@, i as int).contains(p))));
            }
        }
        i = i + 1;
    }
}

fn node_candidates(graph: &DirGraph, only: Option<&str>) -> (pairs: Vec<NamePair>)
    requires
        graph.well_formed(),
    ensures
        ascends(pair_texts(pairs@), name_order()),
        pair_texts(pairs@).to_set() == node_signals(*graph, str_option(only)),
{
    let ghost types = graph.node_types@;
    let mut pairs: Vec<NamePair> = Vec::new();
    let mut i: usize = 0;
    while i < graph.node_types.len()
        invariant
            i <= graph.node_types@.len(),
            types == graph.node_types@,
            ascends(pair_texts(pairs@), name_order()),
            forall|p: (Text, Text)|
                #[trigger] pair_texts(pairs@).to_set().contains(p) <==> (asked(
                    str_option(only),
                    p.0,
                ) && texts_of_nodes(*graph, p.0, p.1).len() > 0 && exists|k: int|
                    0 <= k < i && (#[trigger] types[k]).name@ == p.0),
        decreases graph.node_types@.len() - i,
    {
        let ghost so_far = pair_texts(pairs@).to_set();
        let name = graph.node_types[i].name.as_str();
        let wanted = match only {
            Some(t) => text_eq(t, name),
            None => true,
        };
        if wanted {
            match graph.type_members(name) {
                Some(members) => {
                    insert_member_columns(&mut pairs, &graph.topology, name, members);
                },
                None => {},
            }
        }
        proof {
            assert forall|p: (Text, Text)|
                #[trigger] pair_texts(pairs@).to_set().contains(p) <==> (asked(
                    str_option(only),
                    p.0,
                ) && texts_of_nodes(*graph, p.0, p.1).len() > 0 && exists|k: int|
                    0 <= k < i + 1 && (#[trigger] types[k]).name@ == p.0) by {
                assert(so_far.contains(p) <==> (asked(str_option(only), p.0) && texts_of_nodes(
                    *graph,
                    p.0,
                    p.1,
                ).len() > 0 && exists|k: int| 0 <= k < i && (#[trigger] types[k]).name@ == p.0));
                if types[i as int].name@ == p.0 {
                    assert(name@ == p.0);
                }
            }
        }
        i = i + 1;
    }
    let ghost scanned = pair_texts(pairs@).to_set();
    insert_stores(&mut pairs, &graph.embeddings, only);
    proof {
        let after = pair_texts(pairs@).to_set();
        assert(after =~= node_signals(*graph, str_option(only))) by {
            assert forall|p: (Text, Text)|
                after.contains(p) <==> node_signals(*graph, str_option(only)).contains(p) by {
                listed_pairs_are_kept(graph.embeddings@, p);
                members_at_place(types, p.0);
                assert(after.contains(p) <==> (scanned.contains(p) || (asked(
                    str_option(only),
                    p.0,
                ) && pairs_kept(graph.embeddings@, graph.embeddings@.len() as int).contains(p))));
                if texts_of_nodes(*graph, p.0, p.1).len() > 0 {
                    let place = type_place(types, p.0);
                    assert(place < types.len());
                    assert(types[place].name@ == p.0);
                }
            }
        }
    }
    pairs
}

fn edge_candidates(graph: &DirGraph, only: Option<&str>) -> (pairs: Vec<NamePair>)
    requires
        graph.well_formed(),
    ensures
        ascends(pair_texts(pairs@), name_order()),
        pair_texts(pairs@).to_set() == edge_signals(*graph, str_option(only)),
{
    let ghost edges = graph.topology.edges@;
    let mut pairs: Vec<NamePair> = Vec::new();
    let mut i: usize = 0;
    while i < graph.topology.edges.len()
        invariant
            i <= graph.topology.edges@.len(),
            edges == graph.topology.edges@,
            ascends(pair_texts(pairs@), name_order()),
            forall|p: (Text, Text)|
                #[trigger] pair_texts(pairs@).to_set().contains(p) <==> (asked(
                    str_option(only),
                    p.0,
                ) && edge_texts(edges, p.0, p.1, i as nat).len() > 0),
        decreases graph.topology.edges@.len() - i,
    {
        let ghost so_far = pair_texts(pairs@).to_set();
        match &graph.topology.edges[i] {
            Some(record) => {
                let name = record.data.connection_type.as_str();
                let wanted = match only {
                    Some(t) => text_eq(t, name),
                    None => true,
                };
                if wanted {
                    insert_text_columns(&mut pairs, name, &record.data.properties);
                }
            },
            None => {},
        }
        proof {
            assert forall|p: (Text, Text)|
                #[trigger] pair_texts(pairs@).to_set().contains(p) <==> (asked(
                    str_option(only),
                    p.0,
                ) && edge_texts(edges, p.0, p.1, (i + 1) as nat).len() > 0) by {
                assert(so_far.contains(p) <==> (asked(str_option(only), p.0) && edge_texts(
                    edges,
                    p.0,
                    p.1,
                    i as nat,
                ).len() > 0));
            }
        }
        i = i + 1;
    }
    let ghost scanned = pair_texts(pairs@).to_set();
    insert_stores(&mut pairs, &graph.edge_embeddings, only);
    proof {
        let after = pair_texts(pairs@).to_set();
        assert(after =~= edge_signals(*graph, str_option(only))) by {
            assert forall|p: (Text, Text)|
                after.contains(p) <==> edge_signals(*graph, str_option(only)).contains(p) by {
                listed_pairs_are_kept(graph.edge_embeddings@, p);
                assert(after.contains(p) <==> (scanned.contains(p) || (asked(
                    str_option(only),
                    p.0,
                ) && pairs_kept(
                    graph.edge_embeddings@,
                    graph.edge_embeddings@.len() as int,
                ).contains(p))));
            }
        }
    }
    pairs
}

proof fn few_text_columns(owner_type: Text, properties: Seq<Property>)
    ensures
        text_columns(owner_type, properties).finite(),
{
    let listed = Seq::new(properties.len(), |j: int| (owner_type, properties[j].name@));
    vstd::seq_lib::seq_to_set_is_finite(listed);
    assert forall|p: (Text, Text)|
        text_columns(owner_type, properties).contains(p) implies listed.to_set().contains(p) by {
        a_carried_property_is_listed(properties, p.1);
        let k = choose|k: int|
            0 <= k < properties.len() && (#[trigger] properties[k]).name@ == p.1;
        assert(listed[k] == p);
    }
    vstd::set_lib::lemma_len_subset(text_columns(owner_type, properties), listed.to_set());
}

proof fn few_member_columns(
    topology: Topology,
    owner_type: Text,
    members: Seq<NodeIndex>,
    count: nat,
)
    requires
        count <= members.len(),
    ensures
        member_columns(topology, owner_type, members, count).finite(),
    decreases count,
{
    let all = member_columns(topology, owner_type, members, count);
    if count == 0 {
        assert(all =~= Set::empty());
    } else {
        let before = member_columns(topology, owner_type, members, (count - 1) as nat);
        let fresh = text_columns(owner_type, topology.node(members[count - 1]).properties@);
        few_member_columns(topology, owner_type, members, (count - 1) as nat);
        few_text_columns(owner_type, topology.node(members[count - 1]).properties@);
        assert(all.subset_of(before.union(fresh)));
        vstd::set_lib::lemma_len_subset(all, before.union(fresh));
    }
}

/// The node types among the first `count` and the columns that their nodes hold as
/// texts.
spec fn typed_columns(graph: DirGraph, count: int) -> Set<(Text, Text)> {
    Set::new(
        |p: (Text, Text)|
            texts_of_nodes(graph, p.0, p.1).len() > 0 && exists|k: int|
                0 <= k < count && (#[trigger] graph.node_types@[k]).name@ == p.0,
    )
}

proof fn few_typed_columns(graph: DirGraph, count: nat)
    requires
        count <= graph.node_types@.len(),
    ensures
        typed_columns(graph, count as int).finite(),
    decreases count,
{
    let all = typed_columns(graph, count as int);
    if count == 0 {
        assert(all =~= Set::empty());
    } else {
        let name = graph.node_types@[count - 1].name@;
        let members = members_or_none(graph.node_types@, name);
        let before = typed_columns(graph, count - 1);
        let fresh = member_columns(graph.topology, name, members, members.len());
        few_typed_columns(graph, (count - 1) as nat);
        few_member_columns(graph.topology, name, members, members.len());
        assert forall|p: (Text, Text)| all.contains(p) implies before.union(fresh).contains(p) by {
            let k = choose|k: int|
                0 <= k < count && (#[trigger] graph.node_types@[k]).name@ == p.0;
            if k < count - 1 {
                assert(graph.node_types@[k].name@ == p.0);
            }
        }
        vstd::set_lib::lemma_len_subset(all, before.union(fresh));
    }
}

/// The relationship types and the columns that the first `count` relationships
/// hold as texts.
spec fn edge_columns(edges: Seq<Option<EdgeRecord>>, count: nat) -> Set<(Text, Text)> {
    Set::new(|p: (Text, Text)| edge_texts(edges, p.0, p.1, count).len() > 0)
}

proof fn few_edge_columns(edges: Seq<Option<EdgeRecord>>, count: nat)
    requires
        count <= edges.len(),
    ensures
        edge_columns(edges, count).finite(),
    decreases count,
{
    let all = edge_columns(edges, count);
    if count == 0 {
        assert(all =~= Set::empty());
    } else {
        let before = edge_columns(edges, (count - 1) as nat);
        few_edge_columns(edges, (count - 1) as nat);
        match edges[count - 1] {
            Some(record) => {
                let fresh = text_columns(
                    record.data.connection_type@,
                    record.data.properties@,
                );
                few_text_columns(record.data.connection_type@, record.data.properties@);
                assert(all.subset_of(before.union(fresh)));
                vstd::set_lib::lemma_len_subset(all, before.union(fresh));
            },
            None => {
                assert(all =~= before);
            },
        }
    }
}

proof fn few_pairs_kept<V>(entries: Seq<EntryModel<V>>)
    ensures
        pairs_kept(entries, entries.len() as int).finite(),
{
    let all = pairs_kept(entries, entries.len() as int);
    let listed = Seq::new(
        entries.len(),
        |i: int| (entries[i].owner_type, listed_column(entries[i].name)),
    );
    vstd::seq_lib::seq_to_set_is_finite(listed);
    assert forall|p: (Text, Text)| all.contains(p) implies listed.to_set().contains(p) by {
        let i = choose|i: int|
            0 <= i < entries.len() && (#[trigger] entries[i]).owner_type == p.0 && listed_column(
                entries[i].name,
            ) == p.1;
        assert(listed[i] == p);
    }
    vstd::set_lib::lemma_len_subset(all, listed.to_set());
}

/// A graph has finitely many signals, so its rows are these, each once and in the
/// order of the types and then the columns.
pub proof fn the_signals_are_listed_in_order(graph: DirGraph, only: Option<Text>)
    requires
        graph.well_formed(),
    ensures
        node_signals(graph, only).finite(),
        edge_signals(graph, only).finite(),
        ascends(ascending(node_signals(graph, only), name_order()), name_order()),
        ascends(ascending(edge_signals(graph, only), name_order()), name_order()),
        ascending(node_signals(graph, only), name_order()).to_set() == node_signals(graph, only),
        ascending(edge_signals(graph, only), name_order()).to_set() == edge_signals(graph, only),
{
    let types = graph.node_types@;
    let nodes = typed_columns(graph, types.len() as int).union(
        pairs_kept(graph.embeddings@, graph.embeddings@.len() as int),
    );
    few_typed_columns(graph, types.len());
    few_pairs_kept(graph.embeddings@);
    assert forall|p: (Text, Text)| node_signals(graph, only).contains(p) implies nodes.contains(
        p,
    ) by {
        listed_pairs_are_kept(graph.embeddings@, p);
        members_at_place(types, p.0);
        if texts_of_nodes(graph, p.0, p.1).len() > 0 {
            assert(types[type_place(types, p.0)].name@ == p.0);
        }
    }
    vstd::set_lib::lemma_len_subset(node_signals(graph, only), nodes);
    let edges = graph.topology.edges@;
    let relationships = edge_columns(edges, edges.len()).union(
        pairs_kept(graph.edge_embeddings@, graph.edge_embeddings@.len() as int),
    );
    few_edge_columns(edges, edges.len());
    few_pairs_kept(graph.edge_embeddings@);
    assert forall|p: (Text, Text)| edge_signals(graph, only).contains(
        p,
    ) implies relationships.contains(p) by {
        listed_pairs_are_kept(graph.edge_embeddings@, p);
    }
    vstd::set_lib::lemma_len_subset(edge_signals(graph, only), relationships);
    name_order_is_order();
    ascending_lists_the_set(node_signals(graph, only), name_order());
    ascending_lists_the_set(edge_signals(graph, only), name_order());
}

/// The running counts of a column's texts.
struct Tally {
    with_property: usize,
    total_length: u128,
    max_length: usize,
    distinct: StringHashSet,
}

impl Tally {
    spec fn counts(self, values: Seq<Text>) -> bool {
        &&& self.with_property == values.len()
        &&& self.total_length == total_bytes(values)
        &&& self.total_length <= values.len() * 0x1_0000_0000_0000_0000
        &&& self.max_length == most_bytes(values)
        &&& self.distinct@ == values.to_set()
    }

    fn new() -> (tally: Tally)
        ensures
            tally.counts(Seq::<Text>::empty()),
    {
        let tally = Tally {
            with_property: 0,
            total_length: 0,
            max_length: 0,
            distinct: StringHashSet::new(),
        };
        assert(tally.distinct@ =~= Seq::<Text>::empty().to_set());
        tally
    }

    fn observe(&mut self, text: &str, Ghost(values): Ghost<Seq<Text>>)
        requires
            old(self).counts(values),
            values.len() < usize::MAX,
        ensures
            final(self).counts(values.push(text@)),
    {
        let bytes = text.as_bytes();
        let length: usize = bytes.len();
        assert(length == bytes_in(text@));
        assert(values.push(text@).drop_last() =~= values);
        assert(values.push(text@).to_set() =~= values.to_set().insert(text@)) by {
            assert forall|t: Text|
                values.push(text@).to_set().contains(t) <==> values.to_set().insert(
                    text@,
                ).contains(t) by {
                if values.contains(t) {
                    let k = values.index_of(t);
                    assert(values.push(text@)[k] == t);
                }
                if t == text@ {
                    assert(values.push(text@)[values.len() as int] == t);
                }
            }
        }
        self.with_property = self.with_property + 1;
        self.total_length = self.total_length + length as u128;
        if length > self.max_length {
            self.max_length = length;
        }
        self.distinct.insert(text.to_owned());
    }
}

fn finish_row(
    entity: EmbeddingEntity,
    owner_type: &str,
    column: &str,
    tally: &Tally,
    carriers: usize,
    store: Option<&EmbeddingStore>,
    Ghost(values): Ghost<Seq<Text>>,
) -> (row: EmbeddingDiagnostic)
    requires
        tally.counts(values),
    ensures
        row@ == coverage_row(
            entity,
            owner_type@,
            column@,
            values,
            carriers as nat,
            match store {
                Some(s) => Some(s@),
                None => None,
            },
        ),
{
    EmbeddingDiagnostic {
        entity,
        owner_type: owner_type.to_owned(),
        text_column: column.to_owned(),
        embedding_key: store_name(column),
        with_property: carriers,
        embedded: match store {
            Some(s) => s.len(),
            None => 0,
        },
        status: match store {
            Some(_) => if carriers == 0 {
                EmbeddingCoverage::StoreOrphan
            } else {
                EmbeddingCoverage::Embedded
            },
            None => EmbeddingCoverage::Embeddable,
        },
        dimension: match store {
            Some(s) => Some(s.dimension),
            None => None,
        },
        metric: match store {
            Some(s) => Some(effective_metric(s)),
            None => None,
        },
        length_stats: LengthStats {
            total_length: tally.total_length,
            max_length: tally.max_length,
            distinct_count: tally.distinct.len(),
        },
    }
}

fn node_diagnostic(graph: &DirGraph, owner_type: &str, column: &str) -> (row: EmbeddingDiagnostic)
    ensures
        row@ == node_row(*graph, owner_type@, column@),
{
    let mut tally = Tally::new();
    let mut total: usize = 0;
    let ghost members = members_or_none(graph.node_types@, owner_type@);
    match graph.type_members(owner_type) {
        Some(listed) => {
            total = listed.len();
            let mut i: usize = 0;
            while i < listed.len()
                invariant
                    i <= listed@.len(),
                    members == listed@,
                    tally.counts(node_texts(graph.topology, members, column@, i as nat)),
                    node_texts(graph.topology, members, column@, i as nat).len() <= i,
                decreases listed@.len() - i,
            {
                let ghost before = node_texts(graph.topology, members, column@, i as nat);
                match graph.topology.node_view(listed[i]) {
                    Some(node) => match text_property(&node.properties, column) {
                        Some(text) => {
                            tally.observe(text, Ghost(before));
                        },
                        None => {},
                    },
                    None => {},
                }
                i = i + 1;
            }
        },
        None => {},
    }
    let ghost values = texts_of_nodes(*graph, owner_type@, column@);
    let name = store_name(column);
    let store = graph.embeddings.get(owner_type, name.as_str());
    let is_builtin = text_eq(column, "id") || text_eq(column, "title") || text_eq(column, "type");
    let carriers: usize = if store.is_some() && tally.with_property == 0 && is_builtin {
        total
    } else {
        tally.with_property
    };
    finish_row(EmbeddingEntity::Node, owner_type, column, &tally, carriers, store, Ghost(values))
}

fn edge_diagnostic(graph: &DirGraph, owner_type: &str, column: &str) -> (row: EmbeddingDiagnostic)
    ensures
        row@ == edge_row(*graph, owner_type@, column@),
{
    let mut tally = Tally::new();
    let ghost edges = graph.topology.edges@;
    let mut i: usize = 0;
    while i < graph.topology.edges.len()
        invariant
            i <= graph.topology.edges@.len(),
            edges == graph.topology.edges@,
            tally.counts(edge_texts(edges, owner_type@, column@, i as nat)),
            edge_texts(edges, owner_type@, column@, i as nat).len() <= i,
        decreases graph.topology.edges@.len() - i,
    {
        let ghost before = edge_texts(edges, owner_type@, column@, i as nat);
        match &graph.topology.edges[i] {
            Some(record) => if text_eq(record.data.connection_type.as_str(), owner_type) {
                match text_property(&record.data.properties, column) {
                    Some(text) => {
                        tally.observe(text, Ghost(before));
                    },
                    None => {},
                }
            },
            None => {},
        }
        i = i + 1;
    }
    let ghost values = texts_of_edges(*graph, owner_type@, column@);
    let name = store_name(column);
    let store: Option<&EmbeddingStore> = match graph.edge_embeddings.get(
        owner_type,
        name.as_str(),
    ) {
        Some(s) => Some(&s.numeric),
        None => None,
    };
    finish_row(
        EmbeddingEntity::Relationship,
        owner_type,
        column,
        &tally,
        tally.with_property,
        store,
        Ghost(values),
    )
}

fn node_tallies(graph: &DirGraph, only: Option<&str>) -> (rows: Vec<EmbeddingDiagnostic>)
    requires
        graph.well_formed(),
    ensures
        diagnostics(rows@) == node_rows(*graph, str_option(only)),
{
    let pairs = node_candidates(graph, only);
    proof {
        name_order_is_order();
        ascending_of_items(pair_texts(pairs@), name_order());
    }
    let mut rows: Vec<EmbeddingDiagnostic> = Vec::new();
    let mut i: usize = 0;
    while i < pairs.len()
        invariant
            i <= pairs@.len(),
            rows@.len() == i,
            forall|k: int|
                0 <= k < i ==> (#[trigger] rows@[k])@ == node_row(
                    *graph,
                    pairs@[k].0@,
                    pairs@[k].1@,
                ),
        decreases pairs@.len() - i,
    {
        rows.push(node_diagnostic(graph, pairs[i].0.as_str(), pairs[i].1.as_str()));
        i = i + 1;
    }
    assert(diagnostics(rows@) =~= node_rows(*graph, str_option(only)));
    rows
}

fn relationship_tallies(graph: &DirGraph, only: Option<&str>) -> (rows: Vec<EmbeddingDiagnostic>)
    requires
        graph.well_formed(),
    ensures
        diagnostics(rows@) == edge_rows(*graph, str_option(only)),
{
    let pairs = edge_candidates(graph, only);
    proof {
        name_order_is_order();
        ascending_of_items(pair_texts(pairs@), name_order());
    }
    let mut rows: Vec<EmbeddingDiagnostic> = Vec::new();
    let mut i: usize = 0;
    while i < pairs.len()
        invariant
            i <= pairs@.len(),
            rows@.len() == i,
            forall|k: int|
                0 <= k < i ==> (#[trigger] rows@[k])@ == edge_row(
                    *graph,
                    pairs@[k].0@,
                    pairs@[k].1@,
                ),
        decreases pairs@.len() - i,
    {
        rows.push(edge_diagnostic(graph, pairs[i].0.as_str(), pairs[i].1.as_str()));
        i = i + 1;
    }
    assert(diagnostics(rows@) =~= edge_rows(*graph, str_option(only)));
    rows
}

/// Why a diagnosis is refused: a type that the graph does not have.
pub open spec fn diagnosis_fault(
    graph: DirGraph,
    node_type: Option<Text>,
    relationship_type: Option<Text>,
) -> Option<Text> {
    if node_type is Some && members_of(graph.node_types@, node_type->0) is None {
        Some("Node type '"@ + node_type->0 + "' does not exist in the graph"@)
    } else if relationship_type is Some && !type_registered(graph, relationship_type->0) {
        Some("Relationship type '"@ + relationship_type->0 + "' does not exist in the graph"@)
    } else {
        None
    }
}

/// The coverage of every type and text column: the nodes' rows, then the
/// relationships', each by type and then by column. Naming a type narrows to
/// it, and leaves the other entity out unless it is named too.
pub fn embedding_diagnostics(
    graph: &DirGraph,
    node_type: Option<&str>,
    relationship_type: Option<&str>,
) -> (result: Result<Vec<EmbeddingDiagnostic>, String>)
    requires
        graph.well_formed(),
    ensures
        match result {
            Ok(rows) => {
                let nodes = if node_type is Some || relationship_type is None {
                    node_rows(*graph, str_option(node_type))
                } else {
                    Seq::empty()
                };
                let edges = if relationship_type is Some || node_type is None {
                    edge_rows(*graph, str_option(relationship_type))
                } else {
                    Seq::empty()
                };
                &&& diagnosis_fault(
                    *graph,
                    str_option(node_type),
                    str_option(relationship_type),
                ) is None
                &&& diagnostics(rows@) == nodes + edges
            },
            Err(message) => diagnosis_fault(
                *graph,
                str_option(node_type),
                str_option(relationship_type),
            ) == Some(message@),
        },
{
    if let Some(t) = node_type {
        if graph.type_members(t).is_none() {
            let mut message = "Node type '".to_owned();
            message.append(t);
            message.append("' does not exist in the graph");
            return Err(message);
        }
    }
    if let Some(t) = relationship_type {
        if !graph.has_connection_type(t) {
            let mut message = "Relationship type '".to_owned();
            message.append(t);
            message.append("' does not exist in the graph");
            return Err(message);
        }
    }
    let mut rows: Vec<EmbeddingDiagnostic> = Vec::new();
    assert(diagnostics(rows@) =~= Seq::empty());
    if node_type.is_some() || relationship_type.is_none() {
        rows = node_tallies(graph, node_type);
    }
    let ghost nodes = diagnostics(rows@);
    if relationship_type.is_some() || node_type.is_none() {
        let mut more = relationship_tallies(graph, relationship_type);
        let ghost first = rows@;
        let ghost second = more@;
        rows.append(&mut more);
        assert(diagnostics(rows@) =~= nodes + diagnostics(second));
    } else {
        assert(nodes + Seq::<DiagnosticModel>::empty() =~= nodes);
    }
    Ok(rows)
}

} // verus!
