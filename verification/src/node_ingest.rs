//! Writing node vectors by id: everything is checked before a store is touched.

use crate::catalog::{a_kept_store_is_found, lookup, with_entry};
use crate::coordinate::{fault_of, non_finite_message, validate_finite_vector};
use crate::graph::{
    bumped, members_of, members_or_none, node_by_id, recorded, recorded_with, DirGraph, FieldAlias,
};
use crate::names::{store_name, store_name_of, store_names_read_back};
use crate::node_store::{node_names_stay, node_write};
use crate::recording::EmbeddingWrite;
use crate::store::{
    empty_store, with_hash, with_vector, EmbeddingStore, StoreModel,
};
use crate::text::{decimal, push_number, str_option, text_eq, Text};
use crate::topology::{property_in, Topology};
use crate::value::{NodeIndex, Value, ValueModel};
use vstd::prelude::*;

verus! {

/// Whether a column is an alias on a type.
pub open spec fn aliased(aliases: Seq<FieldAlias>, node_type: Text, field: Text) -> bool {
    exists|i: int|
        0 <= i < aliases.len() && (#[trigger] aliases[i]).node_type@ == node_type
            && aliases[i].field@ == field
}

/// The field a column is an alias of: the id or the title where ids or titles
/// were read from the column, else the column itself.
pub open spec fn alias_of(graph: DirGraph, node_type: Text, field: Text) -> Text {
    if aliased(graph.id_field_aliases@, node_type, field) {
        "id"@
    } else if aliased(graph.title_field_aliases@, node_type, field) {
        "title"@
    } else {
        field
    }
}

fn is_aliased(aliases: &Vec<FieldAlias>, node_type: &str, field: &str) -> (is: bool)
    ensures
        is == aliased(aliases@, node_type@, field@),
{
    let mut i: usize = 0;
    while i < aliases.len()
        invariant
            i <= aliases@.len(),
            forall|k: int|
                0 <= k < i ==> !((#[trigger] aliases@[k]).node_type@ == node_type@
                    && aliases@[k].field@ == field@),
        decreases aliases@.len() - i,
    {
        if text_eq(aliases[i].node_type.as_str(), node_type) && text_eq(
            aliases[i].field.as_str(),
            field,
        ) {
            return true;
        }
        i = i + 1;
    }
    false
}

impl DirGraph {
    /// The field a column is an alias of.
    pub fn resolve_alias<'a>(&self, node_type: &str, field: &'a str) -> (resolved: &'a str)
        ensures
            resolved@ == alias_of(*self, node_type@, field@),
    {
        if is_aliased(&self.id_field_aliases, node_type, field) {
            "id"
        } else if is_aliased(&self.title_field_aliases, node_type, field) {
            "title"
        } else {
            field
        }
    }
}

/// Whether a live node among the first `count` members has a property.
pub open spec fn property_present(
    topology: Topology,
    members: Seq<NodeIndex>,
    property: Text,
    count: int,
) -> bool {
    exists|i: int|
        0 <= i < count && topology.node_lives(#[trigger] members[i]) && property_in(
            topology.node(members[i]).properties@,
            property,
        ) is Some
}

/// Whether a field is read from a node's title or type where no property has
/// its name.
pub open spec fn soft_alias(field: Text) -> bool {
    field == "name"@ || field == "type"@ || field == "node_type"@ || field == "label"@
}

pub(crate) fn is_soft_alias(field: &str) -> (is: bool)
    ensures
        is == soft_alias(field@),
{
    text_eq(field, "name") || text_eq(field, "type") || text_eq(field, "node_type") || text_eq(
        field,
        "label",
    )
}

/// Why a column cannot be read on a type.
pub open spec fn source_fault(graph: DirGraph, node_type: Text, text_column: Text) -> Option<Text> {
    let resolved = alias_of(graph, node_type, text_column);
    let members = members_or_none(graph.node_types@, node_type);
    if resolved == "id"@ || resolved == "title"@ || property_present(
        graph.topology,
        members,
        resolved,
        members.len() as int,
    ) || soft_alias(resolved) {
        None
    } else {
        Some(
            "Source column '"@ + text_column + "' not found on any '"@ + node_type
                + "' node. set_embeddings() expects the text column name (e.g. 'summary'), not the embedding store name."@,
        )
    }
}

fn has_member_property(graph: &DirGraph, node_type: &str, property: &str) -> (present: bool)
    ensures
        present == property_present(
            graph.topology,
            members_or_none(graph.node_types@, node_type@),
            property@,
            members_or_none(graph.node_types@, node_type@).len() as int,
        ),
{
    match graph.type_members(node_type) {
        Some(members) => {
            let mut i: usize = 0;
            while i < members.len()
                invariant
                    i <= members@.len(),
                    members_of(graph.node_types@, node_type@) == Some(members@),
                    forall|k: int|
                        0 <= k < i ==> !(graph.topology.node_lives(#[trigger] members@[k])
                            && property_in(
                            graph.topology.node(members@[k]).properties@,
                            property@,
                        ) is Some),
                decreases members@.len() - i,
            {
                if let Some(node) = graph.topology.node_view(members[i]) {
                    if node.get_property(property).is_some() {
                        return true;
                    }
                }
                i = i + 1;
            }
            false
        },
        None => false,
    }
}

/// The field that a column is read from on a type: its alias, a property, or a
/// title or type under another name. Anything else is refused.
pub fn resolve_source_column<'a>(graph: &DirGraph, node_type: &str, text_column: &'a str) -> (result:
    Result<&'a str, String>)
    ensures
        match result {
            Ok(field) => {
                &&& source_fault(*graph, node_type@, text_column@) is None
                &&& field@ == alias_of(*graph, node_type@, text_column@)
            },
            Err(message) => source_fault(*graph, node_type@, text_column@) == Some(message@),
        },
{
    let resolved = graph.resolve_alias(node_type, text_column);
    if text_eq(resolved, "id") || text_eq(resolved, "title") {
        return Ok(resolved);
    }
    if has_member_property(graph, node_type, resolved) {
        return Ok(resolved);
    }
    if is_soft_alias(resolved) {
        return Ok(resolved);
    }
    let mut message = "Source column '".to_owned();
    message.append(text_column);
    message.append("' not found on any '");
    message.append(node_type);
    message.append(
        "' node. set_embeddings() expects the text column name (e.g. 'summary'), not the embedding store name.",
    );
    Err(message)
}

/// A node id and its vector.
pub type NodeVector = (Value, Vec<u32>);

/// What a batch says.
pub open spec fn batch_rows(entries: Seq<NodeVector>) -> Seq<(ValueModel, Seq<u32>)> {
    Seq::new(entries.len(), |i: int| (entries[i].0@, entries[i].1@))
}

/// A batch with its ids looked up.
pub struct PreparedModel {
    pub entries: Seq<(NodeIndex, Seq<u32>)>,
    pub dimension: Option<usize>,
    pub skipped: nat,
}

/// The refusal of a vector of another dimension.
pub open spec fn width_text(constraint: Option<usize>, expected: usize, got: nat) -> Text {
    if constraint is Some {
        "Inconsistent embedding dimension: store has "@ + decimal(expected as nat) + " but got "@
            + decimal(got)
    } else {
        "Inconsistent embedding dimensions: expected "@ + decimal(expected as nat) + " but got "@
            + decimal(got)
    }
}

/// The first `count` rows with their ids looked up, or why one is refused. The
/// dimension is the constraint's, else the first vector's.
pub open spec fn prepared_upto(
    graph: DirGraph,
    node_type: Text,
    constraint: Option<usize>,
    rows: Seq<(ValueModel, Seq<u32>)>,
    count: nat,
) -> Result<PreparedModel, Text>
    decreases count,
{
    if count == 0 {
        Ok(PreparedModel { entries: Seq::empty(), dimension: constraint, skipped: 0 })
    } else {
        match prepared_upto(graph, node_type, constraint, rows, (count - 1) as nat) {
            Err(fault) => Err(fault),
            Ok(before) => {
                let (id, vector) = rows[count - 1];
                if fault_of(vector) is Some {
                    Err("Invalid embedding: "@ + non_finite_message(fault_of(vector)->0))
                } else {
                    match node_by_id(graph, node_type, id) {
                        None => Ok(PreparedModel { skipped: before.skipped + 1, ..before }),
                        Some(node) => if before.dimension is Some && before.dimension->0
                            != vector.len() {
                            Err(width_text(constraint, before.dimension->0, vector.len()))
                        } else {
                            Ok(
                                PreparedModel {
                                    entries: before.entries.push((node, vector)),
                                    dimension: Some(vector.len() as usize),
                                    ..before
                                },
                            )
                        },
                    }
                }
            },
        }
    }
}

/// A batch with its ids looked up, or why it is refused. Where no id is found
/// nothing will be written, and there is no dimension.
pub open spec fn prepared(
    graph: DirGraph,
    node_type: Text,
    text_column: Text,
    constraint: Option<usize>,
    rows: Seq<(ValueModel, Seq<u32>)>,
) -> Result<PreparedModel, Text> {
    if members_of(graph.node_types@, node_type) is None {
        Err("Node type '"@ + node_type + "' does not exist in the graph"@)
    } else if rows.len() > 0 && source_fault(graph, node_type, text_column) is Some {
        Err(source_fault(graph, node_type, text_column)->0)
    } else {
        match prepared_upto(graph, node_type, constraint, rows, rows.len()) {
            Err(fault) => Err(fault),
            Ok(batch) => if batch.entries.len() == 0 {
                Ok(PreparedModel { dimension: None, ..batch })
            } else {
                Ok(batch)
            },
        }
    }
}

proof fn prepared_faults_stay(
    graph: DirGraph,
    node_type: Text,
    constraint: Option<usize>,
    rows: Seq<(ValueModel, Seq<u32>)>,
    count: nat,
    upto: nat,
)
    requires
        count <= upto,
        prepared_upto(graph, node_type, constraint, rows, count) is Err,
    ensures
        prepared_upto(graph, node_type, constraint, rows, upto) == prepared_upto(
            graph,
            node_type,
            constraint,
            rows,
            count,
        ),
    decreases upto - count,
{
    if count < upto {
        prepared_faults_stay(graph, node_type, constraint, rows, count, (upto - 1) as nat);
    }
}

/// A batch with its ids looked up: each node with the place of its row.
struct Prepared {
    entries: Vec<(NodeIndex, usize)>,
    dimension: Option<usize>,
    skipped: usize,
}

/// The nodes with the vectors of their rows.
spec fn placed(entries: Seq<(NodeIndex, usize)>, rows: Seq<(ValueModel, Seq<u32>)>) -> Seq<
    (NodeIndex, Seq<u32>),
> {
    Seq::new(entries.len(), |i: int| (entries[i].0, rows[entries[i].1 as int].1))
}

/// Every place is one of a row with a vector of the dimension.
spec fn places_fit(
    entries: Seq<(NodeIndex, usize)>,
    rows: Seq<(ValueModel, Seq<u32>)>,
    dimension: Option<usize>,
) -> bool {
    forall|i: int|
        0 <= i < entries.len() ==> (#[trigger] entries[i]).1 < rows.len() && dimension is Some
            && rows[entries[i].1 as int].1.len() == dimension->0
}

fn prepare(
    graph: &DirGraph,
    node_type: &str,
    text_column: &str,
    constraint: Option<usize>,
    entries: &Vec<NodeVector>,
) -> (result: Result<Prepared, String>)
    ensures
        match result {
            Ok(batch) => {
                &&& prepared(*graph, node_type@, text_column@, constraint, batch_rows(entries@))
                    == Ok::<PreparedModel, Text>(
                    PreparedModel {
                        entries: placed(batch.entries@, batch_rows(entries@)),
                        dimension: batch.dimension,
                        skipped: batch.skipped as nat,
                    },
                )
                &&& places_fit(batch.entries@, batch_rows(entries@), batch.dimension)
                &&& batch.dimension is Some <==> batch.entries@.len() > 0
                &&& constraint is Some && batch.dimension is Some ==> batch.dimension == constraint
            },
            Err(message) => prepared(
                *graph,
                node_type@,
                text_column@,
                constraint,
                batch_rows(entries@),
            ) == Err::<PreparedModel, Text>(message@),
        },
{
    if graph.type_members(node_type).is_none() {
        let mut message = "Node type '".to_owned();
        message.append(node_type);
        message.append("' does not exist in the graph");
        return Err(message);
    }
    let ghost rows = batch_rows(entries@);
    assert(rows.len() == entries@.len());
    if entries.len() > 0 {
        if let Err(message) = resolve_source_column(graph, node_type, text_column) {
            return Err(message);
        }
    }
    let mut found: Vec<(NodeIndex, usize)> = Vec::new();
    let mut dimension: Option<usize> = constraint;
    let mut skipped: usize = 0;
    assert(placed(found@, rows) =~= Seq::<(NodeIndex, Seq<u32>)>::empty());
    let mut i: usize = 0;
    while i < entries.len()
        invariant
            i <= entries@.len(),
            rows == batch_rows(entries@),
            skipped <= i,
            members_of(graph.node_types@, node_type@) is Some,
            rows.len() > 0 ==> source_fault(*graph, node_type@, text_column@) is None,
            places_fit(found@, rows, dimension),
            found@.len() == 0 ==> dimension == constraint,
            constraint is Some ==> dimension == constraint,
            prepared_upto(*graph, node_type@, constraint, rows, i as nat) == Ok::<
                PreparedModel,
                Text,
            >(
                PreparedModel {
                    entries: placed(found@, rows),
                    dimension,
                    skipped: skipped as nat,
                },
            ),
        decreases entries@.len() - i,
    {
        let id = &entries[i].0;
        let vector = &entries[i].1;
        assert(rows[i as int] == (id@, vector@));
        let ghost upto = prepared_upto(*graph, node_type@, constraint, rows, (i + 1) as nat);
        if let Err(error) = validate_finite_vector(vector.as_slice()) {
            let mut message = "Invalid embedding: ".to_owned();
            message.append(error.message().as_str());
            proof {
                prepared_faults_stay(
                    *graph,
                    node_type@,
                    constraint,
                    rows,
                    (i + 1) as nat,
                    rows.len(),
                );
            }
            return Err(message);
        }
        match graph.lookup_by_id(node_type, id) {
            None => {
                skipped = skipped + 1;
            },
            Some(node) => {
                let width: usize = vector.len();
                if let Some(expected) = dimension {
                    if width != expected {
                        let mut message = match constraint {
                            Some(_) => "Inconsistent embedding dimension: store has ".to_owned(),
                            None => "Inconsistent embedding dimensions: expected ".to_owned(),
                        };
                        push_number(&mut message, expected);
                        message.append(" but got ");
                        push_number(&mut message, width);
                        proof {
                            prepared_faults_stay(
                                *graph,
                                node_type@,
                                constraint,
                                rows,
                                (i + 1) as nat,
                                rows.len(),
                            );
                        }
                        return Err(message);
                    }
                }
                let ghost before = found@;
                dimension = Some(width);
                found.push((node, i));
                assert(placed(found@, rows) =~= placed(before, rows).push((node, vector@)));
                assert(places_fit(found@, rows, dimension)) by {
                    assert forall|k: int| 0 <= k < found@.len() implies (#[trigger] found@[k]).1
                        < rows.len() && rows[found@[k].1 as int].1.len() == width by {
                        if k < before.len() {
                            assert(before[k] == found@[k]);
                        }
                    }
                }
            },
        }
        i = i + 1;
    }
    if found.len() == 0 {
        dimension = None;
    } else {
        assert(found@[0].1 < rows.len());
    }
    Ok(Prepared { entries: found, dimension, skipped })
}

/// What an ingest wrote.
#[derive(Debug, Clone, Copy, PartialEq, Eq, Structural)]
pub struct EmbeddingIngestReport {
    /// The vectors in the store after the call.
    pub embeddings_stored: usize,
    /// The store's dimension; zero where nothing was written.
    pub dimension: usize,
    /// The rows whose id is no node's of the type.
    pub skipped: usize,
    /// Whether the call made the store.
    pub store_created: bool,
}

/// The store with the first `count` vectors written.
pub open spec fn written(store: StoreModel, entries: Seq<(NodeIndex, Seq<u32>)>, count: nat) -> StoreModel
    decreases count,
{
    if count == 0 {
        store
    } else {
        with_vector(
            written(store, entries, (count - 1) as nat),
            entries[count - 1].0.slot,
            entries[count - 1].1,
        )
    }
}

/// The store with the first `count` vectors written by hand: each takes its cell
/// over, so that the hash of the text it was made from is gone.
pub open spec fn added(store: StoreModel, entries: Seq<(NodeIndex, Seq<u32>)>, count: nat) -> StoreModel
    decreases count,
{
    if count == 0 {
        store
    } else {
        with_hash(
            with_vector(
                added(store, entries, (count - 1) as nat),
                entries[count - 1].0.slot,
                entries[count - 1].1,
            ),
            entries[count - 1].0.slot,
            None,
        )
    }
}

/// The nodes of a batch.
pub open spec fn batch_slots(entries: Seq<(NodeIndex, Seq<u32>)>) -> Seq<usize> {
    Seq::new(entries.len(), |i: int| entries[i].0.slot)
}

/// What a write of a node store does.
pub open spec fn node_store_written(
    before: DirGraph,
    after: DirGraph,
    node_type: Text,
    text_column: Text,
    store: StoreModel,
    write: EmbeddingWrite,
    slots: Seq<usize>,
) -> bool {
    &&& after == (DirGraph {
        embeddings: after.embeddings,
        recording: after.recording,
        version: bumped(before.version),
        ..before
    })
    &&& after.embeddings@ == with_entry(
        before.embeddings@,
        node_type,
        store_name_of(text_column),
        store,
    )
    &&& recorded(after) == recorded_with(
        recorded(before),
        seq![node_write(node_type, text_column, write, slots)],
    )
}

/// What an ingest that wrote nothing reports.
pub open spec fn nothing_ingested(skipped: usize) -> EmbeddingIngestReport {
    EmbeddingIngestReport { embeddings_stored: 0, dimension: 0, skipped, store_created: false }
}

impl Default for EmbeddingIngestReport {
    fn default() -> (report: EmbeddingIngestReport)
        ensures
            report == nothing_ingested(0),
    {
        EmbeddingIngestReport {
            embeddings_stored: 0,
            dimension: 0,
            skipped: 0,
            store_created: false,
        }
    }
}

/// What a replacement of a node store does and says.
pub open spec fn set_done(
    before: DirGraph,
    after: DirGraph,
    node_type: Text,
    text_column: Text,
    metric: Option<Text>,
    batch: PreparedModel,
    report: EmbeddingIngestReport,
) -> bool {
    match batch.dimension {
        None => after == before && report == nothing_ingested(batch.skipped as usize),
        Some(dimension) => {
            let store = written(
                empty_store(dimension, metric),
                batch.entries,
                batch.entries.len(),
            );
            &&& node_store_written(
                before,
                after,
                node_type,
                text_column,
                store,
                EmbeddingWrite::Replace,
                store.nodes,
            )
            &&& report == (EmbeddingIngestReport {
                embeddings_stored: store.nodes.len() as usize,
                dimension,
                skipped: batch.skipped as usize,
                store_created: true,
            })
        },
    }
}

/// Replaces the store of a type and a column with a batch. An id that is no
/// node's of the type is skipped, and a batch of nothing writes nothing.
pub fn set_embeddings(
    graph: &mut DirGraph,
    node_type: &str,
    text_column: &str,
    metric: Option<&str>,
    entries: &Vec<NodeVector>,
) -> (result: Result<EmbeddingIngestReport, String>)
    requires
        old(graph).well_formed(),
    ensures
        final(graph).well_formed(),
        match prepared(*old(graph), node_type@, text_column@, None, batch_rows(entries@)) {
            Err(fault) => {
                &&& *final(graph) == *old(graph)
                &&& result matches Err(message) && message@ == fault
            },
            Ok(batch) => result matches Ok(report) && set_done(
                *old(graph),
                *final(graph),
                node_type@,
                text_column@,
                str_option(metric),
                batch,
                report,
            ),
        },
{
    let batch = match prepare(graph, node_type, text_column, None, entries) {
        Ok(batch) => batch,
        Err(message) => {
            return Err(message);
        },
    };
    let dimension: usize = match batch.dimension {
        Some(dimension) => dimension,
        None => {
            return Ok(
                EmbeddingIngestReport {
                    embeddings_stored: 0,
                    dimension: 0,
                    skipped: batch.skipped,
                    store_created: false,
                },
            );
        },
    };
    let ghost rows = batch_rows(entries@);
    let ghost moves = placed(batch.entries@, rows);
    let mut store = match metric {
        Some(name) => EmbeddingStore::with_metric(dimension, name),
        None => EmbeddingStore::new(dimension),
    };
    let mut i: usize = 0;
    while i < batch.entries.len()
        invariant
            i <= batch.entries@.len(),
            rows == batch_rows(entries@),
            moves == placed(batch.entries@, rows),
            places_fit(batch.entries@, rows, Some(dimension)),
            store.well_formed(),
            store@.dimension == dimension,
            store@ == written(empty_store(dimension, str_option(metric)), moves, i as nat),
        decreases batch.entries@.len() - i,
    {
        let (node, place) = batch.entries[i];
        assert(batch.entries@[i as int].1 < rows.len());
        assert(moves[i as int] == (node, rows[place as int].1));
        store.set_embedding(node.slot, entries[place].1.as_slice());
        i = i + 1;
    }
    let embeddings_stored: usize = store.len();
    graph.set_embedding_store(node_type, text_column, store);
    graph.bump_version();
    Ok(
        EmbeddingIngestReport {
            embeddings_stored,
            dimension,
            skipped: batch.skipped,
            store_created: true,
        },
    )
}

/// What an addition to a node store does and says.
pub open spec fn add_done(
    before: DirGraph,
    after: DirGraph,
    node_type: Text,
    text_column: Text,
    metric: Option<Text>,
    batch: PreparedModel,
    report: EmbeddingIngestReport,
) -> bool {
    let existing = lookup(before.embeddings@, node_type, store_name_of(text_column));
    match batch.dimension {
        None => after == before && report == nothing_ingested(batch.skipped as usize),
        Some(dimension) => {
            let base = match existing {
                Some(store) => store,
                None => empty_store(dimension, metric),
            };
            let store = StoreModel {
                model_id: None,
                ..added(base, batch.entries, batch.entries.len())
            };
            &&& node_store_written(
                before,
                after,
                node_type,
                text_column,
                store,
                EmbeddingWrite::Upsert,
                batch_slots(batch.entries),
            )
            &&& report == (EmbeddingIngestReport {
                embeddings_stored: store.nodes.len() as usize,
                dimension,
                skipped: batch.skipped as usize,
                store_created: existing is None,
            })
        },
    }
}

/// The dimension that a store sets.
pub open spec fn dimension_of(existing: Option<StoreModel>) -> Option<usize> {
    match existing {
        Some(store) => Some(store.dimension),
        None => None,
    }
}

/// Adds a batch to the store of a type and a column, which is made where there
/// is none. A vector of a node that has one takes its place; no model made
/// every vector from now on.
pub fn add_embeddings(
    graph: &mut DirGraph,
    node_type: &str,
    text_column: &str,
    metric: Option<&str>,
    entries: &Vec<NodeVector>,
) -> (result: Result<EmbeddingIngestReport, String>)
    requires
        old(graph).well_formed(),
    ensures
        final(graph).well_formed(),
        match prepared(
            *old(graph),
            node_type@,
            text_column@,
            dimension_of(
                lookup(old(graph).embeddings@, node_type@, store_name_of(text_column@)),
            ),
            batch_rows(entries@),
        ) {
            Err(fault) => {
                &&& *final(graph) == *old(graph)
                &&& result matches Err(message) && message@ == fault
            },
            Ok(batch) => result matches Ok(report) && add_done(
                *old(graph),
                *final(graph),
                node_type@,
                text_column@,
                str_option(metric),
                batch,
                report,
            ),
        },
{
    let name = store_name(text_column);
    let ghost before = *graph;
    let ghost existing = lookup(graph.embeddings@, node_type@, name@);
    let constraint: Option<usize> = match graph.embeddings.get(node_type, name.as_str()) {
        Some(store) => Some(store.dimension),
        None => None,
    };
    let batch = match prepare(graph, node_type, text_column, constraint, entries) {
        Ok(batch) => batch,
        Err(message) => {
            return Err(message);
        },
    };
    let dimension: usize = match batch.dimension {
        Some(dimension) => dimension,
        None => {
            return Ok(
                EmbeddingIngestReport {
                    embeddings_stored: 0,
                    dimension: 0,
                    skipped: batch.skipped,
                    store_created: false,
                },
            );
        },
    };
    let ghost rows = batch_rows(entries@);
    let ghost moves = placed(batch.entries@, rows);
    let mut store = match graph.embeddings.get(node_type, name.as_str()) {
        Some(held) => held.duplicate(),
        None => match metric {
            Some(name) => EmbeddingStore::with_metric(dimension, name),
            None => EmbeddingStore::new(dimension),
        },
    };
    let ghost base = store@;
    let mut slots: Vec<usize> = Vec::new();
    let mut i: usize = 0;
    while i < batch.entries.len()
        invariant
            i <= batch.entries@.len(),
            rows == batch_rows(entries@),
            moves == placed(batch.entries@, rows),
            places_fit(batch.entries@, rows, Some(dimension)),
            store.well_formed(),
            store@.dimension == dimension,
            store@ == added(base, moves, i as nat),
            slots@ == batch_slots(moves).take(i as int),
        decreases batch.entries@.len() - i,
    {
        let (node, place) = batch.entries[i];
        assert(batch.entries@[i as int].1 < rows.len());
        assert(moves[i as int] == (node, rows[place as int].1));
        store.set_embedding(node.slot, entries[place].1.as_slice());
        store.clear_text_hash(node.slot);
        slots.push(node.slot);
        assert(batch_slots(moves).take(i + 1) =~= batch_slots(moves).take(i as int).push(
            node.slot,
        ));
        i = i + 1;
    }
    assert(batch_slots(moves).take(i as int) =~= batch_slots(moves));
    store.model_id = None;
    let embeddings_stored: usize = store.len();
    let ghost made = store@;
    let _ = graph.embeddings.insert(node_type, name.as_str(), store);
    proof {
        store_names_read_back(text_column@);
        a_kept_store_is_found(before.embeddings@, node_type@, name@, made);
        node_names_stay(before, *graph, node_type@, name@, store);
    }
    graph.note_embedding_write(node_type, text_column, EmbeddingWrite::Upsert, slots);
    graph.bump_version();
    Ok(
        EmbeddingIngestReport {
            embeddings_stored,
            dimension,
            skipped: batch.skipped,
            store_created: constraint.is_none(),
        },
    )
}

} // verus!
