//! Writing relationship vectors that are named by their endpoints.

use crate::address::{resolve_row, row_resolved, DefaultEndpoints, RelationshipVector, RowModel};
use crate::carried::{carried_fault, require_carried};
use crate::catalog::lookup;
use crate::edge_log::{describe_relationship, relationship_text};
use crate::edge_read::copy_numbers;
use crate::edge_replace::{
    replace_done, replace_edge_embeddings_listed, replace_fault, store_of_entries,
};
use crate::edge_writes::{
    entry_models, nothing_written, upsert_done, upsert_edge_embeddings_listed, upsert_fault,
    EdgeEmbeddingWriteReport, EdgeVector,
};
use crate::fx::{fx_keep, fx_map};
use crate::graph::DirGraph;
use crate::groups::RelationshipKeys;
use crate::names::store_name_of;
use crate::text::{decimal, push_number, str_option, Text};
use crate::topology::{typed_edges, Topology};
use crate::value::EdgeIndex;
use vstd::prelude::*;

verus! {

/// What a write of relationship vectors did.
#[derive(Debug, Clone, Copy, PartialEq, Eq)]
pub struct RelationshipIngestReport {
    /// The vectors in the store after the call.
    pub stored: usize,
    /// The store's dimension; zero for an empty batch.
    pub dimension: usize,
    /// The rows that changed a cell.
    pub changed: usize,
    /// Whether the call made the store.
    pub store_created: bool,
}

/// The report of a store write.
pub open spec fn ingest_report(report: EdgeEmbeddingWriteReport) -> RelationshipIngestReport {
    RelationshipIngestReport {
        stored: report.stored,
        dimension: report.dimension,
        changed: report.changed,
        store_created: report.store_created,
    }
}

impl Default for RelationshipIngestReport {
    fn default() -> (report: RelationshipIngestReport)
        ensures
            report == ingest_report(nothing_written()),
    {
        RelationshipIngestReport { stored: 0, dimension: 0, changed: 0, store_created: false }
    }
}

fn report_from(report: EdgeEmbeddingWriteReport) -> (out: RelationshipIngestReport)
    ensures
        out == ingest_report(report),
{
    RelationshipIngestReport {
        stored: report.stored,
        dimension: report.dimension,
        changed: report.changed,
        store_created: report.store_created,
    }
}

/// What rows say.
pub open spec fn row_models(rows: Seq<RelationshipVector>) -> Seq<RowModel> {
    Seq::new(rows.len(), |i: int| rows[i]@)
}

/// What a row is called in a refusal.
pub open spec fn row_prefix(position: nat) -> Text {
    "rows["@ + decimal(position) + "] "@
}

/// The refusal of two rows that name the same relationship.
pub open spec fn both_text(topology: Topology, edge: EdgeIndex, first: nat, second: nat) -> Text {
    "rows["@ + decimal(first) + "] and rows["@ + decimal(second) + "] both name relationship "@
        + relationship_text(topology, edge) + "; give each relationship one row"@
}

/// The relationships that the first `count` rows name, or the first refusal.
pub open spec fn rows_resolved(
    graph: DirGraph,
    relationship_type: Text,
    key_property: Option<Text>,
    rows: Seq<RowModel>,
    count: nat,
) -> Result<Seq<EdgeIndex>, Text>
    decreases count,
{
    if count == 0 {
        Ok(Seq::empty())
    } else {
        match rows_resolved(graph, relationship_type, key_property, rows, (count - 1) as nat) {
            Err(message) => Err(message),
            Ok(edges) => match row_resolved(
                graph,
                relationship_type,
                key_property,
                rows[count - 1],
                row_prefix((count - 1) as nat),
            ) {
                Err(message) => Err(message),
                Ok(edge) => if edges.contains(edge) {
                    Err(
                        both_text(
                            graph.topology,
                            edge,
                            edges.index_of(edge) as nat,
                            (count - 1) as nat,
                        ),
                    )
                } else {
                    Ok(edges.push(edge))
                },
            },
        }
    }
}

/// One more row resolved.
proof fn next_resolved(
    graph: DirGraph,
    relationship_type: Text,
    key_property: Option<Text>,
    rows: Seq<RowModel>,
    count: nat,
    edges: Seq<EdgeIndex>,
    step: Result<EdgeIndex, Text>,
)
    requires
        rows_resolved(graph, relationship_type, key_property, rows, count) == Ok::<
            Seq<EdgeIndex>,
            Text,
        >(edges),
        step == row_resolved(
            graph,
            relationship_type,
            key_property,
            rows[count as int],
            row_prefix(count),
        ),
    ensures
        rows_resolved(graph, relationship_type, key_property, rows, count + 1) == match step {
            Err(message) => Err::<Seq<EdgeIndex>, Text>(message),
            Ok(edge) => if edges.contains(edge) {
                Err(both_text(graph.topology, edge, edges.index_of(edge) as nat, count))
            } else {
                Ok(edges.push(edge))
            },
        },
{
}

proof fn resolved_so_far(
    graph: DirGraph,
    relationship_type: Text,
    key_property: Option<Text>,
    rows: Seq<RowModel>,
    count: nat,
    upto: nat,
)
    requires
        count <= upto,
    ensures
        rows_resolved(graph, relationship_type, key_property, rows, count) is Err
            ==> rows_resolved(graph, relationship_type, key_property, rows, upto)
            == rows_resolved(graph, relationship_type, key_property, rows, count),
    decreases upto - count,
{
    if count < upto {
        resolved_so_far(graph, relationship_type, key_property, rows, count, (upto - 1) as nat);
    }
}

/// The batch that rows make.
pub open spec fn row_entries(edges: Seq<EdgeIndex>, rows: Seq<RowModel>) -> Seq<
    (EdgeIndex, Seq<u32>),
> {
    Seq::new(edges.len(), |i: int| (edges[i], rows[i].vector))
}

/// Resolves every row to the relationship it names; the first row that names
/// none, several, or one that is taken is refused.
fn resolve_rows(
    graph: &DirGraph,
    relationship_type: &str,
    rows: &Vec<RelationshipVector>,
    keys: &RelationshipKeys,
) -> (result: Result<Vec<EdgeVector>, String>)
    requires
        graph.well_formed(),
    ensures
        match result {
            Ok(entries) => {
                let all = rows_resolved(
                    *graph,
                    relationship_type@,
                    keys.property_of(relationship_type@),
                    row_models(rows@),
                    rows@.len(),
                );
                &&& all is Ok
                &&& entry_models(entries@) == row_entries(all->Ok_0, row_models(rows@))
            },
            Err(message) => rows_resolved(
                *graph,
                relationship_type@,
                keys.property_of(relationship_type@),
                row_models(rows@),
                rows@.len(),
            ) == Err::<Seq<EdgeIndex>, Text>(message@),
        },
{
    let mut any_untyped = false;
    let mut n: usize = 0;
    while n < rows.len()
        invariant
            n <= rows@.len(),
            any_untyped == exists|k: int|
                0 <= k < n && ((#[trigger] rows@[k]).source_type is None || rows@[k].target_type
                    is None),
        decreases rows@.len() - n,
    {
        if rows[n].source_type.is_none() || rows[n].target_type.is_none() {
            any_untyped = true;
            assert(rows@[n as int].source_type is None || rows@[n as int].target_type is None);
        }
        n = n + 1;
    }
    let defaults: Option<DefaultEndpoints> = if any_untyped {
        Some(DefaultEndpoints::scan(graph, relationship_type))
    } else {
        None
    };
    let key_property = keys.get(relationship_type);
    let ghost property = keys.property_of(relationship_type@);
    let ghost models = row_models(rows@);
    let ghost mut edges: Seq<EdgeIndex> = Seq::empty();
    let mut claimed = fx_map();
    let mut entries: Vec<EdgeVector> = Vec::new();
    let mut i: usize = 0;
    while i < rows.len()
        invariant
            i <= rows@.len(),
            graph.well_formed(),
            str_option(key_property) == property,
            property == keys.property_of(relationship_type@),
            models == row_models(rows@),
            defaults is Some ==> defaults->0.of(*graph, relationship_type@),
            defaults is None ==> forall|k: int|
                0 <= k < rows@.len() ==> (#[trigger] rows@[k]).source_type is Some
                    && rows@[k].target_type is Some,
            rows_resolved(*graph, relationship_type@, property, models, i as nat) == Ok::<
                Seq<EdgeIndex>,
                Text,
            >(edges),
            edges.len() == i,
            edges.no_duplicates(),
            entries@.len() == i,
            forall|k: int|
                0 <= k < i ==> (#[trigger] entries@[k]).0 == edges[k] && entries@[k].1@
                    == models[k].vector,
            forall|k: int|
                0 <= k < i ==> claimed@.contains_key((#[trigger] edges[k]).slot)
                    && claimed@[edges[k].slot] == k,
            forall|s: usize|
                #[trigger] claimed@.contains_key(s) ==> claimed@[s] < i
                    && edges[claimed@[s] as int].slot == s,
        decreases rows@.len() - i,
    {
        proof {
            resolved_so_far(
                *graph,
                relationship_type@,
                property,
                models,
                (i + 1) as nat,
                rows@.len(),
            );
        }
        let mut prefix = "rows[".to_owned();
        push_number(&mut prefix, i);
        prefix.append("] ");
        assert(prefix@ == row_prefix(i as nat));
        assert(models[i as int] == rows@[i as int]@);
        let ghost step = row_resolved(
            *graph,
            relationship_type@,
            property,
            models[i as int],
            row_prefix(i as nat),
        );
        proof {
            next_resolved(*graph, relationship_type@, property, models, i as nat, edges, step);
        }
        let edge = match resolve_row(
            graph,
            relationship_type,
            key_property,
            &rows[i],
            prefix.as_str(),
            match &defaults {
                Some(d) => Some(d),
                None => None,
            },
        ) {
            Ok(edge) => edge,
            Err(message) => {
                return Err(message);
            },
        };
        if let Some(first) = fx_keep(&mut claimed, edge.slot, i) {
            proof {
                assert(edges[first as int] == edge);
                assert(edges.contains(edge));
                let at = edges.index_of(edge);
                assert(edges[at] == edge);
                assert(at == first);
            }
            let mut message = "rows[".to_owned();
            push_number(&mut message, first);
            message.append("] and rows[");
            push_number(&mut message, i);
            message.append("] both name relationship ");
            let described = describe_relationship(graph, edge);
            message.append(described.as_str());
            message.append("; give each relationship one row");
            return Err(message);
        }
        proof {
            if edges.contains(edge) {
                let at = edges.index_of(edge);
                assert(edges[at] == edge);
            }
            edges = edges.push(edge);
        }
        entries.push((edge, copy_numbers(rows[i].vector.as_slice())));
        i = i + 1;
    }
    assert(entry_models(entries@) =~= row_entries(edges, models));
    Ok(entries)
}

/// Why a batch is refused before its vectors are looked at.
pub open spec fn batch_fault(
    graph: DirGraph,
    relationship_type: Text,
    text_column: Text,
    key_property: Option<Text>,
    rows: Seq<RowModel>,
) -> Option<Text> {
    match carried_fault(graph, "column"@, relationship_type, text_column) {
        Some(message) => Some(message),
        None => match rows_resolved(graph, relationship_type, key_property, rows, rows.len()) {
            Err(message) => Some(message),
            Ok(_) => None,
        },
    }
}

/// The batch that rows make, where they are not refused.
pub open spec fn batch_entries(
    graph: DirGraph,
    relationship_type: Text,
    key_property: Option<Text>,
    rows: Seq<RowModel>,
) -> Seq<(EdgeIndex, Seq<u32>)> {
    row_entries(
        rows_resolved(graph, relationship_type, key_property, rows, rows.len())->Ok_0,
        rows,
    )
}

proof fn as_many_entries(
    graph: DirGraph,
    relationship_type: Text,
    key_property: Option<Text>,
    rows: Seq<RowModel>,
    count: nat,
)
    ensures
        match rows_resolved(graph, relationship_type, key_property, rows, count) {
            Ok(edges) => edges.len() == count,
            Err(_) => true,
        },
    decreases count,
{
    if count > 0 {
        as_many_entries(graph, relationship_type, key_property, rows, (count - 1) as nat);
    }
}

/// Resolves a batch to the relationships it names.
fn resolve_batch(
    graph: &DirGraph,
    relationship_type: &str,
    text_column: &str,
    rows: &Vec<RelationshipVector>,
    keys: &RelationshipKeys,
) -> (result: Result<Vec<EdgeVector>, String>)
    requires
        graph.well_formed(),
    ensures
        match result {
            Ok(entries) => {
                let property = keys.property_of(relationship_type@);
                &&& batch_fault(
                    *graph,
                    relationship_type@,
                    text_column@,
                    property,
                    row_models(rows@),
                ) is None
                &&& entry_models(entries@) == batch_entries(
                    *graph,
                    relationship_type@,
                    property,
                    row_models(rows@),
                )
                &&& entries@.len() == rows@.len()
            },
            Err(message) => batch_fault(
                *graph,
                relationship_type@,
                text_column@,
                keys.property_of(relationship_type@),
                row_models(rows@),
            ) == Some(message@),
        },
{
    match require_carried(graph, "column", relationship_type, text_column) {
        Ok(_) => {},
        Err(message) => {
            return Err(message);
        },
    }
    proof {
        as_many_entries(
            *graph,
            relationship_type@,
            keys.property_of(relationship_type@),
            row_models(rows@),
            rows@.len(),
        );
    }
    match resolve_rows(graph, relationship_type, rows, keys) {
        Ok(entries) => {
            assert(entry_models(entries@).len() == rows@.len());
            Ok(entries)
        },
        Err(message) => Err(message),
    }
}

/// Replaces a relationship store with the rows. A store that was there goes,
/// with its metric, its model and its index. A row that does not name exactly
/// one relationship is refused, and nothing is written; so is a text column
/// that no relationship of the type carries, unless its store exists.
pub fn set_relationship_embeddings(
    graph: &mut DirGraph,
    relationship_type: &str,
    text_column: &str,
    rows: &Vec<RelationshipVector>,
    keys: &RelationshipKeys,
    metric: Option<&str>,
) -> (result: Result<RelationshipIngestReport, String>)
    requires
        old(graph).well_formed(),
    ensures
        final(graph).well_formed(),
        ({
            let property = keys.property_of(relationship_type@);
            let models = row_models(rows@);
            let fault = batch_fault(
                *old(graph),
                relationship_type@,
                text_column@,
                property,
                models,
            );
            let entries = batch_entries(*old(graph), relationship_type@, property, models);
            let refused = if fault is Some {
                fault
            } else {
                replace_fault(
                    old(graph).topology,
                    relationship_type@,
                    entries,
                    str_option(metric),
                    "rows"@,
                )
            };
            match result {
                Ok(report) => if rows@.len() == 0 {
                    *final(graph) == *old(graph) && report == ingest_report(nothing_written())
                } else {
                    &&& refused is None
                    &&& replace_done(
                        *old(graph),
                        *final(graph),
                        relationship_type@,
                        text_column@,
                        store_of_entries(
                            entries[0].1.len() as usize,
                            str_option(metric),
                            entries,
                        ),
                        typed_edges(old(graph).topology.edges@, relationship_type@),
                    )
                    &&& report == (RelationshipIngestReport {
                        stored: rows@.len() as usize,
                        dimension: entries[0].1.len() as usize,
                        changed: rows@.len() as usize,
                        store_created: true,
                    })
                },
                Err(message) => {
                    &&& rows@.len() > 0
                    &&& *final(graph) == *old(graph)
                    &&& refused == Some(message@)
                },
            }
        }),
{
    if rows.len() == 0 {
        return Ok(RelationshipIngestReport::default());
    }
    let entries = match resolve_batch(graph, relationship_type, text_column, rows, keys) {
        Ok(entries) => entries,
        Err(message) => {
            return Err(message);
        },
    };
    assert(entry_models(entries@)[0].1 == entries@[0].1@);
    match replace_edge_embeddings_listed(
        graph,
        relationship_type,
        text_column,
        &entries,
        metric,
        "rows",
    ) {
        Ok(report) => Ok(report_from(report)),
        Err(message) => Err(message),
    }
}

/// Writes the rows into a relationship store, and makes it where it is not
/// there. The relationships that no row names keep their vectors, and an index
/// stays, with the rows outstanding. Rows are refused as by
/// [`set_relationship_embeddings`].
pub fn add_relationship_embeddings(
    graph: &mut DirGraph,
    relationship_type: &str,
    text_column: &str,
    rows: &Vec<RelationshipVector>,
    keys: &RelationshipKeys,
    metric: Option<&str>,
) -> (result: Result<RelationshipIngestReport, String>)
    requires
        old(graph).well_formed(),
    ensures
        final(graph).well_formed(),
        ({
            let property = keys.property_of(relationship_type@);
            let models = row_models(rows@);
            let fault = batch_fault(
                *old(graph),
                relationship_type@,
                text_column@,
                property,
                models,
            );
            let entries = batch_entries(*old(graph), relationship_type@, property, models);
            let refused = if fault is Some {
                fault
            } else {
                upsert_fault(
                    old(graph).topology,
                    relationship_type@,
                    lookup(
                        old(graph).edge_embeddings@,
                        relationship_type@,
                        store_name_of(text_column@),
                    ),
                    entries,
                    str_option(metric),
                    "rows"@,
                )
            };
            match result {
                Ok(report) => if rows@.len() == 0 {
                    *final(graph) == *old(graph) && report == ingest_report(nothing_written())
                } else {
                    &&& refused is None
                    &&& exists|written: EdgeEmbeddingWriteReport|
                        report == #[trigger] ingest_report(written) && upsert_done(
                            *old(graph),
                            *final(graph),
                            relationship_type@,
                            text_column@,
                            entries,
                            str_option(metric),
                            written,
                        )
                },
                Err(message) => {
                    &&& rows@.len() > 0
                    &&& *final(graph) == *old(graph)
                    &&& refused == Some(message@)
                },
            }
        }),
{
    if rows.len() == 0 {
        return Ok(RelationshipIngestReport::default());
    }
    let entries = match resolve_batch(graph, relationship_type, text_column, rows, keys) {
        Ok(entries) => entries,
        Err(message) => {
            return Err(message);
        },
    };
    match upsert_edge_embeddings_listed(
        graph,
        relationship_type,
        text_column,
        &entries,
        metric,
        "rows",
    ) {
        Ok(report) => Ok(report_from(report)),
        Err(message) => Err(message),
    }
}

} // verus!
