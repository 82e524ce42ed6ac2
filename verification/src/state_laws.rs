//! What is listed of indexes, and what leaves a graph and comes back.

use crate::carry::{extracted, extracted_stores, extraction_of, CarriedStoreModel};
use crate::carry_install::copy_resolution;
use crate::carry_resolve::resolution;
use crate::catalog::{lookup, EntryModel};
use crate::edge_text_indexes::{text_infos, TextInfoModel};
use crate::edge_vector_index::{edge_statuses, StatusModel, VectorIndexReport};
use crate::edge_writes::EdgeEmbeddingWriteReport;
use crate::freshness::outstanding;
use crate::graph::{members_or_none, DirGraph};
use crate::groups::RelationshipKeys;
use crate::metric::HnswParams;
use crate::ingest::ingest_report;
use crate::name_pairs::{keys_on, stores_on};
use crate::names::{column_of, store_name_of};
use crate::node_carry::{carried_count, vectors_carried, vectors_in};
use crate::node_index::{node_drop_declaration, node_report, node_statuses};
use crate::node_ingest::{prepared, prepared_upto, source_fault};
use crate::query_laws::{every_column_with_a_store_is_listed, every_store_is_listed};
use crate::snapshot::{snapshot_refused, takes_store, DecodedModel};
use crate::store::{delta_of, StoreModel};
use crate::suggest::folded;
use crate::text::Text;
use crate::topology::{typed_edges, Topology};
use crate::value::ValueModel;
use vstd::prelude::*;

verus! {

/// Every text index is listed once, by type and then by property, with the number of
/// its documents and of the relationships that it has still to read.
pub proof fn every_text_index_is_listed(graph: DirGraph, rel_type: Text, property: Text)
    ensures
        ({
            let listed = text_infos(graph);
            let index = lookup(graph.edge_text_indexes@, rel_type, property);
            &&& listed.len() == keys_on(graph.edge_text_indexes@).len()
            &&& index is Some ==> listed.contains(
                TextInfoModel {
                    rel_type,
                    property,
                    documents: index->0.docs.dom().len(),
                    delta: outstanding(index->0.freshness, graph.topology.edges@.len()),
                },
            )
            &&& forall|i: int|
                0 <= i < listed.len() ==> ((#[trigger] listed[i]).rel_type, listed[i].property)
                    == keys_on(graph.edge_text_indexes@)[i]
        }),
{
    let keys = keys_on(graph.edge_text_indexes@);
    every_store_is_listed(graph.edge_text_indexes@, rel_type, property);
    if lookup(graph.edge_text_indexes@, rel_type, property) is Some {
        let i = keys.index_of((rel_type, property));
        assert(text_infos(graph)[i].rel_type == rel_type);
    }
}

/// Every relationship store is told of once, by type and then by column: whether it
/// has an index, how much is outstanding in it, and how many relationships of the
/// type have no vector.
pub proof fn every_relationship_index_is_told_of(
    graph: DirGraph,
    connection_type: Text,
    column: Text,
)
    requires
        forall|i: int|
            0 <= i < graph.edge_embeddings@.len() ==> column_of(
                (#[trigger] graph.edge_embeddings@[i]).name,
            ) is Some,
    ensures
        ({
            let told = edge_statuses(graph);
            let store = lookup(graph.edge_embeddings@, connection_type, store_name_of(column));
            let members = typed_edges(graph.topology.edges@, connection_type).len();
            &&& told.len() == stores_on(graph.edge_embeddings@).len()
            &&& store is Some ==> told.contains(
                StatusModel {
                    owner_type: connection_type,
                    text_column: column,
                    built: store->0.index is Some,
                    stale: delta_of(store->0) > 0,
                    delta: delta_of(store->0),
                    unembedded: if members > store->0.nodes.len() {
                        (members - store->0.nodes.len()) as nat
                    } else {
                        0
                    },
                },
            )
            &&& forall|i: int|
                0 <= i < told.len() ==> ((#[trigger] told[i]).owner_type, told[i].text_column)
                    == stores_on(graph.edge_embeddings@)[i]
        }),
{
    let pairs = stores_on(graph.edge_embeddings@);
    every_column_with_a_store_is_listed(graph.edge_embeddings@, connection_type, column);
    if lookup(graph.edge_embeddings@, connection_type, store_name_of(column)) is Some {
        let i = pairs.index_of((connection_type, column));
        assert(edge_statuses(graph)[i].owner_type == connection_type);
    }
}

/// Every node store is told of once, by type and then by column. Without an index
/// all of its vectors are outstanding.
pub proof fn every_node_index_is_told_of(graph: DirGraph, node_type: Text, column: Text)
    requires
        forall|i: int|
            0 <= i < graph.embeddings@.len() ==> column_of((#[trigger] graph.embeddings@[i]).name)
                is Some,
    ensures
        ({
            let told = node_statuses(graph);
            let store = lookup(graph.embeddings@, node_type, store_name_of(column));
            let members = members_or_none(graph.node_types@, node_type).len();
            &&& told.len() == stores_on(graph.embeddings@).len()
            &&& store is Some ==> told.contains(
                StatusModel {
                    owner_type: node_type,
                    text_column: column,
                    built: store->0.index is Some,
                    stale: delta_of(store->0) > 0,
                    delta: if store->0.index is Some {
                        delta_of(store->0)
                    } else {
                        store->0.nodes.len()
                    },
                    unembedded: if members > store->0.nodes.len() {
                        (members - store->0.nodes.len()) as nat
                    } else {
                        0
                    },
                },
            )
            &&& forall|i: int|
                0 <= i < told.len() ==> ((#[trigger] told[i]).owner_type, told[i].text_column)
                    == stores_on(graph.embeddings@)[i]
        }),
{
    let pairs = stores_on(graph.embeddings@);
    every_column_with_a_store_is_listed(graph.embeddings@, node_type, column);
    if lookup(graph.embeddings@, node_type, store_name_of(column)) is Some {
        let i = pairs.index_of((node_type, column));
        assert(node_statuses(graph)[i].owner_type == node_type);
    }
}

/// An index that was built is reported with the number of vectors that it covers and
/// the neighbours that it was built with.
pub proof fn a_build_reports_what_it_covers(
    report: VectorIndexReport,
    store: StoreModel,
    params: HnswParams,
    metric: Option<Text>,
)
    requires
        node_report(report, store, params, metric),
    ensures
        report.indexed == store.nodes.len(),
        report.m == params.m,
        report.metric@ == match metric {
            Some(asked) => asked,
            None => match store.metric {
                Some(own) => own,
                None => "cosine"@,
            },
        },
{
}

/// Dropping an index of nodes is recorded as that, with nothing of how it was built.
pub proof fn a_dropped_node_index_is_recorded(node_type: Text, text_column: Text)
    ensures
        ({
            let dropped = node_drop_declaration(node_type, text_column);
            &&& !dropped.relationship
            &&& !dropped.present
            &&& dropped.owner_type == node_type
            &&& dropped.text_column == text_column
            &&& dropped.metric is None && dropped.m is None && dropped.ef_construction is None
                && dropped.ef_search is None && dropped.auto_refresh_limit is None
        }),
{
}

/// A batch of relationship vectors is reported as its write was.
pub proof fn a_batch_is_reported_as_it_was_written(report: EdgeEmbeddingWriteReport)
    ensures
        ingest_report(report).stored == report.stored,
        ingest_report(report).dimension == report.dimension,
        ingest_report(report).changed == report.changed,
        ingest_report(report).store_created == report.store_created,
{
}

/// A batch of node vectors is refused for a type that is not there and, where it has
/// rows, for a column that is not. Nothing else but a row refuses it, and where no
/// row has a node it has no dimension.
pub proof fn a_node_batch_is_for_a_type_and_a_column(
    graph: DirGraph,
    node_type: Text,
    text_column: Text,
    constraint: Option<usize>,
    rows: Seq<(ValueModel, Seq<u32>)>,
)
    ensures
        ({
            let batch = prepared(graph, node_type, text_column, constraint, rows);
            let read = prepared_upto(graph, node_type, constraint, rows, rows.len());
            let there = crate::graph::members_of(graph.node_types@, node_type) is Some;
            let column = source_fault(graph, node_type, text_column) is None;
            &&& batch is Ok <==> there && (rows.len() == 0 || column) && read is Ok
            &&& there && rows.len() > 0 && !column ==> batch->Err_0 == source_fault(
                graph,
                node_type,
                text_column,
            )->0
            &&& batch is Ok ==> batch->Ok_0.entries == read->Ok_0.entries
            &&& batch is Ok && read->Ok_0.entries.len() == 0 ==> batch->Ok_0.dimension is None
            &&& batch is Ok && read->Ok_0.entries.len() > 0 ==> batch->Ok_0.dimension
                == read->Ok_0.dimension
        }),
{
}

proof fn stores_leave_in_order(
    graph: DirGraph,
    pairs: Seq<(Text, Text)>,
    keys: RelationshipKeys,
    count: nat,
)
    requires
        count <= pairs.len(),
    ensures
        ({
            let left = extracted_stores(graph, pairs, keys, count);
            let one = |i: int|
                extracted(
                    graph.topology,
                    pairs[i].0,
                    pairs[i].1,
                    lookup(graph.edge_embeddings@, pairs[i].0, pairs[i].1)->0,
                    keys.property_of(pairs[i].0),
                );
            &&& left is Ok <==> forall|i: int| 0 <= i < count ==> (#[trigger] one(i)) is Ok
            &&& left is Ok ==> left->Ok_0.len() == count && forall|i: int|
                0 <= i < count ==> one(i) == Ok::<CarriedStoreModel, Text>(
                    #[trigger] left->Ok_0[i],
                )
        }),
    decreases count,
{
    let one = |i: int|
        extracted(
            graph.topology,
            pairs[i].0,
            pairs[i].1,
            lookup(graph.edge_embeddings@, pairs[i].0, pairs[i].1)->0,
            keys.property_of(pairs[i].0),
        );
    if count > 0 {
        stores_leave_in_order(graph, pairs, keys, (count - 1) as nat);
        assert(one(count - 1) is Ok || one(count - 1) is Err);
    }
}

/// Every relationship store leaves a graph, or none does: a store that cannot leave
/// keeps the others. Those that leave come by type and then by name.
pub proof fn every_store_leaves_or_none(
    graph: DirGraph,
    keys: RelationshipKeys,
    connection_type: Text,
    name: Text,
)
    ensures
        ({
            let left = extraction_of(graph, keys);
            let store = lookup(graph.edge_embeddings@, connection_type, name);
            let one = extracted(
                graph.topology,
                connection_type,
                name,
                store->0,
                keys.property_of(connection_type),
            );
            &&& store is Some && one is Err ==> left is Err
            &&& store is Some && left is Ok ==> one is Ok && left->Ok_0.contains(one->Ok_0)
            &&& left is Ok ==> left->Ok_0.len() == keys_on(graph.edge_embeddings@).len()
        }),
{
    let pairs = keys_on(graph.edge_embeddings@);
    let left = extraction_of(graph, keys);
    stores_leave_in_order(graph, pairs, keys, pairs.len());
    every_store_is_listed(graph.edge_embeddings@, connection_type, name);
    if lookup(graph.edge_embeddings@, connection_type, name) is Some {
        let i = pairs.index_of((connection_type, name));
        let one = |i: int|
            extracted(
                graph.topology,
                pairs[i].0,
                pairs[i].1,
                lookup(graph.edge_embeddings@, pairs[i].0, pairs[i].1)->0,
                keys.property_of(pairs[i].0),
            );
        assert(one(i) is Ok || one(i) is Err);
        if left is Ok {
            assert(left->Ok_0[i] == one(i)->Ok_0);
        }
    }
}

/// A copy of relationship vectors finds what the stores that leave the one graph find
/// in the other.
pub proof fn a_copy_finds_what_leaves(dst: DirGraph, src: DirGraph, keys: RelationshipKeys)
    ensures
        extraction_of(src, keys) is Ok ==> copy_resolution(dst, src, keys) == resolution(
            dst,
            extraction_of(src, keys)->Ok_0,
            keys,
        ),
        extraction_of(src, keys) is Err ==> copy_resolution(dst, src, keys) is Err
            && copy_resolution(dst, src, keys)->Err_0 == extraction_of(src, keys)->Err_0,
{
}

/// The vectors of some stores are those of each of them, and so are those that are
/// carried.
pub proof fn vectors_are_counted_by_store(dst: DirGraph, src: DirGraph, count: nat)
    requires
        count <= src.embeddings@.len(),
    ensures
        vectors_in(src.embeddings@, count) == src.embeddings@.take(count as int).fold_left(
            0nat,
            |sum: nat, entry: EntryModel<StoreModel>| sum + entry.store.nodes.len(),
        ),
        vectors_carried(dst, src, count) == src.embeddings@.take(count as int).fold_left(
            0nat,
            |sum: nat, entry: EntryModel<StoreModel>|
                sum + carried_count(dst, src, entry.owner_type, entry.store),
        ),
    decreases count,
{
    let head = src.embeddings@.take(count as int);
    if count > 0 {
        vectors_are_counted_by_store(dst, src, (count - 1) as nat);
        assert(head.drop_last() =~= src.embeddings@.take(count - 1));
        assert(head.last() == src.embeddings@[count - 1]);
    }
}

/// Kept stores are refused only where there is none, or where one of them is not
/// taken: what a graph takes is not refused.
pub proof fn what_is_taken_is_not_refused(
    topology: Topology,
    decoded: Seq<DecodedModel>,
    message: Text,
)
    requires
        snapshot_refused(topology, decoded, message),
    ensures
        decoded.len() == 0 || exists|i: int|
            0 <= i < decoded.len() && !takes_store(topology, #[trigger] decoded[i]),
{
    if decoded.len() > 0 {
        let (i, fault) = choose|i: int, fault: Text| #[trigger]
            crate::snapshot::refused_at(topology, decoded, i, fault) && message == "store '"@
                + decoded[i].relationship_type + "."@ + decoded[i].property + "' is invalid: "@
                + fault;
        assert(!takes_store(topology, decoded[i]));
    }
}

/// A letter of the alphabet is told apart by no case, and every other one by itself.
pub proof fn letters_have_no_case(c: char)
    ensures
        65 <= c as u32 <= 90 ==> folded(c) as u32 == c as u32 + 32,
        !(65 <= c as u32 <= 90) ==> folded(c) == c,
        folded(folded(c)) == folded(c),
{
}

} // verus!
