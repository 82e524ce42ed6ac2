//! What a statement that is rolled back leaves of the relationship stores,
//! however many writes it made.

use crate::carry_install::{filled, install_step, installed_upto};
use crate::carry_resolve::ResolvedModel;
use crate::catalog::{kept, lookup, EntryModel};
use crate::edge_delete::{delete_undo, document_entries, prune_undo, stores_without};
use crate::edge_generated::{generated_successor, install_done, WriteModel};
use crate::edge_replace::{drop_done, removal_done, replace_done};
use crate::edge_vector_index::{build_done, build_fault, index_drop_done, OptionsModel};
use crate::edge_writes::{entries_sound, upsert_dimension, upsert_done, EdgeEmbeddingWriteReport};
use crate::graph::{bumped, undo_of, undo_with, DirGraph};
use crate::names::store_name_of;
use crate::recording::UndoModel;
use crate::statement::{state_of, stores_after_undo, undoing_in_turn, undone};
use crate::store::{coherent, StoreModel};
use crate::text::Text;
use crate::text_index::TextStoreModel;
use crate::topology::typed_edges;
use crate::undo_laws::{
    a_build_can_be_undone, a_drop_can_be_undone, a_prune_can_be_undone, a_removal_can_be_undone,
    a_replacement_can_be_undone, an_index_drop_can_be_undone, an_upsert_can_be_undone, same_stores,
    stores_found, undone_alone,
};
use crate::value::EdgeIndex;
use vstd::prelude::*;

verus! {

/// One write that a statement can make.
pub enum StoreWrite {
    /// Vectors written by hand.
    Upsert {
        connection_type: Text,
        text_property: Text,
        entries: Seq<(EdgeIndex, Seq<u32>)>,
        metric: Option<Text>,
        report: EdgeEmbeddingWriteReport,
    },
    /// A store replaced as a whole.
    Replace {
        connection_type: Text,
        text_property: Text,
        store: StoreModel,
        affected: Seq<EdgeIndex>,
    },
    /// Vectors that a model made.
    Generate {
        connection_type: Text,
        text_property: Text,
        write: WriteModel,
        report: EdgeEmbeddingWriteReport,
    },
    /// Stores carried over from another graph.
    Carry { resolved: Seq<ResolvedModel> },
    /// Vectors removed.
    Remove { connection_type: Text, text_property: Text, edges: Seq<EdgeIndex> },
    /// A store dropped.
    Drop { connection_type: Text, text_property: Text },
    /// An index built.
    BuildIndex { connection_type: Text, text_property: Text, options: OptionsModel },
    /// An index dropped.
    DropIndex { connection_type: Text, text_property: Text },
    /// A relationship deleted.
    Delete { edge: EdgeIndex },
    /// Something written that is no vector: a relationship made, its properties
    /// written, a text index built or dropped.
    Elsewhere { noted: Seq<UndoModel> },
}

/// Whether undoing an entry leaves the relationship stores alone.
pub open spec fn spares_stores(entry: UndoModel) -> bool {
    entry is EdgeRemoved || entry is EdgePropertiesReplaced || entry is EdgeTextIndexReplaced
        || entry is EdgeTextDocPruned
}

/// Whether a write took a graph from one state to another, as the function that
/// makes it promises.
pub open spec fn wrote(write: StoreWrite, before: DirGraph, after: DirGraph) -> bool {
    let stores = before.edge_embeddings@;
    match write {
        StoreWrite::Upsert { connection_type, text_property, entries, metric, report } => {
            let existing = lookup(stores, connection_type, store_name_of(text_property));
            &&& entries.len() > 0
            &&& entries_sound(
                before.topology,
                connection_type,
                entries,
                upsert_dimension(existing, entries),
            )
            &&& existing is Some ==> existing->0.nodes.len() + entries.len() <= usize::MAX
            &&& upsert_done(before, after, connection_type, text_property, entries, metric, report)
        },
        StoreWrite::Replace { connection_type, text_property, store, affected } => replace_done(
            before,
            after,
            connection_type,
            text_property,
            store,
            affected,
        ),
        StoreWrite::Generate { connection_type, text_property, write, report } => install_done(
            before,
            after,
            connection_type,
            text_property,
            write,
            report,
        ),
        StoreWrite::Carry { resolved } => installed_upto(
            before,
            DirGraph { version: before.version, ..after },
            resolved,
            resolved.len(),
        ),
        StoreWrite::Remove { connection_type, text_property, edges } => {
            &&& kept(stores, connection_type, store_name_of(text_property))
            &&& removal_done(before, after, connection_type, text_property, edges)
        },
        StoreWrite::Drop { connection_type, text_property } => {
            &&& kept(stores, connection_type, store_name_of(text_property))
            &&& drop_done(before, after, connection_type, text_property)
        },
        StoreWrite::BuildIndex { connection_type, text_property, options } => {
            &&& build_fault(
                lookup(stores, connection_type, store_name_of(text_property)),
                connection_type,
                text_property,
                options,
            ) is None
            &&& build_done(before, after, connection_type, text_property, options)
        },
        StoreWrite::DropIndex { connection_type, text_property } => {
            &&& kept(stores, connection_type, store_name_of(text_property))
            &&& index_drop_done(before, after, connection_type, text_property)
        },
        StoreWrite::Delete { edge } => {
            &&& after.edge_embeddings@ == stores_without(stores, edge)
            &&& undo_of(after) == undo_with(undo_of(before), delete_undo(before, edge))
        },
        StoreWrite::Elsewhere { noted } => {
            &&& after.edge_embeddings@ == stores
            &&& undo_of(after) == undo_with(undo_of(before), noted)
            &&& forall|i: int| 0 <= i < noted.len() ==> spares_stores(#[trigger] noted[i])
        },
    }
}

proof fn spared(
    stores: Seq<EntryModel<StoreModel>>,
    entries: Seq<UndoModel>,
)
    requires
        forall|i: int| 0 <= i < entries.len() ==> spares_stores(#[trigger] entries[i]),
    ensures
        stores_after_undo(stores, entries) == stores,
    decreases entries.len(),
{
    if entries.len() > 0 {
        assert(spares_stores(entries[entries.len() - 1]));
        spared(stores, entries.drop_last());
    }
}

proof fn documents_spare_stores(
    texts: Seq<EntryModel<TextStoreModel>>,
    edge: EdgeIndex,
    count: nat,
)
    ensures
        forall|i: int|
            0 <= i < document_entries(texts, edge, count).len() ==> spares_stores(
                #[trigger] document_entries(texts, edge, count)[i],
            ),
    decreases count,
{
    if count > 0 {
        documents_spare_stores(texts, edge, (count - 1) as nat);
        let before = document_entries(texts, edge, (count - 1) as nat);
        let all = document_entries(texts, edge, count);
        assert forall|i: int| 0 <= i < all.len() implies spares_stores(#[trigger] all[i]) by {
            if i < before.len() {
                assert(all[i] == before[i]);
            }
        }
    }
}

/// Undoing the carry of stores from another graph gives the stores back.
pub proof fn a_carry_can_be_undone(
    before: DirGraph,
    after: DirGraph,
    resolved: Seq<ResolvedModel>,
    count: nat,
)
    requires
        undo_of(before) is Some,
        installed_upto(before, after, resolved, count),
    ensures
        undo_of(after) is Some,
        stores_found(after) == stores_found(before),
    decreases count,
{
    if count > 0 {
        let one = resolved[count - 1];
        let mid = choose|mid: DirGraph|
            installed_upto(before, mid, resolved, (count - 1) as nat) && #[trigger] install_step(
                mid,
                after,
                one,
            );
        a_carry_can_be_undone(before, mid, resolved, (count - 1) as nat);
        if one.members.len() > 0 {
            let versioned = DirGraph { version: bumped(mid.version), ..after };
            a_replacement_can_be_undone(
                mid,
                versioned,
                one.store.relationship_type,
                one.store.text_column,
                filled(one, one.members.len()),
                typed_edges(
                    mid.topology.edges@,
                    one.store.relationship_type,
                ),
            );
            assert(stores_found(versioned) == stores_found(after));
        }
    }
}

/// Undoing the deletion of a relationship gives the stores back.
proof fn a_deletion_gives_stores_back(before: DirGraph, after: DirGraph, edge: EdgeIndex)
    requires
        before.well_formed(),
        undo_of(before) is Some,
        wrote(StoreWrite::Delete { edge }, before, after),
    ensures
        stores_found(after) == stores_found(before),
{
    let stores = before.edge_embeddings@;
    let texts = before.edge_text_indexes@;
    let vectors = prune_undo(stores, edge);
    let documents = document_entries(texts, edge, texts.len());
    let removal = seq![UndoModel::EdgeRemoved { edge, record: before.topology.record(edge) }];
    let pruned = stores_without(stores, edge);
    undoing_in_turn(pruned, vectors + documents, removal);
    spared(pruned, removal);
    undoing_in_turn(pruned, vectors, documents);
    documents_spare_stores(texts, edge, texts.len());
    spared(pruned, documents);
    assert forall|i: int| 0 <= i < stores.len() implies coherent((#[trigger] stores[i]).store) by {
        before.edge_embeddings.entries@[i].store.numeric.is_coherent();
    }
    a_prune_can_be_undone(stores, edge);
    undone_alone(before, after, delete_undo(before, edge));
}

/// Whatever a statement writes, what it found can still be given back.
pub proof fn a_write_can_be_undone(write: StoreWrite, before: DirGraph, after: DirGraph)
    requires
        before.well_formed(),
        undo_of(before) is Some,
        wrote(write, before, after),
    ensures
        undo_of(after) is Some,
        same_stores(stores_found(after), stores_found(before)),
{
    match write {
        StoreWrite::Upsert { connection_type, text_property, entries, metric, report } => {
            an_upsert_can_be_undone(
                before,
                after,
                connection_type,
                text_property,
                entries,
                metric,
                report,
            );
        },
        StoreWrite::Replace { connection_type, text_property, store, affected } => {
            a_replacement_can_be_undone(
                before,
                after,
                connection_type,
                text_property,
                store,
                affected,
            );
        },
        StoreWrite::Generate { connection_type, text_property, write, report } => {
            if after != before {
                a_replacement_can_be_undone(
                    before,
                    after,
                    connection_type,
                    text_property,
                    generated_successor(
                        lookup(
                            before.edge_embeddings@,
                            connection_type,
                            store_name_of(text_property),
                        ),
                        write,
                    ),
                    write.affected,
                );
            }
        },
        StoreWrite::Carry { resolved } => {
            let same = DirGraph { version: before.version, ..after };
            a_carry_can_be_undone(before, same, resolved, resolved.len());
            assert(stores_found(same) == stores_found(after));
        },
        StoreWrite::Remove { connection_type, text_property, edges } => {
            a_removal_can_be_undone(before, after, connection_type, text_property, edges);
        },
        StoreWrite::Drop { connection_type, text_property } => {
            a_drop_can_be_undone(before, after, connection_type, text_property);
        },
        StoreWrite::BuildIndex { connection_type, text_property, options } => {
            a_build_can_be_undone(before, after, connection_type, text_property, options);
        },
        StoreWrite::DropIndex { connection_type, text_property } => {
            an_index_drop_can_be_undone(before, after, connection_type, text_property);
        },
        StoreWrite::Delete { edge } => {
            a_deletion_gives_stores_back(before, after, edge);
        },
        StoreWrite::Elsewhere { noted } => {
            spared(after.edge_embeddings@, noted);
            undone_alone(before, after, noted);
        },
    }
}

/// A statement that fails leaves every relationship store as it found it: the
/// vectors, hashes, model, metric and index under every key, whatever writes it
/// made and in whatever order.
pub proof fn a_failed_statement_changes_no_store(graphs: Seq<DirGraph>, writes: Seq<StoreWrite>)
    requires
        graphs.len() == writes.len() + 1,
        forall|i: int| 0 <= i < graphs.len() ==> (#[trigger] graphs[i]).well_formed(),
        undo_of(graphs[0]) == Some(Seq::<UndoModel>::empty()),
        forall|i: int|
            0 <= i < writes.len() ==> wrote(#[trigger] writes[i], graphs[i], graphs[i + 1]),
    ensures
        undo_of(graphs.last()) is Some,
        same_stores(
            undone(
                state_of(graphs.last()),
                graphs.last().topology.nodes@,
                undo_of(graphs.last())->0,
            ).stores,
            graphs[0].edge_embeddings@,
        ),
    decreases writes.len(),
{
    if writes.len() == 0 {
        assert(stores_found(graphs[0]) == graphs[0].edge_embeddings@);
    } else {
        let last = writes.len() - 1;
        let fewer = graphs.drop_last();
        assert forall|i: int| 0 <= i < fewer.len() implies (#[trigger] fewer[i]).well_formed() by {
            assert(graphs[i].well_formed());
        }
        assert forall|i: int| 0 <= i < writes.drop_last().len() implies wrote(
            #[trigger] writes.drop_last()[i],
            fewer[i],
            fewer[i + 1],
        ) by {
            assert(wrote(writes[i], graphs[i], graphs[i + 1]));
        }
        a_failed_statement_changes_no_store(fewer, writes.drop_last());
        assert(fewer.last() == graphs[last]);
        assert(graphs[last].well_formed());
        a_write_can_be_undone(writes[last], graphs[last], graphs[last + 1]);
        let before = stores_found(graphs[last]);
        let after = stores_found(graphs[last + 1]);
        assert forall|t: Text, n: Text| #[trigger] lookup(after, t, n) == lookup(
            graphs[0].edge_embeddings@,
            t,
            n,
        ) by {
            assert(lookup(after, t, n) == lookup(before, t, n));
        }
    }
}

} // verus!
