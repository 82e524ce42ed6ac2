//! What every write leaves for a log, and what comes of asking a model.

use crate::carry_install::{carry_installed, install_step, stores_kept};
use crate::carry_resolve::ResolvedModel;
use crate::catalog::{a_kept_store_is_found, lookup, with_entry};
use crate::edge_log::bases_before;
use crate::edge_replace::replace_done;
use crate::edge_vector_index::{build_done, index_drop_done, OptionsModel};
use crate::edge_writes::{changed_slots, edges_within, upsert_done, EdgeEmbeddingWriteReport};
use crate::embed::{EmbedCalls, EmbedHooks, EmbedMode, Embedder, ErrorModel, Interrupt};
use crate::generation::{
    batch_refused, generation_fault, pass_fails, texts_pending, RequestModel,
};
use crate::generation_plan::PendingModel;
use crate::graph::{group_of, recorded, undo_of, DirGraph};
use crate::model_calls::{answered, batch_end, replies, ModelCall};
use crate::names::store_name_of;
use crate::node_embed::property_embedded;
use crate::node_ingest::{add_done, set_done, EmbeddingIngestReport, PreparedModel};
use crate::recording::{EmbeddingWrite, OpModel};
use crate::store::StoreModel;
use crate::text::{text_option, Text};
use crate::topology::Topology;
use crate::value::EdgeIndex;
use vstd::prelude::*;

verus! {

/// A version that moved on by one, starting again after the last one.
pub open spec fn moved_on(before: u64, after: u64) -> bool {
    if before == u64::MAX {
        after == 0
    } else {
        after == before + 1
    }
}

/// A log says that a relationship store was written, after the bases of what it held
/// before, and names each relationship of the write with its whole group.
pub open spec fn logged(
    before: DirGraph,
    after: DirGraph,
    connection_type: Text,
    text_property: Text,
    bases: Seq<OpModel>,
    edges: Seq<EdgeIndex>,
) -> bool {
    &&& recorded(before) is None ==> recorded(after) is None
    &&& recorded(before) is Some ==> {
        let was = recorded(before)->0.ops;
        let from = was.len() + bases.len();
        &&& recorded(after) is Some
        &&& recorded(after)->0.base_capture
        &&& recorded(after)->0.ops.len() == from + 1 + edges.len()
        &&& recorded(after)->0.ops.take(from as int) == was + bases
        &&& recorded(after)->0.ops[from as int] == (OpModel::EdgeEmbeddingStore {
            conn_type: connection_type,
            text_column: text_property,
        })
        &&& forall|i: int|
            0 <= i < edges.len() ==> #[trigger] recorded(after)->0.ops[from + 1 + i] == (
            OpModel::WalGroup {
                edge: edges[i],
                base_members: group_of(before.topology, edges[i]),
            })
    }
}

/// A store that is replaced is logged with every relationship that the replacement
/// is for. The version moves on, and nothing but the stores changes.
pub proof fn a_replacement_is_logged(
    before: DirGraph,
    after: DirGraph,
    connection_type: Text,
    text_property: Text,
    store: StoreModel,
    affected: Seq<EdgeIndex>,
)
    requires
        replace_done(before, after, connection_type, text_property, store, affected),
    ensures
        logged(
            before,
            after,
            connection_type,
            text_property,
            bases_before(
                before.topology,
                before.edge_embeddings@,
                connection_type,
                text_property,
                affected,
            ),
            affected,
        ),
        moved_on(before.version, after.version),
        after.topology == before.topology,
        after.embeddings == before.embeddings,
        after.edge_text_indexes == before.edge_text_indexes,
        undo_of(after) is Some <==> undo_of(before) is Some,
{
    if recorded(before) is Some {
        let bases = bases_before(
            before.topology,
            before.edge_embeddings@,
            connection_type,
            text_property,
            affected,
        );
        let was = recorded(before)->0;
        assert(recorded(after)->0.ops.take((was.ops.len() + bases.len()) as int) =~= was.ops
            + bases);
    }
}

/// A batch that changes nothing leaves the version and the log alone. Any other is
/// logged with every relationship that it names, after the bases of those that it
/// changes, and the version moves on.
pub proof fn a_batch_is_logged(
    before: DirGraph,
    after: DirGraph,
    connection_type: Text,
    text_property: Text,
    entries: Seq<(EdgeIndex, Seq<u32>)>,
    metric: Option<Text>,
    report: EdgeEmbeddingWriteReport,
)
    requires
        upsert_done(before, after, connection_type, text_property, entries, metric, report),
    ensures
        ({
            let existing = lookup(
                before.edge_embeddings@,
                connection_type,
                store_name_of(text_property),
            );
            let changed = changed_slots(existing, entries, entries.len() as int);
            after == before || {
                &&& moved_on(before.version, after.version)
                &&& after.topology == before.topology
                &&& after.embeddings == before.embeddings
                &&& after.edge_text_indexes == before.edge_text_indexes
                &&& logged(
                    before,
                    after,
                    connection_type,
                    text_property,
                    bases_before(
                        before.topology,
                        before.edge_embeddings@,
                        connection_type,
                        text_property,
                        edges_within(entries, changed, entries.len()),
                    ),
                    Seq::new(entries.len(), |i: int| entries[i].0),
                )
            }
        }),
{
    let existing = lookup(before.edge_embeddings@, connection_type, store_name_of(text_property));
    let changed = changed_slots(existing, entries, entries.len() as int);
    let bases = bases_before(
        before.topology,
        before.edge_embeddings@,
        connection_type,
        text_property,
        edges_within(entries, changed, entries.len()),
    );
    if after != before && recorded(before) is Some {
        let was = recorded(before)->0;
        assert(recorded(after)->0.ops.take((was.ops.len() + bases.len()) as int) =~= was.ops
            + bases);
    }
}

/// A log says that an index of relationships was built, over what and how, or that
/// it was dropped. The version moves on.
pub proof fn an_index_is_logged(
    before: DirGraph,
    after: DirGraph,
    connection_type: Text,
    text_property: Text,
    options: OptionsModel,
)
    ensures
        build_done(before, after, connection_type, text_property, options) ==> {
            &&& moved_on(before.version, after.version)
            &&& recorded(after) is Some <==> recorded(before) is Some
            &&& recorded(before) is Some ==> {
                let was = recorded(before)->0.ops;
                let ops = recorded(after)->0.ops;
                &&& ops.len() == was.len() + 1
                &&& ops.drop_last() == was
                &&& ops.last() is Declaration
                &&& ops.last()->Declaration_0.relationship
                &&& ops.last()->Declaration_0.present
                &&& ops.last()->Declaration_0.owner_type == connection_type
                &&& ops.last()->Declaration_0.text_column == text_property
                &&& options.m is Some ==> ops.last()->Declaration_0.m == options.m
                &&& options.ef_construction is Some ==> ops.last()->Declaration_0.ef_construction
                    == options.ef_construction
                &&& options.ef_search is Some ==> ops.last()->Declaration_0.ef_search
                    == options.ef_search
                &&& options.metric is Some ==> ops.last()->Declaration_0.metric == options.metric
            }
        },
        index_drop_done(before, after, connection_type, text_property) ==> {
            &&& moved_on(before.version, after.version)
            &&& recorded(after) is Some <==> recorded(before) is Some
            &&& recorded(before) is Some ==> {
                let was = recorded(before)->0.ops;
                let ops = recorded(after)->0.ops;
                &&& ops.len() == was.len() + 1
                &&& ops.drop_last() == was
                &&& ops.last() is Declaration
                &&& ops.last()->Declaration_0.relationship
                &&& !ops.last()->Declaration_0.present
                &&& ops.last()->Declaration_0.owner_type == connection_type
                &&& ops.last()->Declaration_0.text_column == text_property
            }
        },
{
}

/// A log says of a node store how it was written and for which nodes, in one entry
/// after those that were there. The version moves on, and nothing but the node stores
/// changes.
pub open spec fn node_write_logged(
    before: DirGraph,
    after: DirGraph,
    node_type: Text,
    text_column: Text,
    write: EmbeddingWrite,
    slots: Seq<usize>,
) -> bool {
    &&& moved_on(before.version, after.version)
    &&& after.topology == before.topology
    &&& after.edge_embeddings == before.edge_embeddings
    &&& after.edge_text_indexes == before.edge_text_indexes
    &&& after.undo == before.undo
    &&& recorded(before) is None ==> recorded(after) is None
    &&& recorded(before) is Some ==> recorded(after) is Some && recorded(after)->0.ops
        == recorded(before)->0.ops.push(
        OpModel::NodeEmbeddings { node_type, text_column, write, slots },
    )
}

/// Node vectors that are set are logged as a replacement for all nodes of the store
/// that results; those that are added, as a write for the nodes of the batch; and
/// those that a model made, as a replacement.
pub proof fn a_node_write_is_logged(
    before: DirGraph,
    after: DirGraph,
    node_type: Text,
    text_column: Text,
    metric: Option<Text>,
    batch: PreparedModel,
    report: EmbeddingIngestReport,
    mode: EmbedMode,
    model_id: Option<Text>,
    dimension: usize,
    vectors: Seq<Seq<u32>>,
)
    ensures
        ({
            let stored = lookup(after.embeddings@, node_type, store_name_of(text_column));
            &&& set_done(before, after, node_type, text_column, metric, batch, report) ==> if batch.dimension
                is None {
                after == before
            } else {
                stored is Some && node_write_logged(
                    before,
                    after,
                    node_type,
                    text_column,
                    EmbeddingWrite::Replace,
                    stored->0.nodes,
                )
            }
            &&& add_done(before, after, node_type, text_column, metric, batch, report) ==> if batch.dimension
                is None {
                after == before
            } else {
                node_write_logged(
                    before,
                    after,
                    node_type,
                    text_column,
                    EmbeddingWrite::Upsert,
                    Seq::new(batch.entries.len(), |i: int| batch.entries[i].0.slot),
                )
            }
            &&& property_embedded(
                before,
                after,
                node_type,
                text_column,
                mode,
                model_id,
                dimension,
                vectors,
            ) ==> stored is Some && node_write_logged(
                before,
                after,
                node_type,
                text_column,
                EmbeddingWrite::Replace,
                stored->0.nodes,
            )
        }),
{
    let name = store_name_of(text_column);
    assert forall|store: StoreModel|
        lookup(
            #[trigger] with_entry(before.embeddings@, node_type, name, store),
            node_type,
            name,
        ) == Some(store) by {
        a_kept_store_is_found(before.embeddings@, node_type, name, store);
    }
    if recorded(before) is Some {
        assert(forall|op: OpModel| #[trigger]
            recorded(before)->0.ops.push(op) =~= recorded(before)->0.ops + seq![op]);
    }
}

/// What stops a batch of texts is what the model said, as it said it, or that its
/// answer cannot be used.
pub proof fn a_model_is_heard<M: Embedder, C: EmbedCalls>(
    model: &M,
    hooks: Option<&EmbedHooks<C>>,
    topology: Topology,
    pending: Seq<PendingModel>,
    batch_size: usize,
    dimension: usize,
    from: int,
    error: ErrorModel,
)
    requires
        batch_refused(model, hooks, topology, pending, batch_size, dimension, from, error),
    ensures
        ({
            let texts = texts_pending(
                pending,
                from,
                batch_end(pending.len() as int, batch_size, from),
            );
            error is Output || exists|message: String| #[trigger]
                answered(model, hooks, texts, Err::<Vec<Vec<u32>>, String>(message)) && error
                    == ErrorModel::Model(message@)
        }),
{
}

/// A batch is answered by the caller's hook or, where there is none or it leaves the
/// batch alone, by the model.
pub proof fn a_batch_is_answered_by_hook_or_model<M: Embedder, C: EmbedCalls>(
    model: &M,
    hooks: Option<&EmbedHooks<C>>,
    batch: Vec<String>,
    reply: Result<Vec<Vec<u32>>, String>,
)
    requires
        replies(model, hooks, batch, reply),
    ensures
        hooks is None ==> call_ensures(M::embed, (model, &batch), reply),
        hooks is Some && !call_ensures(C::embed_batch, (&hooks->0.calls, &batch), Some(reply))
            ==> call_ensures(
            C::embed_batch,
            (&hooks->0.calls, &batch),
            None::<Result<Vec<Vec<u32>>, String>>,
        ) && call_ensures(M::embed, (model, &batch), reply),
{
}

/// A pass that is refused for what the model says of itself calls nothing, and says
/// what it is refused for.
pub proof fn a_refused_model_is_not_called<M: Embedder, I: Interrupt, C: EmbedCalls>(
    model: &M,
    interrupt: I,
    hooks: Option<&EmbedHooks<C>>,
    before: DirGraph,
    request: RequestModel,
    model_id: Option<String>,
    dimension: usize,
    calls: Seq<ModelCall>,
    error: ErrorModel,
)
    requires
        pass_fails(
            model,
            interrupt,
            hooks,
            before,
            request,
            model_id,
            dimension,
            calls,
            error,
        ),
    ensures
        ({
            let existing = lookup(
                before.edge_embeddings@,
                request.connection_type,
                store_name_of(request.text_property),
            );
            let fault = generation_fault(
                before.topology,
                existing,
                request,
                text_option(model_id),
                dimension,
            );
            fault is Some ==> calls.len() == 0 && error == fault->0
        }),
{
}

/// Carried stores come in at once: the version moves on by one where a store has a
/// vector that was found, whatever their number, and not at all where none has. A
/// store of which nothing was found changes nothing.
pub proof fn carried_stores_come_in_at_once(
    before: DirGraph,
    after: DirGraph,
    resolved: Seq<ResolvedModel>,
    one: ResolvedModel,
)
    ensures
        carry_installed(before, after, resolved) ==> {
            &&& (forall|i: int|
                0 <= i < resolved.len() ==> (#[trigger] resolved[i]).members.len() == 0)
                ==> after.version == before.version
            &&& (exists|i: int|
                0 <= i < resolved.len() && (#[trigger] resolved[i]).members.len() > 0) ==> moved_on(
                before.version,
                after.version,
            )
            &&& after.topology == before.topology
            &&& after.embeddings == before.embeddings
            &&& after.edge_text_indexes == before.edge_text_indexes
        },
        install_step(before, after, one) ==> after.version == before.version && (
        one.members.len() == 0 ==> after == before),
{
    some_store_is_kept(resolved, resolved.len());
}

proof fn some_store_is_kept(resolved: Seq<ResolvedModel>, count: nat)
    requires
        count <= resolved.len(),
    ensures
        stores_kept(resolved, count) > 0 <==> exists|i: int|
            0 <= i < count && (#[trigger] resolved[i]).members.len() > 0,
    decreases count,
{
    if count > 0 {
        some_store_is_kept(resolved, (count - 1) as nat);
    }
}

} // verus!
