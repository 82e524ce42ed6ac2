//! What a delete leaves behind, and what is recorded of a write.

use crate::address_laws::{a_group_is_every_parallel_relationship, runs};
use crate::catalog::{lookup, EntryModel};
use crate::edge_delete::{indexes_without, stores_without};
use crate::edge_log::{
    bases_before, cell_before, cells_before, changes_recorded, pair_of, pairs_of, touch_of,
    without_repeats,
};
use crate::edge_replace::a_removed_vector_is_gone;
use crate::edge_text_indexes::texts_written;
use crate::freshness::touched;
use crate::graph::{group_of, recorded_with, undo_with};
use crate::names::store_name_of;
use crate::order::{ascending, ascending_lists_the_items, pair_order};
use crate::recording::{OpModel, PriorCellModel, RecordingModel, UndoModel};
use crate::relationship_writes::with_relationship;
use crate::store::{coherent, hash_of, vector_of, StoreModel};
use crate::text::Text;
use crate::text_index::TextStoreModel;
use crate::topology::{EdgeRecord, Topology};
use crate::value::EdgeIndex;
use vstd::prelude::*;

verus! {

/// After a relationship is deleted no store has a vector in its slot, and every
/// other slot has in every store the vector and the hash that it had. An index
/// stays only over a store that had no such vector.
pub proof fn a_deleted_relationship_leaves_no_vector(
    entries: Seq<EntryModel<StoreModel>>,
    edge: EdgeIndex,
    at: int,
)
    requires
        0 <= at < entries.len(),
        coherent(entries[at].store),
    ensures
        ({
            let after = stores_without(entries, edge);
            let store = entries[at].store;
            &&& after.len() == entries.len()
            &&& after[at].owner_type == entries[at].owner_type
            &&& after[at].name == entries[at].name
            &&& !after[at].store.nodes.contains(edge.slot)
            &&& forall|slot: usize|
                slot != edge.slot ==> #[trigger] vector_of(after[at].store, slot) == vector_of(
                    store,
                    slot,
                ) && hash_of(after[at].store, slot) == hash_of(store, slot)
            &&& store.nodes.contains(edge.slot) ==> after[at].store.index is None
            &&& !store.nodes.contains(edge.slot) ==> after[at].store == store
            &&& after[at].store.dimension == store.dimension
            &&& after[at].store.metric == store.metric
            &&& after[at].store.model_id == store.model_id
        }),
{
    a_removed_vector_is_gone(entries[at].store, edge.slot);
}

/// After a relationship is deleted no text index has a document in its slot, and
/// every other document stays.
pub proof fn a_deleted_relationship_leaves_no_document(
    entries: Seq<EntryModel<TextStoreModel>>,
    edge: EdgeIndex,
    at: int,
)
    requires
        0 <= at < entries.len(),
    ensures
        ({
            let after = indexes_without(entries, edge);
            let docs = entries[at].store.docs;
            &&& after.len() == entries.len()
            &&& !after[at].store.docs.contains_key(edge.slot)
            &&& forall|slot: usize|
                slot != edge.slot ==> (#[trigger] after[at].store.docs.contains_key(slot)
                    <==> docs.contains_key(slot)) && (docs.contains_key(slot)
                    ==> after[at].store.docs[slot] == docs[slot])
            &&& after[at].store.field == entries[at].store.field
            &&& after[at].store.freshness == entries[at].store.freshness
        }),
{
}

/// A new relationship goes into the slot that was vacated last, else behind all the
/// others, and no other slot changes.
pub proof fn a_new_relationship_takes_a_free_slot(
    edges: Seq<Option<EdgeRecord>>,
    vacant: Seq<usize>,
    record: EdgeRecord,
)
    requires
        vacant.len() > 0 ==> vacant.last() < edges.len(),
    ensures
        ({
            let after = with_relationship(edges, vacant, record);
            let slot = if vacant.len() > 0 {
                vacant.last() as int
            } else {
                edges.len() as int
            };
            &&& 0 <= slot < after.len()
            &&& after[slot] == Some(record)
            &&& after.len() == if vacant.len() > 0 {
                edges.len()
            } else {
                edges.len() + 1
            }
            &&& forall|i: int| 0 <= i < edges.len() && i != slot ==> #[trigger] after[i] == edges[i]
        }),
{
}

/// Writing a property makes the slot one to be read again for the indexes of the
/// type over that property, or over every property where it is not said which; the
/// others are as they were.
pub proof fn a_written_property_is_read_again(
    texts: Seq<EntryModel<TextStoreModel>>,
    rel_type: Text,
    field: Option<Text>,
    slot: usize,
    at: int,
)
    requires
        0 <= at < texts.len(),
    ensures
        ({
            let after = texts_written(texts, rel_type, field, slot);
            let concerned = texts[at].owner_type == rel_type && (field is None || field == Some(
                texts[at].name,
            ));
            &&& after.len() == texts.len()
            &&& !concerned ==> after[at] == texts[at]
            &&& concerned ==> after[at].store.freshness == touched(
                texts[at].store.freshness,
                slot,
            ) && after[at].store.docs == texts[at].store.docs
        }),
{
}

/// What is kept of a cell before a write: its vector and its hash, where the store
/// has one, and nothing else.
pub proof fn a_cell_is_kept_as_it_was(
    stores: Seq<EntryModel<StoreModel>>,
    connection_type: Text,
    text_property: Text,
    edge: EdgeIndex,
)
    ensures
        ({
            let cell = cell_before(stores, connection_type, text_property, edge);
            let store = lookup(stores, connection_type, store_name_of(text_property));
            let held = store is Some && store->0.nodes.contains(edge.slot);
            &&& cell.edge == edge
            &&& cell.text_column == text_property
            &&& cell.state is Some <==> held
            &&& held ==> cell.state->0.vector == store->0.rows[store->0.nodes.index_of(edge.slot)]
            &&& held && store->0.hashes.contains_key(edge.slot) ==> cell.state->0.text_hash == Some(
                store->0.hashes[edge.slot],
            )
            &&& held && !store->0.hashes.contains_key(edge.slot) ==> cell.state->0.text_hash is None
        }),
{
}

/// A relationship of a type runs between the nodes in two slots.
pub open spec fn runs_between(
    topology: Topology,
    edge: EdgeIndex,
    pair: (usize, usize),
    connection_type: Text,
) -> bool {
    &&& edge.slot < topology.edges@.len()
    &&& topology.edges@[edge.slot as int] is Some
    &&& topology.edges@[edge.slot as int]->0.data.connection_type@ == connection_type
    &&& topology.edges@[edge.slot as int]->0.source.slot == pair.0
    &&& topology.edges@[edge.slot as int]->0.target.slot == pair.1
}

/// The cells kept for a pair of nodes are those of the touched relationships that
/// run between them, in order.
pub proof fn every_touched_cell_of_a_group_is_kept(
    topology: Topology,
    stores: Seq<EntryModel<StoreModel>>,
    connection_type: Text,
    text_property: Text,
    changed: Seq<EdgeIndex>,
    pair: (usize, usize),
    count: nat,
)
    requires
        count <= changed.len(),
    ensures
        cells_before(topology, stores, connection_type, text_property, changed, pair, count)
            == changed.take(count as int).filter_map(
            |edge: EdgeIndex|
                if runs_between(topology, edge, pair, connection_type) {
                    Some(cell_before(stores, connection_type, text_property, edge))
                } else {
                    None
                },
        ),
    decreases count,
{
    let head = changed.take(count as int);
    if count > 0 {
        every_touched_cell_of_a_group_is_kept(
            topology,
            stores,
            connection_type,
            text_property,
            changed,
            pair,
            (count - 1) as nat,
        );
        assert(head.drop_last() =~= changed.take(count - 1));
        assert(head.last() == changed[count - 1]);
    }
}

proof fn a_kept_cell_is_listed(
    topology: Topology,
    stores: Seq<EntryModel<StoreModel>>,
    connection_type: Text,
    text_property: Text,
    changed: Seq<EdgeIndex>,
    pair: (usize, usize),
    count: nat,
    at: int,
)
    requires
        0 <= at < count <= changed.len(),
        runs_between(topology, changed[at], pair, connection_type),
    ensures
        cells_before(
            topology,
            stores,
            connection_type,
            text_property,
            changed,
            pair,
            count,
        ).contains(cell_before(stores, connection_type, text_property, changed[at])),
    decreases count,
{
    let cells = cells_before(
        topology,
        stores,
        connection_type,
        text_property,
        changed,
        pair,
        count,
    );
    let cell = cell_before(stores, connection_type, text_property, changed[at]);
    if at == count - 1 {
        assert(cells[cells.len() - 1] == cell);
    } else {
        let k = (count - 1) as nat;
        a_kept_cell_is_listed(
            topology,
            stores,
            connection_type,
            text_property,
            changed,
            pair,
            k,
            at,
        );
        let less = cells_before(
            topology,
            stores,
            connection_type,
            text_property,
            changed,
            pair,
            k,
        );
        let i = less.index_of(cell);
        assert(cells[i] == cell);
    }
}

/// An entry keeps the cell of a relationship, under the types and ids of its nodes.
pub open spec fn keeps_cell(
    topology: Topology,
    connection_type: Text,
    edge: EdgeIndex,
    cell: PriorCellModel,
    op: OpModel,
) -> bool {
    let record = topology.edges@[edge.slot as int]->0;
    let source = topology.nodes@[record.source.slot as int]->0;
    let target = topology.nodes@[record.target.slot as int]->0;
    match op {
        OpModel::EdgeEmbeddingBase(touch) => {
            &&& touch.conn_type == connection_type
            &&& touch.src_type == source.node_type@
            &&& touch.src_id == source.id@
            &&& touch.tgt_type == target.node_type@
            &&& touch.tgt_id == target.id@
            &&& touch.prior_cells.contains(cell)
        },
        _ => false,
    }
}

/// Before a write every touched relationship of the type has its cell kept, in the
/// entry of the nodes that it runs between, which are named by type and id.
pub proof fn every_touched_relationship_is_kept(
    topology: Topology,
    stores: Seq<EntryModel<StoreModel>>,
    connection_type: Text,
    text_property: Text,
    changed: Seq<EdgeIndex>,
    at: int,
)
    requires
        0 <= at < changed.len(),
        topology.live_of_type(changed[at], connection_type),
    ensures
        exists|i: int|
            0 <= i < bases_before(
                topology,
                stores,
                connection_type,
                text_property,
                changed,
            ).len() && keeps_cell(
                topology,
                connection_type,
                changed[at],
                cell_before(stores, connection_type, text_property, changed[at]),
                #[trigger] bases_before(
                    topology,
                    stores,
                    connection_type,
                    text_property,
                    changed,
                )[i],
            ),
{
    let edge = changed[at];
    let pair = pair_of(topology, edge);
    let all = Seq::new(changed.len(), |i: int| pair_of(topology, changed[i]));
    let set = pairs_of(topology, changed);
    assert(all.to_set() =~= set) by {
        assert forall|p: (usize, usize)| all.to_set().contains(p) <==> set.contains(p) by {
            if all.contains(p) {
                let i = all.index_of(p);
                assert(pair_of(topology, changed[i]) == p);
            }
            if set.contains(p) {
                let i = choose|i: int|
                    0 <= i < changed.len() && pair_of(topology, #[trigger] changed[i]) == p;
                assert(all[i] == p);
            }
        }
    }
    crate::edge_log::pair_order_is_order();
    ascending_lists_the_items(all, pair_order());
    let pairs = ascending(set, pair_order());
    assert(set.contains(pair)) by {
        assert(pair_of(topology, changed[at]) == pair);
    }
    assert(pairs.to_set().contains(pair));
    let i = pairs.index_of(pair);
    let bases = bases_before(topology, stores, connection_type, text_property, changed);
    assert(bases[i] == OpModel::EdgeEmbeddingBase(
        touch_of(topology, stores, connection_type, text_property, changed, pair),
    ));
    assert(topology.edges@[edge.slot as int]->0 == topology.record(edge));
    a_kept_cell_is_listed(
        topology,
        stores,
        connection_type,
        text_property,
        changed,
        pair,
        changed.len(),
        at,
    );
}

/// A list without repeats names every relationship that the list names, each once,
/// in the order in which they come first.
pub proof fn a_list_without_repeats_names_each_once(edges: Seq<EdgeIndex>, count: nat)
    requires
        count <= edges.len(),
    ensures
        without_repeats(edges, count).no_duplicates(),
        forall|edge: EdgeIndex| #[trigger]
            without_repeats(edges, count).contains(edge) <==> edges.take(count as int).contains(
                edge,
            ),
        forall|upto: nat|
            upto <= count ==> (#[trigger] without_repeats(edges, upto)).is_prefix_of(
                without_repeats(edges, count),
            ),
    decreases count,
{
    let all = without_repeats(edges, count);
    if count > 0 {
        let k = (count - 1) as nat;
        a_list_without_repeats_names_each_once(edges, k);
        let less = without_repeats(edges, k);
        let last = edges[k as int];
        let head = edges.take(count as int);
        assert forall|edge: EdgeIndex| #[trigger] all.contains(edge) <==> head.contains(
            edge,
        ) by {
            assert(head.contains(edge) <==> edges.take(k as int).contains(edge) || edge == last) by {
                if edges.take(k as int).contains(edge) {
                    let i = edges.take(k as int).index_of(edge);
                    assert(head[i] == edge);
                }
                assert(head[k as int] == last);
                if head.contains(edge) && edge != last {
                    let i = head.index_of(edge);
                    assert(edges.take(k as int)[i] == edge);
                }
            }
            if less.contains(edge) {
                let i = less.index_of(edge);
                assert(all[i] == edge);
            }
            if all.len() > less.len() {
                assert(all[less.len() as int] == last);
                if all.contains(edge) && edge != last {
                    let i = all.index_of(edge);
                    assert(less[i] == edge);
                }
            }
        }
        assert forall|upto: nat| upto <= count implies (#[trigger] without_repeats(
            edges,
            upto,
        )).is_prefix_of(all) by {
            if upto < count {
                assert(without_repeats(edges, upto).is_prefix_of(less));
            }
        }
    } else {
        assert(edges.take(0) =~= Seq::empty());
    }
}

/// A recording only grows: what was recorded stays, in order, and what comes is
/// put behind it. Nothing is recorded where nothing records, and so it is with the
/// entries that undo.
pub proof fn what_was_recorded_stays(
    recording: Option<RecordingModel>,
    ops: Seq<OpModel>,
    undo: Option<Seq<UndoModel>>,
    entries: Seq<UndoModel>,
)
    ensures
        recording is None ==> recorded_with(recording, ops) is None,
        recording is Some ==> {
            let after = recorded_with(recording, ops);
            &&& after is Some
            &&& after->0.ops == recording->0.ops + ops
            &&& after->0.base_capture == recording->0.base_capture
        },
        undo is None ==> undo_with(undo, entries) is None,
        undo is Some ==> undo_with(undo, entries) == Some(undo->0 + entries),
{
}

/// After a write to a relationship store it is recorded that the store was touched,
/// where it was, and each touched relationship with its whole parallel group; bases
/// are captured from then on.
pub proof fn every_change_is_recorded(
    recording: RecordingModel,
    topology: Topology,
    connection_type: Text,
    text_property: Text,
    store_changed: bool,
    edges: Seq<EdgeIndex>,
    at: int,
)
    requires
        0 <= at < edges.len(),
    ensures
        ({
            let after = changes_recorded(
                Some(recording),
                topology,
                connection_type,
                text_property,
                store_changed,
                edges,
            );
            let from = recording.ops.len() + if store_changed {
                1int
            } else {
                0int
            };
            &&& after is Some
            &&& after->0.base_capture
            &&& after->0.ops.len() == from + edges.len()
            &&& recording.ops.is_prefix_of(after->0.ops)
            &&& store_changed ==> after->0.ops[recording.ops.len() as int] == (
            OpModel::EdgeEmbeddingStore { conn_type: connection_type, text_column: text_property })
            &&& after->0.ops[from + at] == (OpModel::WalGroup {
                edge: edges[at],
                base_members: group_of(topology, edges[at]),
            })
        }),
{
}

/// The group of a live relationship is every relationship of its type that runs
/// between the same nodes.
pub proof fn a_group_is_of_one_kind(topology: Topology, edge: EdgeIndex, slot: usize)
    requires
        topology.edges@.len() <= usize::MAX,
        topology.live(edge),
    ensures
        ({
            let record = topology.edges@[edge.slot as int]->0;
            group_of(topology, edge).contains(EdgeIndex { slot }) <==> runs(
                topology.edges@,
                slot as int,
                record.source,
                record.target,
                record.data.connection_type@,
            )
        }),
{
    let record = topology.edges@[edge.slot as int]->0;
    a_group_is_every_parallel_relationship(
        topology.edges@,
        record.source,
        record.target,
        record.data.connection_type@,
    );
    assert(runs(
        topology.edges@,
        slot as int,
        record.source,
        record.target,
        record.data.connection_type@,
    ) <==> crate::topology::group_edges(
        topology.edges@,
        record.source,
        record.target,
        record.data.connection_type@,
    ).contains(EdgeIndex { slot }));
}

} // verus!
