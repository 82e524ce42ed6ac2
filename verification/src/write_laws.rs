//! What a read gives back of a write.

use crate::edge_generated::{
    all_installed, dimension_changes, generated_edges, generated_successor, write_sound, WriteModel,
};
use crate::edge_replace::{all_removed, store_of_entries};
use crate::edge_writes::{
    cell_changes, changed_slots, entries_sound, manual_writes, slots_of, upsert_dimension, upserted,
};
use crate::coordinate::{finite_vector_equals_itself, same_vector};
use crate::graph::{node_by_id, DirGraph};
use crate::node_ingest::{added, prepared_upto, written, PreparedModel};
use crate::store::{
    a_written_vector_reads_back, coherent, empty_store, hash_of, holds, place_of, tail_swapped,
    vector_of, with_hash, with_vector, without_vector, StoreModel,
};
use crate::text::Text;
use crate::topology::Topology;
use crate::value::{EdgeIndex, NodeIndex, ValueModel};
use vstd::prelude::*;

verus! {

/// Whether each owner of a store has one row.
pub(crate) open spec fn lined(store: StoreModel) -> bool {
    store.nodes.len() == store.rows.len() && store.nodes.no_duplicates()
}

pub(crate) proof fn writing_keeps_lined(store: StoreModel, node: usize, vector: Seq<u32>)
    requires
        lined(store),
    ensures
        lined(with_vector(store, node, vector)),
{
    let after = with_vector(store, node, vector);
    if !holds(store, node) {
        assert forall|i: int, j: int|
            0 <= i < after.nodes.len() && 0 <= j < after.nodes.len() && i
                != j implies after.nodes[i] != after.nodes[j] by {
            if i < store.nodes.len() {
                assert(store.nodes.contains(store.nodes[i]));
            }
            if j < store.nodes.len() {
                assert(store.nodes.contains(store.nodes[j]));
            }
        }
    }
}

proof fn manual_writes_read_back(
    store: StoreModel,
    entries: Seq<(EdgeIndex, Seq<u32>)>,
    slots: Set<usize>,
    count: nat,
)
    requires
        lined(store),
        count <= entries.len(),
        forall|i: int, j: int|
            0 <= i < j < entries.len() ==> (#[trigger] entries[i]).0 != (#[trigger] entries[j]).0,
    ensures
        lined(manual_writes(store, entries, slots, count)),
        forall|i: int|
            0 <= i < count && slots.contains((#[trigger] entries[i]).0.slot) ==> vector_of(
                manual_writes(store, entries, slots, count),
                entries[i].0.slot,
            ) == Some(entries[i].1) && hash_of(
                manual_writes(store, entries, slots, count),
                entries[i].0.slot,
            ) is None,
        forall|slot: usize|
            !(slots.contains(slot) && slots_of(entries, count as int).contains(slot))
                ==> #[trigger] vector_of(manual_writes(store, entries, slots, count), slot)
                == vector_of(store, slot),
        forall|slot: usize|
            !(slots.contains(slot) && slots_of(entries, count as int).contains(slot))
                ==> #[trigger] hash_of(manual_writes(store, entries, slots, count), slot)
                == hash_of(store, slot),
    decreases count,
{
    if count > 0 {
        let prior = (count - 1) as nat;
        manual_writes_read_back(store, entries, slots, prior);
        let so_far = manual_writes(store, entries, slots, prior);
        let after = manual_writes(store, entries, slots, count);
        let last = entries[count - 1];
        if slots.contains(last.0.slot) {
            writing_keeps_lined(so_far, last.0.slot, last.1);
            a_written_vector_reads_back(so_far, last.0.slot, last.1);
            let with = with_vector(so_far, last.0.slot, last.1);
            assert(after == with_hash(with, last.0.slot, None));
            assert forall|s: usize| #[trigger] vector_of(after, s) == vector_of(with, s) by {}
        }
        assert forall|i: int|
            0 <= i < count && slots.contains((#[trigger] entries[i]).0.slot) implies vector_of(
            after,
            entries[i].0.slot,
        ) == Some(entries[i].1) && hash_of(after, entries[i].0.slot) is None by {
            if i < count - 1 {
                assert(entries[i].0 != last.0);
                assert(entries[i].0.slot != last.0.slot);
                assert(vector_of(so_far, entries[i].0.slot) == Some(entries[i].1));
            }
        }
        assert forall|slot: usize|
            !(slots.contains(slot) && slots_of(entries, count as int).contains(
                slot,
            )) implies #[trigger] vector_of(after, slot) == vector_of(store, slot) && hash_of(
            after,
            slot,
        ) == hash_of(store, slot) by {
            assert(!(slots.contains(slot) && slots_of(entries, prior as int).contains(slot))) by {
                if slots_of(entries, prior as int).contains(slot) {
                    let i = choose|i: int|
                        0 <= i < prior && (#[trigger] entries[i]).0.slot == slot;
                    assert(entries[i].0.slot == slot);
                }
            }
            assert(vector_of(so_far, slot) == vector_of(store, slot));
            assert(hash_of(so_far, slot) == hash_of(store, slot));
            if slots.contains(last.0.slot) {
                assert(slots_of(entries, count as int).contains(last.0.slot)) by {
                    assert(entries[count - 1].0.slot == last.0.slot);
                }
                assert(slot != last.0.slot);
            }
        }
        assert forall|slot: usize|
            !(slots.contains(slot) && slots_of(entries, count as int).contains(
                slot,
            )) implies #[trigger] hash_of(after, slot) == hash_of(store, slot) by {
            assert(vector_of(after, slot) == vector_of(store, slot));
        }
    }
}

/// After a batch of relationship vectors is written, each of its relationships
/// reads back the vector of the batch, as numbers, with no hash; every other
/// relationship reads as before, with its hash; and no model is recorded.
pub proof fn an_upserted_vector_reads_back(
    topology: Topology,
    connection_type: Text,
    existing: Option<StoreModel>,
    entries: Seq<(EdgeIndex, Seq<u32>)>,
    metric: Option<Text>,
)
    requires
        existing is Some ==> coherent(existing->0),
        entries.len() > 0,
        entries_sound(
            topology,
            connection_type,
            entries,
            upsert_dimension(existing, entries),
        ),
    ensures
        upserted(existing, entries, metric).model_id is None,
        forall|i: int|
            0 <= i < entries.len() ==> {
                let read = vector_of(
                    upserted(existing, entries, metric),
                    (#[trigger] entries[i]).0.slot,
                );
                &&& read is Some && same_vector(read->0, entries[i].1)
                &&& hash_of(upserted(existing, entries, metric), entries[i].0.slot) is None
            },
        forall|slot: usize|
            !slots_of(entries, entries.len() as int).contains(slot) ==> #[trigger] vector_of(
                upserted(existing, entries, metric),
                slot,
            ) == match existing {
                Some(store) => vector_of(store, slot),
                None => None,
            },
        forall|slot: usize|
            !slots_of(entries, entries.len() as int).contains(slot) ==> #[trigger] hash_of(
                upserted(existing, entries, metric),
                slot,
            ) == match existing {
                Some(store) => hash_of(store, slot),
                None => None,
            },
{
    let base = match existing {
        Some(store) => store,
        None => empty_store(upsert_dimension(existing, entries), metric),
    };
    let changed = changed_slots(existing, entries, entries.len() as int);
    let wrote = manual_writes(base, entries, changed, entries.len());
    let after = upserted(existing, entries, metric);
    manual_writes_read_back(base, entries, changed, entries.len());
    assert forall|s: usize| #[trigger] vector_of(after, s) == vector_of(wrote, s) by {}
    assert forall|s: usize| #[trigger] hash_of(after, s) == hash_of(wrote, s) by {}
    assert forall|i: int| 0 <= i < entries.len() implies {
        let read = vector_of(after, (#[trigger] entries[i]).0.slot);
        &&& read is Some && same_vector(read->0, entries[i].1)
        &&& hash_of(after, entries[i].0.slot) is None
    } by {
        let slot = entries[i].0.slot;
        if changed.contains(slot) {
            finite_vector_equals_itself(entries[i].1);
        } else {
            assert(!cell_changes(existing, entries[i].0, entries[i].1));
            assert(vector_of(wrote, slot) == vector_of(base, slot));
            assert(hash_of(wrote, slot) == hash_of(base, slot));
        }
    }
    assert forall|slot: usize|
        !slots_of(entries, entries.len() as int).contains(slot) implies #[trigger] vector_of(
        after,
        slot,
    ) == match existing {
        Some(store) => vector_of(store, slot),
        None => None,
    } by {
        assert(vector_of(wrote, slot) == vector_of(base, slot));
    }
    assert forall|slot: usize|
        !slots_of(entries, entries.len() as int).contains(slot) implies #[trigger] hash_of(
        after,
        slot,
    ) == match existing {
        Some(store) => hash_of(store, slot),
        None => None,
    } by {
        assert(hash_of(wrote, slot) == hash_of(base, slot));
    }
}

/// A store that a batch of relationship vectors replaced holds exactly the
/// batch: each vector under its relationship, without a hash or a model.
pub proof fn a_replaced_store_holds_the_batch(
    topology: Topology,
    connection_type: Text,
    entries: Seq<(EdgeIndex, Seq<u32>)>,
    dimension: usize,
    metric: Option<Text>,
)
    requires
        entries_sound(topology, connection_type, entries, dimension),
    ensures
        store_of_entries(dimension, metric, entries).model_id is None,
        forall|i: int|
            0 <= i < entries.len() ==> vector_of(
                store_of_entries(dimension, metric, entries),
                (#[trigger] entries[i]).0.slot,
            ) == Some(entries[i].1),
        forall|slot: usize| #[trigger]
            holds(store_of_entries(dimension, metric, entries), slot) ==> slots_of(
                entries,
                entries.len() as int,
            ).contains(slot),
        forall|slot: usize| #[trigger]
            hash_of(store_of_entries(dimension, metric, entries), slot) is None,
{
    let store = store_of_entries(dimension, metric, entries);
    assert forall|i: int| 0 <= i < entries.len() implies vector_of(
        store,
        (#[trigger] entries[i]).0.slot,
    ) == Some(entries[i].1) by {
        let slot = entries[i].0.slot;
        assert(store.nodes[i] == slot);
        assert(store.nodes.contains(slot));
        let k = place_of(store, slot);
        assert(store.nodes[k] == slot);
        assert(entries[k].0.slot == slot);
        assert(entries[k].0 == entries[i].0);
    }
    assert forall|slot: usize| #[trigger] holds(store, slot) implies slots_of(
        entries,
        entries.len() as int,
    ).contains(slot) by {
        let k = place_of(store, slot);
        assert(store.nodes[k] == slot);
        assert(entries[k].0.slot == slot);
    }
}

proof fn removing_keeps_lined(store: StoreModel, slot: usize)
    requires
        lined(store),
    ensures
        lined(without_vector(store, slot)),
        vector_of(without_vector(store, slot), slot) is None,
        forall|other: usize|
            other != slot ==> #[trigger] vector_of(without_vector(store, slot), other)
                == vector_of(store, other),
        forall|other: usize|
            other != slot ==> #[trigger] hash_of(without_vector(store, slot), other) == hash_of(
                store,
                other,
            ),
{
    if holds(store, slot) {
        let at = place_of(store, slot);
        let after = without_vector(store, slot);
        let end = store.nodes.len() - 1;
        assert(store.nodes[at] == slot);
        assert(after.nodes == tail_swapped(store.nodes, at));
        assert(after.rows == tail_swapped(store.rows, at));
        assert forall|i: int, j: int|
            0 <= i < after.nodes.len() && 0 <= j < after.nodes.len() && i
                != j implies after.nodes[i] != after.nodes[j] by {
            let a = if i == at {
                end
            } else {
                i
            };
            let b = if j == at {
                end
            } else {
                j
            };
            assert(store.nodes[a] != store.nodes[b]);
        }
        if holds(after, slot) {
            let k = place_of(after, slot);
            assert(after.nodes[k] == slot);
            let from = if k == at {
                end
            } else {
                k
            };
            assert(store.nodes[from] == slot);
        }
        assert forall|other: usize| other != slot implies #[trigger] vector_of(after, other)
            == vector_of(store, other) by {
            if holds(store, other) {
                let k = place_of(store, other);
                assert(store.nodes[k] == other);
                let to = if k == end {
                    at
                } else {
                    k
                };
                assert(after.nodes[to] == other);
                let j = place_of(after, other);
                assert(after.nodes[j] == other);
                assert(j == to);
            } else if holds(after, other) {
                let j = place_of(after, other);
                assert(after.nodes[j] == other);
                let from = if j == at {
                    end
                } else {
                    j
                };
                assert(store.nodes[from] == other);
            }
        }
    }
}

proof fn removals_read_back(store: StoreModel, edges: Seq<EdgeIndex>, count: nat)
    requires
        lined(store),
        count <= edges.len(),
    ensures
        lined(all_removed(store, edges, count)),
        forall|i: int|
            0 <= i < count ==> vector_of(
                all_removed(store, edges, count),
                (#[trigger] edges[i]).slot,
            ) is None,
        forall|edge: EdgeIndex|
            !edges.contains(edge) ==> #[trigger] vector_of(
                all_removed(store, edges, count),
                edge.slot,
            ) == vector_of(store, edge.slot) && hash_of(
                all_removed(store, edges, count),
                edge.slot,
            ) == hash_of(store, edge.slot),
    decreases count,
{
    if count > 0 {
        removals_read_back(store, edges, (count - 1) as nat);
        let so_far = all_removed(store, edges, (count - 1) as nat);
        let after = all_removed(store, edges, count);
        let last = edges[count - 1];
        removing_keeps_lined(so_far, last.slot);
        assert forall|i: int| 0 <= i < count implies vector_of(
            after,
            (#[trigger] edges[i]).slot,
        ) is None by {
            if edges[i].slot != last.slot {
                assert(vector_of(so_far, edges[i].slot) is None);
            }
        }
        assert forall|edge: EdgeIndex| !edges.contains(edge) implies #[trigger] vector_of(
            after,
            edge.slot,
        ) == vector_of(store, edge.slot) && hash_of(after, edge.slot) == hash_of(
            store,
            edge.slot,
        ) by {
            assert(edges.contains(last));
            assert(edge.slot != last.slot);
            assert(vector_of(so_far, edge.slot) == vector_of(store, edge.slot));
            assert(hash_of(after, edge.slot) == hash_of(so_far, edge.slot));
        }
    }
}

/// Removing the vectors of relationships leaves none of them with a vector, and
/// every other relationship as it was.
pub proof fn removed_vectors_are_gone(store: StoreModel, edges: Seq<EdgeIndex>)
    requires
        coherent(store),
    ensures
        forall|i: int|
            0 <= i < edges.len() ==> vector_of(
                all_removed(store, edges, edges.len()),
                (#[trigger] edges[i]).slot,
            ) is None,
        forall|edge: EdgeIndex|
            !edges.contains(edge) ==> #[trigger] vector_of(
                all_removed(store, edges, edges.len()),
                edge.slot,
            ) == vector_of(store, edge.slot) && hash_of(
                all_removed(store, edges, edges.len()),
                edge.slot,
            ) == hash_of(store, edge.slot),
{
    removals_read_back(store, edges, edges.len());
}

proof fn installs_read_back(
    store: StoreModel,
    generated: Seq<(EdgeIndex, Seq<u32>, u64)>,
    count: nat,
)
    requires
        lined(store),
        count <= generated.len(),
        generated_edges(generated).no_duplicates(),
    ensures
        lined(all_installed(store, generated, count)),
        forall|i: int|
            0 <= i < count ==> vector_of(
                all_installed(store, generated, count),
                (#[trigger] generated[i]).0.slot,
            ) == Some(generated[i].1) && hash_of(
                all_installed(store, generated, count),
                generated[i].0.slot,
            ) == Some(generated[i].2),
        forall|edge: EdgeIndex|
            !generated_edges(generated).contains(edge) ==> #[trigger] vector_of(
                all_installed(store, generated, count),
                edge.slot,
            ) == vector_of(store, edge.slot) && hash_of(
                all_installed(store, generated, count),
                edge.slot,
            ) == hash_of(store, edge.slot),
    decreases count,
{
    if count > 0 {
        installs_read_back(store, generated, (count - 1) as nat);
        let so_far = all_installed(store, generated, (count - 1) as nat);
        let after = all_installed(store, generated, count);
        let last = generated[count - 1];
        let with = with_vector(so_far, last.0.slot, last.1);
        writing_keeps_lined(so_far, last.0.slot, last.1);
        a_written_vector_reads_back(so_far, last.0.slot, last.1);
        assert(after == with_hash(with, last.0.slot, Some(last.2)));
        assert forall|s: usize| #[trigger] vector_of(after, s) == vector_of(with, s) by {}
        assert forall|i: int| 0 <= i < count implies vector_of(
            after,
            (#[trigger] generated[i]).0.slot,
        ) == Some(generated[i].1) && hash_of(after, generated[i].0.slot) == Some(
            generated[i].2,
        ) by {
            if i < count - 1 {
                assert(generated_edges(generated)[i] != generated_edges(generated)[count - 1]);
                assert(generated[i].0.slot != last.0.slot);
                assert(vector_of(so_far, generated[i].0.slot) == Some(generated[i].1));
            }
        }
        assert forall|edge: EdgeIndex|
            !generated_edges(generated).contains(edge) implies #[trigger] vector_of(
            after,
            edge.slot,
        ) == vector_of(store, edge.slot) && hash_of(after, edge.slot) == hash_of(
            store,
            edge.slot,
        ) by {
            assert(generated_edges(generated)[count - 1] == last.0);
            assert(generated_edges(generated).contains(last.0));
            assert(edge.slot != last.0.slot);
            assert(vector_of(so_far, edge.slot) == vector_of(store, edge.slot));
        }
    }
}

/// After generated vectors are installed, each of their relationships reads back
/// its vector and the hash of its text; one whose vector was to be removed has
/// none; every other reads as before, with its hash, where the dimension stays;
/// and the write's model is recorded.
pub proof fn a_generated_vector_reads_back(
    topology: Topology,
    connection_type: Text,
    existing: Option<StoreModel>,
    write: WriteModel,
)
    requires
        existing is Some ==> coherent(existing->0),
        write_sound(topology, connection_type, write),
    ensures
        generated_successor(existing, write).model_id == write.model_id,
        forall|i: int|
            0 <= i < write.generated.len() ==> vector_of(
                generated_successor(existing, write),
                (#[trigger] write.generated[i]).0.slot,
            ) == Some(write.generated[i].1) && hash_of(
                generated_successor(existing, write),
                write.generated[i].0.slot,
            ) == Some(write.generated[i].2),
        forall|i: int|
            0 <= i < write.removed.len() ==> vector_of(
                generated_successor(existing, write),
                (#[trigger] write.removed[i]).slot,
            ) is None,
        forall|edge: EdgeIndex|
            !generated_edges(write.generated).contains(edge) && !write.removed.contains(edge)
                && !dimension_changes(existing, write) ==> #[trigger] vector_of(
                generated_successor(existing, write),
                edge.slot,
            ) == match existing {
                Some(store) => vector_of(store, edge.slot),
                None => None,
            } && hash_of(generated_successor(existing, write), edge.slot) == match existing {
                Some(store) => hash_of(store, edge.slot),
                None => None,
            },
{
    let base = if existing is Some && !dimension_changes(existing, write) {
        existing->0
    } else {
        empty_store(write.dimension, write.metric)
    };
    let declared = StoreModel {
        dimension: write.dimension,
        metric: write.metric,
        model_id: write.model_id,
        ..base
    };
    let left = all_removed(declared, write.removed, write.removed.len());
    let after = generated_successor(existing, write);
    let edges = generated_edges(write.generated);
    assert(edges.no_duplicates()) by {
        let both = edges + write.removed;
        assert forall|i: int, j: int|
            0 <= i < edges.len() && 0 <= j < edges.len() && i != j implies edges[i] != edges[j] by {
            assert(both[i] == edges[i] && both[j] == edges[j]);
        }
    }
    removals_read_back(declared, write.removed, write.removed.len());
    installs_read_back(left, write.generated, write.generated.len());
    models_stay(declared, write);
    assert forall|i: int| 0 <= i < write.removed.len() implies vector_of(
        after,
        (#[trigger] write.removed[i]).slot,
    ) is None by {
        let edge = write.removed[i];
        assert(!edges.contains(edge)) by {
            if edges.contains(edge) {
                let k = edges.index_of(edge);
                let both = edges + write.removed;
                assert(both[k] == edge && both[edges.len() + i] == edge);
            }
        }
        assert(vector_of(left, edge.slot) is None);
        assert(vector_of(after, edge.slot) == vector_of(left, edge.slot));
    }
    assert forall|edge: EdgeIndex|
        !edges.contains(edge) && !write.removed.contains(edge) && !dimension_changes(
            existing,
            write,
        ) implies #[trigger] vector_of(after, edge.slot) == match existing {
        Some(store) => vector_of(store, edge.slot),
        None => None,
    } && hash_of(after, edge.slot) == match existing {
        Some(store) => hash_of(store, edge.slot),
        None => None,
    } by {
        assert(vector_of(after, edge.slot) == vector_of(left, edge.slot));
        assert(vector_of(left, edge.slot) == vector_of(declared, edge.slot));
    }
}

/// A relationship without a vector gets none where none was made for it.
pub(crate) proof fn only_what_was_made_appears(declared: StoreModel, write: WriteModel, slot: usize)
    requires
        lined(declared),
        (generated_edges(write.generated) + write.removed).no_duplicates(),
        !holds(declared, slot),
        !generated_edges(write.generated).contains(EdgeIndex { slot }),
    ensures
        !holds(
            all_installed(
                all_removed(declared, write.removed, write.removed.len()),
                write.generated,
                write.generated.len(),
            ),
            slot,
        ),
{
    let left = all_removed(declared, write.removed, write.removed.len());
    let edges = generated_edges(write.generated);
    let edge = EdgeIndex { slot };
    assert(edges.no_duplicates()) by {
        let both = edges + write.removed;
        assert forall|i: int, j: int|
            0 <= i < edges.len() && 0 <= j < edges.len() && i != j implies edges[i] != edges[j] by {
            assert(both[i] == edges[i] && both[j] == edges[j]);
        }
    }
    removals_read_back(declared, write.removed, write.removed.len());
    installs_read_back(left, write.generated, write.generated.len());
    assert(vector_of(declared, edge.slot) is None);
    if write.removed.contains(edge) {
        let k = write.removed.index_of(edge);
        assert(vector_of(left, write.removed[k].slot) is None);
    } else {
        assert(vector_of(left, edge.slot) == vector_of(declared, edge.slot));
    }
    let after = all_installed(left, write.generated, write.generated.len());
    assert(vector_of(after, edge.slot) == vector_of(left, edge.slot));
}

proof fn models_stay(declared: StoreModel, write: WriteModel)
    ensures
        all_installed(
            all_removed(declared, write.removed, write.removed.len()),
            write.generated,
            write.generated.len(),
        ).model_id == declared.model_id,
{
    removed_model_stays(declared, write.removed, write.removed.len());
    installed_model_stays(
        all_removed(declared, write.removed, write.removed.len()),
        write.generated,
        write.generated.len(),
    );
}

proof fn removed_model_stays(store: StoreModel, edges: Seq<EdgeIndex>, count: nat)
    ensures
        all_removed(store, edges, count).model_id == store.model_id,
    decreases count,
{
    if count > 0 {
        removed_model_stays(store, edges, (count - 1) as nat);
    }
}

proof fn installed_model_stays(
    store: StoreModel,
    generated: Seq<(EdgeIndex, Seq<u32>, u64)>,
    count: nat,
)
    ensures
        all_installed(store, generated, count).model_id == store.model_id,
    decreases count,
{
    if count > 0 {
        installed_model_stays(store, generated, (count - 1) as nat);
    }
}

/// Whether a row is the last of the first `count` that is for a node.
pub open spec fn last_row_for(
    graph: DirGraph,
    node_type: Text,
    rows: Seq<(ValueModel, Seq<u32>)>,
    i: int,
    count: int,
    node: NodeIndex,
) -> bool {
    &&& 0 <= i < count
    &&& node_by_id(graph, node_type, rows[i].0) == Some(node)
    &&& forall|k: int|
        i < k < count ==> node_by_id(graph, node_type, (#[trigger] rows[k]).0) != Some(node)
}

/// Whether none of the first `count` rows is for a node.
pub open spec fn no_row_for(
    graph: DirGraph,
    node_type: Text,
    rows: Seq<(ValueModel, Seq<u32>)>,
    count: int,
    node: NodeIndex,
) -> bool {
    forall|k: int|
        0 <= k < count ==> node_by_id(graph, node_type, (#[trigger] rows[k]).0) != Some(node)
}

proof fn added_needs_only(
    store: StoreModel,
    entries: Seq<(NodeIndex, Seq<u32>)>,
    more: Seq<(NodeIndex, Seq<u32>)>,
    count: nat,
)
    requires
        count <= entries.len(),
        count <= more.len(),
        forall|i: int| 0 <= i < count ==> entries[i] == #[trigger] more[i],
    ensures
        added(store, entries, count) == added(store, more, count),
        written(store, entries, count) == written(store, more, count),
    decreases count,
{
    if count > 0 {
        added_needs_only(store, entries, more, (count - 1) as nat);
        assert(entries[count - 1] == more[count - 1]);
    }
}

proof fn prepared_vectors_read_back(
    graph: DirGraph,
    node_type: Text,
    constraint: Option<usize>,
    rows: Seq<(ValueModel, Seq<u32>)>,
    count: nat,
    base: StoreModel,
)
    requires
        count <= rows.len(),
        lined(base),
        prepared_upto(graph, node_type, constraint, rows, count) is Ok,
    ensures
        ({
            let entries = prepared_upto(graph, node_type, constraint, rows, count)->Ok_0.entries;
            let plus = added(base, entries, entries.len());
            let set = written(base, entries, entries.len());
            &&& lined(plus)
            &&& lined(set)
            &&& forall|i: int, node: NodeIndex| #[trigger]
                last_row_for(graph, node_type, rows, i, count as int, node) ==> {
                    &&& vector_of(plus, node.slot) == Some(rows[i].1)
                    &&& hash_of(plus, node.slot) is None
                    &&& vector_of(set, node.slot) == Some(rows[i].1)
                }
            &&& forall|node: NodeIndex| #[trigger]
                no_row_for(graph, node_type, rows, count as int, node) ==> {
                    &&& vector_of(plus, node.slot) == vector_of(base, node.slot)
                    &&& hash_of(plus, node.slot) == hash_of(base, node.slot)
                    &&& vector_of(set, node.slot) == vector_of(base, node.slot)
                }
            &&& set.hashes == base.hashes
            &&& set.model_id == base.model_id
        }),
    decreases count,
{
    let entries = prepared_upto(graph, node_type, constraint, rows, count)->Ok_0.entries;
    let plus = added(base, entries, entries.len());
    let set = written(base, entries, entries.len());
    if count > 0 {
        let prior = (count - 1) as nat;
        prepared_vectors_read_back(graph, node_type, constraint, rows, prior, base);
        let earlier = prepared_upto(graph, node_type, constraint, rows, prior)->Ok_0.entries;
        let plus_before = added(base, earlier, earlier.len());
        let set_before = written(base, earlier, earlier.len());
        let found = node_by_id(graph, node_type, rows[count - 1].0);
        let vector = rows[count - 1].1;
        if let Some(at) = found {
            assert(entries == earlier.push((at, vector)));
            added_needs_only(base, earlier, entries, earlier.len());
            a_written_vector_reads_back(plus_before, at.slot, vector);
            a_written_vector_reads_back(set_before, at.slot, vector);
            writing_keeps_lined(plus_before, at.slot, vector);
            writing_keeps_lined(set_before, at.slot, vector);
            let with = with_vector(plus_before, at.slot, vector);
            assert(plus == with_hash(with, at.slot, None));
            assert(set == with_vector(set_before, at.slot, vector));
            assert forall|s: usize| #[trigger] vector_of(plus, s) == vector_of(with, s) by {}
        }
        assert forall|i: int, node: NodeIndex| #[trigger]
            last_row_for(graph, node_type, rows, i, count as int, node) implies {
            &&& vector_of(plus, node.slot) == Some(rows[i].1)
            &&& hash_of(plus, node.slot) is None
            &&& vector_of(set, node.slot) == Some(rows[i].1)
        } by {
            if i < count - 1 {
                assert(last_row_for(graph, node_type, rows, i, prior as int, node));
                assert(node_by_id(graph, node_type, rows[count - 1].0) != Some(node));
                if let Some(at) = found {
                    assert(at.slot != node.slot);
                    assert(vector_of(plus, node.slot) == vector_of(plus_before, node.slot));
                    assert(vector_of(set, node.slot) == vector_of(set_before, node.slot));
                }
            }
        }
        assert forall|node: NodeIndex| #[trigger]
            no_row_for(graph, node_type, rows, count as int, node) implies {
            &&& vector_of(plus, node.slot) == vector_of(base, node.slot)
            &&& hash_of(plus, node.slot) == hash_of(base, node.slot)
            &&& vector_of(set, node.slot) == vector_of(base, node.slot)
        } by {
            assert(no_row_for(graph, node_type, rows, prior as int, node));
            assert(node_by_id(graph, node_type, rows[count - 1].0) != Some(node));
            if let Some(at) = found {
                assert(at.slot != node.slot);
                assert(vector_of(plus, node.slot) == vector_of(plus_before, node.slot));
                assert(vector_of(set, node.slot) == vector_of(set_before, node.slot));
            }
        }
    }
}

/// A node store that a batch replaced reads back, for each node of the batch, the
/// vector of the last row that names the node, and holds no other; no hash or
/// model is recorded.
pub proof fn a_set_vector_reads_back(
    graph: DirGraph,
    node_type: Text,
    rows: Seq<(ValueModel, Seq<u32>)>,
    dimension: usize,
    metric: Option<Text>,
    batch: PreparedModel,
)
    requires
        prepared_upto(graph, node_type, None, rows, rows.len()) == Ok::<PreparedModel, Text>(batch),
    ensures
        ({
            let store = written(
                empty_store(dimension, metric),
                batch.entries,
                batch.entries.len(),
            );
            &&& store.model_id is None
            &&& store.hashes == Map::<usize, u64>::empty()
            &&& forall|i: int, node: NodeIndex| #[trigger]
                last_row_for(graph, node_type, rows, i, rows.len() as int, node) ==> vector_of(
                    store,
                    node.slot,
                ) == Some(rows[i].1)
            &&& forall|node: NodeIndex| #[trigger]
                no_row_for(graph, node_type, rows, rows.len() as int, node) ==> vector_of(
                    store,
                    node.slot,
                ) is None
        }),
{
    let base = empty_store(dimension, metric);
    prepared_vectors_read_back(graph, node_type, None, rows, rows.len(), base);
}

/// A node store that a batch was added to reads back, for each node of the batch,
/// the vector of the last row that names the node, without a hash; every other
/// node reads as before.
pub proof fn an_added_vector_reads_back(
    graph: DirGraph,
    node_type: Text,
    constraint: Option<usize>,
    rows: Seq<(ValueModel, Seq<u32>)>,
    base: StoreModel,
    batch: PreparedModel,
)
    requires
        coherent(base),
        prepared_upto(graph, node_type, constraint, rows, rows.len()) == Ok::<PreparedModel, Text>(
            batch,
        ),
    ensures
        ({
            let store = added(base, batch.entries, batch.entries.len());
            &&& forall|i: int, node: NodeIndex| #[trigger]
                last_row_for(graph, node_type, rows, i, rows.len() as int, node) ==> vector_of(
                    store,
                    node.slot,
                ) == Some(rows[i].1) && hash_of(store, node.slot) is None
            &&& forall|node: NodeIndex| #[trigger]
                no_row_for(graph, node_type, rows, rows.len() as int, node) ==> vector_of(
                    store,
                    node.slot,
                ) == vector_of(base, node.slot) && hash_of(store, node.slot) == hash_of(
                    base,
                    node.slot,
                )
        }),
{
    prepared_vectors_read_back(graph, node_type, constraint, rows, rows.len(), base);
}

} // verus!
