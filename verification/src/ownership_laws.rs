//! What a graph's relationship stores hold between writes: every vector is
//! finite, and belongs to a live relationship of the store's type.

use crate::catalog::{a_kept_store_is_found, entry_place, keys_distinct, lookup, place_is_first};
use crate::coordinate::{all_finite, fault_of};
use crate::edge_delete::stores_without;
use crate::edge_generated::{
    all_installed, faultless_write_is_sound, generated_successor, install_done, install_fault,
    WriteModel,
};
use crate::edge_replace::{all_removed, removal_done, replace_done, replace_fault, store_of_entries};
use crate::edge_writes::{
    changed_slots, entries_sound, faultless_entries_are_sound, manual_writes, upsert_dimension,
    upsert_done, upsert_fault, upserted, EdgeEmbeddingWriteReport,
};
use crate::graph::DirGraph;
use crate::names::store_name_of;
use crate::relationship_writes::with_relationship;
use crate::store::{
    empty_store, holds, place_of, tail_swapped, unindexed, with_hash, with_vector, without_vector,
    StoreModel,
};
use crate::text::Text;
use crate::topology::{EdgeRecord, Topology};
use crate::undo_laws::kept_store_is_coherent;
use crate::value::EdgeIndex;
use vstd::prelude::*;

verus! {

/// Whether a store's vectors are finite, and belong to live relationships of a
/// type.
pub open spec fn owned(topology: Topology, connection_type: Text, store: StoreModel) -> bool {
    &&& store.dimension > 0
    &&& store.nodes.len() == store.rows.len()
    &&& forall|i: int| 0 <= i < store.rows.len() ==> all_finite(#[trigger] store.rows[i])
    &&& forall|i: int|
        0 <= i < store.nodes.len() ==> topology.live_of_type(
            EdgeIndex { slot: #[trigger] store.nodes[i] },
            connection_type,
        )
}

/// Whether every relationship store of a graph is owned.
pub open spec fn stores_owned(graph: DirGraph) -> bool {
    forall|t: Text, n: Text| #[trigger]
        lookup(graph.edge_embeddings@, t, n) is Some ==> owned(
            graph.topology,
            t,
            lookup(graph.edge_embeddings@, t, n)->0,
        )
}

pub(crate) proof fn a_write_keeps_owned(
    topology: Topology,
    connection_type: Text,
    store: StoreModel,
    slot: usize,
    vector: Seq<u32>,
    hash: Option<u64>,
)
    requires
        owned(topology, connection_type, store),
        topology.live_of_type(EdgeIndex { slot }, connection_type),
        fault_of(vector) is None,
    ensures
        owned(topology, connection_type, with_vector(store, slot, vector)),
        owned(topology, connection_type, with_hash(with_vector(store, slot, vector), slot, hash)),
{
    let after = with_vector(store, slot, vector);
    if holds(store, slot) {
        assert(store.nodes[place_of(store, slot)] == slot);
    }
    assert forall|i: int| 0 <= i < after.rows.len() implies all_finite(#[trigger] after.rows[i]) by {
        if i < store.rows.len() {
            assert(all_finite(store.rows[i]));
        }
    }
    assert forall|i: int| 0 <= i < after.nodes.len() implies topology.live_of_type(
        EdgeIndex { slot: #[trigger] after.nodes[i] },
        connection_type,
    ) by {
        if i < store.nodes.len() {
            assert(after.nodes[i] == store.nodes[i]);
        }
    }
}

proof fn a_removal_keeps_owned(
    topology: Topology,
    connection_type: Text,
    store: StoreModel,
    slot: usize,
)
    requires
        owned(topology, connection_type, store),
    ensures
        owned(topology, connection_type, without_vector(store, slot)),
{
    if holds(store, slot) {
        let at = place_of(store, slot);
        let after = without_vector(store, slot);
        assert(store.nodes[at] == slot);
        assert(after.nodes == tail_swapped(store.nodes, at));
        assert(after.rows == tail_swapped(store.rows, at));
        assert forall|i: int| 0 <= i < after.rows.len() implies all_finite(
            #[trigger] after.rows[i],
        ) by {
            assert(all_finite(store.rows[i]) && all_finite(store.rows[store.rows.len() - 1]));
        }
        assert forall|i: int| 0 <= i < after.nodes.len() implies topology.live_of_type(
            EdgeIndex { slot: #[trigger] after.nodes[i] },
            connection_type,
        ) by {
            assert(topology.live_of_type(EdgeIndex { slot: store.nodes[i] }, connection_type));
            assert(topology.live_of_type(
                EdgeIndex { slot: store.nodes[store.nodes.len() - 1] },
                connection_type,
            ));
        }
    }
}

proof fn removals_keep_owned(
    topology: Topology,
    connection_type: Text,
    store: StoreModel,
    edges: Seq<EdgeIndex>,
    count: nat,
)
    requires
        owned(topology, connection_type, store),
    ensures
        owned(topology, connection_type, all_removed(store, edges, count)),
    decreases count,
{
    if count > 0 {
        removals_keep_owned(topology, connection_type, store, edges, (count - 1) as nat);
        a_removal_keeps_owned(
            topology,
            connection_type,
            all_removed(store, edges, (count - 1) as nat),
            edges[count - 1].slot,
        );
    }
}

proof fn manual_writes_keep_owned(
    topology: Topology,
    connection_type: Text,
    store: StoreModel,
    entries: Seq<(EdgeIndex, Seq<u32>)>,
    slots: Set<usize>,
    count: nat,
)
    requires
        owned(topology, connection_type, store),
        entries_sound(topology, connection_type, entries, store.dimension),
        count <= entries.len(),
    ensures
        owned(topology, connection_type, manual_writes(store, entries, slots, count)),
    decreases count,
{
    if count > 0 {
        manual_writes_keep_owned(
            topology,
            connection_type,
            store,
            entries,
            slots,
            (count - 1) as nat,
        );
        let last = entries[count - 1];
        assert(topology.live_of_type(last.0, connection_type));
        assert(last.0 == EdgeIndex { slot: last.0.slot });
        a_write_keeps_owned(
            topology,
            connection_type,
            manual_writes(store, entries, slots, (count - 1) as nat),
            last.0.slot,
            last.1,
            None,
        );
    }
}

proof fn installs_keep_owned(
    topology: Topology,
    connection_type: Text,
    store: StoreModel,
    generated: Seq<(EdgeIndex, Seq<u32>, u64)>,
    count: nat,
)
    requires
        owned(topology, connection_type, store),
        count <= generated.len(),
        forall|i: int|
            0 <= i < generated.len() ==> topology.live_of_type(
                (#[trigger] generated[i]).0,
                connection_type,
            ) && fault_of(generated[i].1) is None,
    ensures
        owned(topology, connection_type, all_installed(store, generated, count)),
    decreases count,
{
    if count > 0 {
        installs_keep_owned(topology, connection_type, store, generated, (count - 1) as nat);
        let last = generated[count - 1];
        assert(last.0 == EdgeIndex { slot: last.0.slot });
        a_write_keeps_owned(
            topology,
            connection_type,
            all_installed(store, generated, (count - 1) as nat),
            last.0.slot,
            last.1,
            Some(last.2),
        );
    }
}

proof fn one_store_keeps_owned(
    before: DirGraph,
    after: DirGraph,
    connection_type: Text,
    name: Text,
    store: StoreModel,
)
    requires
        stores_owned(before),
        after.topology == before.topology,
        after.edge_embeddings@ == crate::catalog::with_entry(
            before.edge_embeddings@,
            connection_type,
            name,
            store,
        ),
        owned(before.topology, connection_type, store),
    ensures
        stores_owned(after),
{
    a_kept_store_is_found(before.edge_embeddings@, connection_type, name, store);
    assert forall|t: Text, n: Text| #[trigger]
        lookup(after.edge_embeddings@, t, n) is Some implies owned(
        after.topology,
        t,
        lookup(after.edge_embeddings@, t, n)->0,
    ) by {
        if !(t == connection_type && n == name) {
            assert(lookup(before.edge_embeddings@, t, n) is Some);
        }
    }
}

/// A batch of vectors keeps every store owned.
pub proof fn an_upsert_keeps_stores_owned(
    before: DirGraph,
    after: DirGraph,
    connection_type: Text,
    text_property: Text,
    entries: Seq<(EdgeIndex, Seq<u32>)>,
    metric: Option<Text>,
    list: Text,
    report: EdgeEmbeddingWriteReport,
)
    requires
        stores_owned(before),
        entries.len() > 0,
        entries[0].1.len() <= usize::MAX,
        upsert_fault(
            before.topology,
            connection_type,
            lookup(before.edge_embeddings@, connection_type, store_name_of(text_property)),
            entries,
            metric,
            list,
        ) is None,
        upsert_done(before, after, connection_type, text_property, entries, metric, report),
    ensures
        stores_owned(after),
{
    let name = store_name_of(text_property);
    let existing = lookup(before.edge_embeddings@, connection_type, name);
    let changed = changed_slots(existing, entries, entries.len() as int);
    if after != before {
        let dimension = upsert_dimension(existing, entries);
        faultless_entries_are_sound(before.topology, connection_type, entries, dimension, list);
        let base = match existing {
            Some(store) => store,
            None => empty_store(dimension, metric),
        };
        manual_writes_keep_owned(
            before.topology,
            connection_type,
            base,
            entries,
            changed,
            entries.len(),
        );
        one_store_keeps_owned(
            before,
            after,
            connection_type,
            name,
            upserted(existing, entries, metric),
        );
    }
}

/// Replacing a store by a batch of vectors keeps every store owned.
pub proof fn a_replacement_keeps_stores_owned(
    before: DirGraph,
    after: DirGraph,
    connection_type: Text,
    text_property: Text,
    entries: Seq<(EdgeIndex, Seq<u32>)>,
    metric: Option<Text>,
    list: Text,
    affected: Seq<EdgeIndex>,
)
    requires
        stores_owned(before),
        entries.len() > 0,
        entries[0].1.len() <= usize::MAX,
        replace_fault(before.topology, connection_type, entries, metric, list) is None,
        replace_done(
            before,
            after,
            connection_type,
            text_property,
            store_of_entries(entries[0].1.len() as usize, metric, entries),
            affected,
        ),
    ensures
        stores_owned(after),
{
    let dimension = entries[0].1.len() as usize;
    let store = store_of_entries(dimension, metric, entries);
    faultless_entries_are_sound(before.topology, connection_type, entries, dimension, list);
    assert forall|i: int| 0 <= i < store.rows.len() implies all_finite(
        #[trigger] store.rows[i],
    ) by {
        assert(fault_of(entries[i].1) is None);
    }
    assert forall|i: int| 0 <= i < store.nodes.len() implies before.topology.live_of_type(
        EdgeIndex { slot: #[trigger] store.nodes[i] },
        connection_type,
    ) by {
        assert(before.topology.live_of_type(entries[i].0, connection_type));
        assert(entries[i].0 == EdgeIndex { slot: entries[i].0.slot });
    }
    one_store_keeps_owned(before, after, connection_type, store_name_of(text_property), store);
}

/// Generated vectors keep every store owned.
pub proof fn a_generated_write_keeps_stores_owned(
    before: DirGraph,
    after: DirGraph,
    connection_type: Text,
    text_property: Text,
    write: WriteModel,
    report: EdgeEmbeddingWriteReport,
)
    requires
        stores_owned(before),
        install_fault(
            before.topology,
            connection_type,
            lookup(before.edge_embeddings@, connection_type, store_name_of(text_property)),
            write,
        ) is None,
        install_done(before, after, connection_type, text_property, write, report),
    ensures
        stores_owned(after),
{
    let name = store_name_of(text_property);
    let existing = lookup(before.edge_embeddings@, connection_type, name);
    if after != before {
        faultless_write_is_sound(before.topology, connection_type, write);
        assert forall|i: int| 0 <= i < write.generated.len() implies before.topology.live_of_type(
            (#[trigger] write.generated[i]).0,
            connection_type,
        ) && fault_of(write.generated[i].1) is None by {
            let k = write.affected.index_of(write.generated[i].0);
            assert(write.affected[k] == write.generated[i].0);
        }
        let base = if existing is Some && !crate::edge_generated::dimension_changes(
            existing,
            write,
        ) {
            existing->0
        } else {
            empty_store(write.dimension, write.metric)
        };
        let declared = StoreModel {
            dimension: write.dimension,
            metric: write.metric,
            model_id: write.model_id,
            ..base
        };
        assert(owned(before.topology, connection_type, declared));
        removals_keep_owned(
            before.topology,
            connection_type,
            declared,
            write.removed,
            write.removed.len(),
        );
        installs_keep_owned(
            before.topology,
            connection_type,
            all_removed(declared, write.removed, write.removed.len()),
            write.generated,
            write.generated.len(),
        );
        one_store_keeps_owned(
            before,
            after,
            connection_type,
            name,
            generated_successor(existing, write),
        );
    }
}

/// Removing vectors keeps every store owned.
pub proof fn a_removal_keeps_stores_owned(
    before: DirGraph,
    after: DirGraph,
    connection_type: Text,
    text_property: Text,
    edges: Seq<EdgeIndex>,
)
    requires
        stores_owned(before),
        lookup(before.edge_embeddings@, connection_type, store_name_of(text_property)) is Some,
        removal_done(before, after, connection_type, text_property, edges),
    ensures
        stores_owned(after),
{
    let name = store_name_of(text_property);
    let store = lookup(before.edge_embeddings@, connection_type, name)->0;
    assert(owned(before.topology, connection_type, unindexed(store)));
    removals_keep_owned(
        before.topology,
        connection_type,
        unindexed(store),
        edges,
        edges.len(),
    );
    one_store_keeps_owned(
        before,
        after,
        connection_type,
        name,
        all_removed(unindexed(store), edges, edges.len()),
    );
}

/// Where nothing else changes in the stores, a lookup finds the same store
/// without the vector of one relationship.
proof fn lookup_without(
    entries: Seq<crate::catalog::EntryModel<StoreModel>>,
    edge: EdgeIndex,
    t: Text,
    n: Text,
)
    requires
        keys_distinct(entries),
    ensures
        lookup(stores_without(entries, edge), t, n) == match lookup(entries, t, n) {
            Some(store) => Some(without_vector(store, edge.slot)),
            None => None,
        },
{
    let after = stores_without(entries, edge);
    place_is_first(entries, t, n);
    place_is_first(after, t, n);
    let a = entry_place(entries, t, n);
    let b = entry_place(after, t, n);
    if a < entries.len() {
        assert(after[a].owner_type == t && after[a].name == n);
        if b < a {
            assert(entries[b].owner_type == t);
        }
        if a < b {
            assert(!(after[a].owner_type == t && after[a].name == n));
        }
        assert(a == b);
    } else if b < after.len() {
        assert(after[b].owner_type == t && after[b].name == n);
        assert(entries[b].owner_type == t && entries[b].name == n);
    }
}

/// Deleting a relationship takes its vectors with it, so that every store stays
/// owned: no vector is left to whatever is made in its slot next.
pub proof fn deleting_a_relationship_keeps_stores_owned(
    before: DirGraph,
    after: DirGraph,
    edge: EdgeIndex,
)
    requires
        before.well_formed(),
        stores_owned(before),
        before.topology.live(edge),
        after.topology.nodes == before.topology.nodes,
        after.topology.edges@ == before.topology.edges@.update(edge.slot as int, None),
        after.edge_embeddings@ == stores_without(before.edge_embeddings@, edge),
    ensures
        stores_owned(after),
        forall|t: Text, n: Text| #[trigger]
            lookup(after.edge_embeddings@, t, n) is Some ==> !holds(
                lookup(after.edge_embeddings@, t, n)->0,
                edge.slot,
            ),
{
    assert forall|t: Text, n: Text| #[trigger]
        lookup(after.edge_embeddings@, t, n) is Some implies owned(
        after.topology,
        t,
        lookup(after.edge_embeddings@, t, n)->0,
    ) && !holds(lookup(after.edge_embeddings@, t, n)->0, edge.slot) by {
        lookup_without(before.edge_embeddings@, edge, t, n);
        let store = lookup(before.edge_embeddings@, t, n)->0;
        let left = without_vector(store, edge.slot);
        kept_store_is_coherent(before, t, n);
        assert(owned(before.topology, t, store));
        a_removal_keeps_owned(before.topology, t, store, edge.slot);
        assert(!holds(left, edge.slot)) by {
            if holds(store, edge.slot) {
                let at = place_of(store, edge.slot);
                assert(store.nodes[at] == edge.slot);
                if holds(left, edge.slot) {
                    let k = place_of(left, edge.slot);
                    assert(left.nodes[k] == edge.slot);
                    assert(left.nodes == tail_swapped(store.nodes, at));
                    let from = if k == at {
                        store.nodes.len() - 1
                    } else {
                        k
                    };
                    assert(store.nodes[from] == edge.slot);
                    assert(from == at);
                }
            }
        }
        assert forall|i: int| 0 <= i < left.nodes.len() implies after.topology.live_of_type(
            EdgeIndex { slot: #[trigger] left.nodes[i] },
            t,
        ) by {
            assert(left.nodes.contains(left.nodes[i]));
            assert(left.nodes[i] != edge.slot);
            assert(before.topology.live_of_type(EdgeIndex { slot: left.nodes[i] }, t));
        }
    }
}

/// Making a relationship keeps every store owned: it has no vector yet.
pub proof fn making_a_relationship_keeps_stores_owned(
    before: DirGraph,
    after: DirGraph,
    edge: EdgeIndex,
    record: EdgeRecord,
)
    requires
        before.well_formed(),
        stores_owned(before),
        !before.topology.live(edge),
        edge.slot == if before.topology.vacant@.len() > 0 {
            before.topology.vacant@.last() as int
        } else {
            before.topology.edges@.len() as int
        },
        after.topology.edges@ == with_relationship(
            before.topology.edges@,
            before.topology.vacant@,
            record,
        ),
        after.edge_embeddings == before.edge_embeddings,
    ensures
        stores_owned(after),
        forall|t: Text, n: Text| #[trigger]
            lookup(after.edge_embeddings@, t, n) is Some ==> !holds(
                lookup(after.edge_embeddings@, t, n)->0,
                edge.slot,
            ),
{
    assert forall|t: Text, n: Text| #[trigger]
        lookup(after.edge_embeddings@, t, n) is Some implies owned(
        after.topology,
        t,
        lookup(after.edge_embeddings@, t, n)->0,
    ) && !holds(lookup(after.edge_embeddings@, t, n)->0, edge.slot) by {
        let store = lookup(before.edge_embeddings@, t, n)->0;
        assert(lookup(before.edge_embeddings@, t, n) is Some);
        assert forall|i: int| 0 <= i < store.nodes.len() implies after.topology.live_of_type(
            EdgeIndex { slot: #[trigger] store.nodes[i] },
            t,
        ) && store.nodes[i] != edge.slot by {
            assert(before.topology.live_of_type(EdgeIndex { slot: store.nodes[i] }, t));
        }
        if holds(store, edge.slot) {
            assert(store.nodes[place_of(store, edge.slot)] == edge.slot);
        }
    }
}

} // verus!
