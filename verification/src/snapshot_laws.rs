//! What a snapshot gives back of the stores it was written from.

use crate::catalog::{a_kept_store_is_found, entry_place, kept, lookup, place_is_first};
use crate::coordinate::{all_finite, is_finite};
use crate::edge_store::EdgeEmbeddingStore;
use crate::freshness::{uncovered, DEFAULT_AUTO_REFRESH_LIMIT};
use crate::graph::DirGraph;
use crate::name_pairs::{keys_kept, listed_keys_are_kept};
use crate::names::column_of;
use crate::ownership_laws::{owned, stores_owned};
use crate::snapshot::{
    hashes_belong, kept_of, owners_fault, read_store, read_upto, repeated_slot, taken, takes_store,
    writes_stores, written_keys, DecodedModel,
};
use crate::store::{row_fits, row_of, rows_of, StoreModel};
use crate::text::Text;
use crate::topology::Topology;
use crate::value::EdgeIndex;
use vstd::prelude::*;

verus! {

/// A store as it is read back: the same, without an index.
pub open spec fn without_index(store: StoreModel) -> StoreModel {
    StoreModel { index: None, freshness: uncovered(DEFAULT_AUTO_REFRESH_LIMIT), ..store }
}

proof fn different_slots_do_not_repeat(slots: Seq<usize>, count: nat)
    requires
        slots.no_duplicates(),
        count <= slots.len(),
    ensures
        repeated_slot(slots, count) is None,
    decreases count,
{
    if count > 0 {
        different_slots_do_not_repeat(slots, (count - 1) as nat);
        let earlier = slots.take(count - 1);
        if earlier.contains(slots[count - 1]) {
            let k = earlier.index_of(slots[count - 1]);
            assert(earlier[k] == slots[count - 1]);
            assert(slots[k] == slots[count - 1]);
        }
    }
}

proof fn owners_are_faultless(
    topology: Topology,
    connection_type: Text,
    slots: Seq<usize>,
    count: nat,
)
    requires
        topology.well_formed(),
        count <= slots.len(),
        forall|i: int|
            0 <= i < slots.len() ==> topology.live_of_type(
                EdgeIndex { slot: #[trigger] slots[i] },
                connection_type,
            ),
    ensures
        owners_fault(topology, connection_type, slots, count) is None,
    decreases count,
{
    if count > 0 {
        owners_are_faultless(topology, connection_type, slots, (count - 1) as nat);
        let edge = EdgeIndex { slot: slots[count - 1] };
        assert(topology.live_of_type(edge, connection_type));
        assert(topology.edges@[edge.slot as int] is Some);
    }
}

proof fn finite_rows_are_finite_data(data: Seq<u32>, dimension: nat, count: nat)
    requires
        dimension > 0,
        data.len() == count * dimension,
        forall|i: int|
            0 <= i < count ==> all_finite(#[trigger] rows_of(data, dimension, count)[i]),
    ensures
        all_finite(data),
{
    assert forall|k: int| 0 <= k < data.len() implies is_finite(#[trigger] data[k]) by {
        let i = k / dimension as int;
        let j = k % dimension as int;
        vstd::arithmetic::div_mod::lemma_fundamental_div_mod(k, dimension as int);
        assert(0 <= i && i * dimension + j == k && 0 <= j < dimension) by (nonlinear_arith)
            requires
                0 <= k,
                dimension > 0,
                k == dimension as int * (k / dimension as int) + k % dimension as int,
                i == k / dimension as int,
                j == k % dimension as int,
        ;
        assert(i < count) by (nonlinear_arith)
            requires
                k < count * dimension,
                i * dimension + j == k,
                0 <= j,
                dimension > 0,
        ;
        row_fits(i, count, dimension);
        let row = rows_of(data, dimension, count)[i];
        assert(row == row_of(data, dimension, i));
        assert(all_finite(row));
        assert(row[j] == data[k]);
    }
}

/// A graph takes what a snapshot keeps of an owned store, and reads the store
/// back from it, but for its index.
pub proof fn a_kept_store_reads_back(
    topology: Topology,
    connection_type: Text,
    name: Text,
    store: EdgeEmbeddingStore,
)
    requires
        topology.well_formed(),
        store.well_formed(),
        owned(topology, connection_type, store@),
        connection_type.len() > 0,
        column_of(name) is Some,
    ensures
        taken(topology, connection_type, name, kept_of(store)),
        read_store(kept_of(store)) == without_index(store@),
{
    let written = kept_of(store);
    store.numeric.is_coherent();
    different_slots_do_not_repeat(written.edge_slots, written.edge_slots.len());
    owners_are_faultless(
        topology,
        connection_type,
        written.edge_slots,
        written.edge_slots.len(),
    );
    finite_rows_are_finite_data(
        written.data,
        written.dimension as nat,
        written.edge_slots.len(),
    );
    assert(hashes_belong(written)) by {
        assert forall|slot: usize| #[trigger]
            written.hashes.contains_key(slot) implies written.edge_slots.contains(slot) by {
            assert(store.numeric.text_hashes@.contains_key(slot));
            assert(store@.hashes.contains_key(slot));
        }
    }
    assert(read_store(written) =~= without_index(store@));
}

proof fn read_stores_are_found(models: Seq<DecodedModel>, count: nat, t: Text, n: Text)
    requires
        count <= models.len(),
        written_keys(models).no_duplicates(),
    ensures
        forall|i: int|
            0 <= i < count && (#[trigger] models[i]).relationship_type == t && models[i].property
                == n ==> lookup(read_upto(models, count), t, n) == Some(
                read_store(models[i].store),
            ),
        lookup(read_upto(models, count), t, n) is Some ==> exists|i: int|
            0 <= i < count && (#[trigger] models[i]).relationship_type == t && models[i].property
                == n,
    decreases count,
{
    if count > 0 {
        read_stores_are_found(models, (count - 1) as nat, t, n);
        let last = models[count - 1];
        a_kept_store_is_found(
            read_upto(models, (count - 1) as nat),
            last.relationship_type,
            last.property,
            read_store(last.store),
        );
        assert forall|i: int|
            0 <= i < count && (#[trigger] models[i]).relationship_type == t && models[i].property
                == n implies lookup(read_upto(models, count), t, n) == Some(
            read_store(models[i].store),
        ) by {
            if i < count - 1 && last.relationship_type == t && last.property == n {
                assert(written_keys(models)[i] == written_keys(models)[count - 1]);
            }
        }
        if lookup(read_upto(models, count), t, n) is Some {
            if last.relationship_type == t && last.property == n {
                assert(models[count - 1].relationship_type == t);
            } else {
                assert(lookup(read_upto(models, (count - 1) as nat), t, n) is Some);
            }
        }
    }
}

/// A graph takes every store that a snapshot of it wrote, and finds under each
/// key the store that was there, but for its index. Left out is a store that is
/// kept under the empty relationship type, which is written and not taken.
pub proof fn a_snapshot_reads_back(graph: DirGraph, models: Seq<DecodedModel>)
    requires
        graph.well_formed(),
        stores_owned(graph),
        writes_stores(graph.edge_embeddings, models),
        forall|t: Text, n: Text| #[trigger]
            lookup(graph.edge_embeddings@, t, n) is Some ==> t.len() > 0,
    ensures
        forall|i: int| 0 <= i < models.len() ==> takes_store(graph.topology, #[trigger] models[i]),
        forall|t: Text, n: Text| #[trigger]
            lookup(read_upto(models, models.len()), t, n) == match lookup(
                graph.edge_embeddings@,
                t,
                n,
            ) {
                Some(store) => Some(without_index(store)),
                None => None,
            },
{
    let catalog = graph.edge_embeddings;
    let keys = written_keys(models);
    assert forall|i: int| 0 <= i < models.len() implies takes_store(
        graph.topology,
        #[trigger] models[i],
    ) && kept(catalog@, models[i].relationship_type, models[i].property) && read_store(
        models[i].store,
    ) == without_index(
        lookup(catalog@, models[i].relationship_type, models[i].property)->0,
    ) by {
        let t = models[i].relationship_type;
        let n = models[i].property;
        assert(keys[i] == (t, n));
        assert(keys.contains(keys[i]));
        assert(keys.to_set().contains((t, n)));
        listed_keys_are_kept(catalog@, (t, n));
        place_is_first(catalog@, t, n);
        let place = entry_place(catalog@, t, n);
        let entry = catalog.entries@[place];
        assert(lookup(catalog@, t, n) == Some(entry.store@));
        assert(entry.store.well_formed());
        assert(catalog@[place].name == entry.name@);
        a_kept_store_reads_back(graph.topology, t, n, entry.store);
    }
    assert(keys.no_duplicates());
    assert forall|t: Text, n: Text| #[trigger]
        lookup(read_upto(models, models.len()), t, n) == match lookup(catalog@, t, n) {
            Some(store) => Some(without_index(store)),
            None => None,
        } by {
        read_stores_are_found(models, models.len(), t, n);
        if lookup(catalog@, t, n) is Some {
            place_is_first(catalog@, t, n);
            let place = entry_place(catalog@, t, n);
            assert(catalog@[place].owner_type == t && catalog@[place].name == n);
            assert(keys_kept(catalog@, catalog@.len() as int).contains((t, n)));
            assert(keys.to_set().contains((t, n)));
            assert(keys.contains((t, n)));
            let i = keys.index_of((t, n));
            assert(keys[i] == (t, n));
            assert(models[i].relationship_type == t && models[i].property == n);
        } else if lookup(read_upto(models, models.len()), t, n) is Some {
            let i = choose|i: int|
                0 <= i < models.len() && (#[trigger] models[i]).relationship_type == t
                    && models[i].property == n;
            assert(takes_store(graph.topology, models[i]));
        }
    }
}

} // verus!
