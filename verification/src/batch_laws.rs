//! What holds of vectors that are written by hand.

use crate::catalog::{a_dropped_store_is_gone, a_kept_store_is_found, lookup};
use crate::coordinate::{
    all_finite, fault_of, first_non_finite, is_finite, non_finite_name, same_number, same_vector,
};
use crate::edge_replace::{drop_done, removal_done, replace_done, replace_fault, store_of_entries};
use crate::edge_writes::{
    cell_changes, changed_slots, entries_fault, entry_fault, metric_fault, slots_of, upsert_done,
    upsert_fault, upserted, EdgeEmbeddingWriteReport,
};
use crate::graph::DirGraph;
use crate::metric::metric_named;
use crate::names::store_name_of;
use crate::plan_laws::{owned, same_numbers};
use crate::store::{coherent, hash_of, unindexed, vector_of, StoreModel};
use crate::text::Text;
use crate::topology::Topology;
use crate::value::EdgeIndex;
use crate::write_laws::{an_upserted_vector_reads_back, removed_vectors_are_gone};
use vstd::prelude::*;

verus! {

/// A coordinate is a number: its exponent is not all ones.
pub open spec fn numeric(bits: u32) -> bool {
    (bits / 0x80_0000) % 0x100 != 0xFF
}

/// Every coordinate is a number.
pub open spec fn all_numeric(vector: Seq<u32>) -> bool {
    forall|i: int| 0 <= i < vector.len() ==> numeric(#[trigger] vector[i])
}

proof fn numeric_is_finite(bits: u32)
    ensures
        numeric(bits) <==> is_finite(bits),
{
    let low = bits % 0x8000_0000;
    assert(low < 0x7F80_0000 <==> low / 0x80_0000 < 0xFF);
    assert((bits / 0x80_0000) % 0x100 == low / 0x80_0000);
}

/// A vector is refused exactly where a coordinate is no number, and the first such
/// one is named with its place.
pub proof fn a_vector_of_numbers_has_no_fault(vector: Seq<u32>)
    requires
        vector.len() <= usize::MAX,
    ensures
        fault_of(vector) is None <==> all_numeric(vector),
        fault_of(vector) is Some ==> {
            let fault = fault_of(vector)->0;
            &&& fault.index < vector.len()
            &&& fault.value == vector[fault.index as int]
            &&& !numeric(fault.value)
            &&& forall|i: int| 0 <= i < fault.index ==> numeric(#[trigger] vector[i])
        },
{
    assert forall|bits: u32| #[trigger] numeric(bits) <==> is_finite(bits) by {
        numeric_is_finite(bits);
    }
    assert(all_finite(vector) <==> all_numeric(vector)) by {
        if all_finite(vector) {
            assert forall|i: int| 0 <= i < vector.len() implies numeric(#[trigger] vector[i]) by {
                assert(is_finite(vector[i]));
            }
        }
        if all_numeric(vector) {
            assert forall|i: int| 0 <= i < vector.len() implies is_finite(#[trigger] vector[i]) by {
                assert(numeric(vector[i]));
            }
        }
    }
    if !all_finite(vector) {
        assert(vector.take(vector.len() as int) =~= vector);
        let p = a_first_fault(vector, vector.len() as int);
        let position = choose|p: int| first_non_finite(vector, p);
        assert(first_non_finite(vector, position));
        assert forall|i: int| 0 <= i < position implies numeric(#[trigger] vector[i]) by {
            assert(vector.take(position)[i] == vector[i]);
        }
    }
}

proof fn a_first_fault(vector: Seq<u32>, count: int) -> (at: int)
    requires
        0 <= count <= vector.len(),
        !all_finite(vector.take(count)),
    ensures
        first_non_finite(vector, at),
    decreases count,
{
    let head = vector.take(count);
    let i = choose|i: int| 0 <= i < head.len() && !is_finite(#[trigger] head[i]);
    if all_finite(vector.take(i)) {
        assert(vector[i] == head[i]);
        i
    } else {
        a_first_fault(vector, i)
    }
}

/// An infinity is named by its sign, and everything else that is no number is
/// named NaN.
pub proof fn what_is_no_number_is_named(bits: u32)
    requires
        !numeric(bits),
    ensures
        bits == 0x7F80_0000 ==> non_finite_name(bits) == "inf"@,
        bits == 0xFF80_0000 ==> non_finite_name(bits) == "-inf"@,
        bits != 0x7F80_0000 && bits != 0xFF80_0000 ==> non_finite_name(bits) == "NaN"@,
{
    numeric_is_finite(bits);
}

/// Two vectors of numbers count as the same exactly where they are the same
/// numbers: equal bits throughout, but for the sign of a zero.
pub proof fn vectors_are_the_same_as_numbers(a: Seq<u32>, b: Seq<u32>)
    requires
        all_numeric(a),
        all_numeric(b),
    ensures
        same_vector(a, b) <==> same_numbers(a, b),
{
    if a.len() == b.len() {
        assert forall|i: int| 0 <= i < a.len() implies {
            same_number(#[trigger] a[i], b[i]) <==> a[i] == b[i] || (a[i] % 0x8000_0000 == 0 && b[i]
                % 0x8000_0000 == 0)
        } by {
            assert(numeric(a[i]) && numeric(b[i]));
            numeric_is_finite(a[i]);
            numeric_is_finite(b[i]);
        }
        if same_vector(a, b) {
            assert forall|i: int| 0 <= i < a.len() implies #[trigger] a[i] == b[i] || (a[i]
                % 0x8000_0000 == 0 && b[i] % 0x8000_0000 == 0) by {
                assert(same_number(a[i], b[i]));
            }
        }
    }
}

/// A metric is one of four names.
pub proof fn there_are_four_metrics(name: Text)
    ensures
        metric_named(name) is Some <==> name == "cosine"@ || name == "dot_product"@ || name
            == "euclidean"@ || name == "poincare"@,
        metric_fault(Some(name)) is None <==> name == "cosine"@ || name == "dot_product"@ || name
            == "euclidean"@ || name == "poincare"@,
        metric_fault(None) is None,
{
}

/// A batch can be written: live relationships of the type, each once, and with
/// vectors of numbers of one length.
pub open spec fn batch_fits(
    topology: Topology,
    connection_type: Text,
    entries: Seq<(EdgeIndex, Seq<u32>)>,
    dimension: usize,
) -> bool {
    &&& forall|i: int|
        0 <= i < entries.len() ==> {
            &&& (#[trigger] entries[i]).0.slot < topology.edges@.len()
            &&& topology.edges@[entries[i].0.slot as int] is Some
            &&& topology.edges@[entries[i].0.slot as int]->0.data.connection_type@
                == connection_type
            &&& entries[i].1.len() == dimension
            &&& all_numeric(entries[i].1)
        }
    &&& forall|i: int, j: int|
        0 <= i < j < entries.len() ==> (#[trigger] entries[i]).0.slot != (
        #[trigger] entries[j]).0.slot
}

proof fn a_fit_batch_has_no_fault(
    topology: Topology,
    connection_type: Text,
    entries: Seq<(EdgeIndex, Seq<u32>)>,
    dimension: usize,
    list: Text,
    position: int,
)
    requires
        0 <= position <= entries.len(),
        batch_fits(topology, connection_type, entries, dimension),
    ensures
        entries_fault(topology, connection_type, entries, dimension, list, position) is None,
    decreases entries.len() - position,
{
    if position < entries.len() {
        a_fit_batch_has_no_fault(
            topology,
            connection_type,
            entries,
            dimension,
            list,
            position + 1,
        );
        let entry = entries[position];
        a_vector_of_numbers_has_no_fault(entry.1);
        if slots_of(entries, position).contains(entry.0.slot) {
            let i = choose|i: int|
                0 <= i < position && (#[trigger] entries[i]).0.slot == entry.0.slot;
            assert(entries[i].0.slot != entries[position].0.slot);
        }
    }
}

proof fn no_fault_at(
    topology: Topology,
    connection_type: Text,
    entries: Seq<(EdgeIndex, Seq<u32>)>,
    dimension: usize,
    list: Text,
    from: int,
    at: int,
)
    requires
        0 <= from <= at < entries.len(),
        entries_fault(topology, connection_type, entries, dimension, list, from) is None,
    ensures
        entry_fault(topology, connection_type, entries, dimension, list, at) is None,
    decreases at - from,
{
    if from < at {
        no_fault_at(topology, connection_type, entries, dimension, list, from + 1, at);
    }
}

/// The entries of a batch are taken exactly where the batch fits.
pub proof fn a_batch_is_taken_where_it_fits(
    topology: Topology,
    connection_type: Text,
    entries: Seq<(EdgeIndex, Seq<u32>)>,
    dimension: usize,
    list: Text,
)
    ensures
        entries_fault(topology, connection_type, entries, dimension, list, 0) is None
            <==> batch_fits(topology, connection_type, entries, dimension),
{
    if batch_fits(topology, connection_type, entries, dimension) {
        a_fit_batch_has_no_fault(topology, connection_type, entries, dimension, list, 0);
    }
    if entries_fault(topology, connection_type, entries, dimension, list, 0) is None {
        assert forall|i: int| 0 <= i < entries.len() implies {
            &&& (#[trigger] entries[i]).0.slot < topology.edges@.len()
            &&& topology.edges@[entries[i].0.slot as int] is Some
            &&& topology.edges@[entries[i].0.slot as int]->0.data.connection_type@
                == connection_type
            &&& entries[i].1.len() == dimension
            &&& all_numeric(entries[i].1)
        } by {
            no_fault_at(topology, connection_type, entries, dimension, list, 0, i);
            a_vector_of_numbers_has_no_fault(entries[i].1);
        }
        assert forall|i: int, j: int| 0 <= i < j < entries.len() implies (
        #[trigger] entries[i]).0.slot != (#[trigger] entries[j]).0.slot by {
            no_fault_at(topology, connection_type, entries, dimension, list, 0, j);
            assert(!slots_of(entries, j).contains(entries[j].0.slot));
        }
    }
}

/// A batch is added to a store exactly where its metric is one of the four and not
/// another than the store's, its vectors are not empty and of the store's length,
/// and it fits.
pub proof fn a_batch_is_added_where_it_fits(
    topology: Topology,
    connection_type: Text,
    existing: Option<StoreModel>,
    entries: Seq<(EdgeIndex, Seq<u32>)>,
    metric: Option<Text>,
    list: Text,
)
    requires
        entries.len() > 0,
        entries[0].1.len() <= usize::MAX,
    ensures
        upsert_fault(topology, connection_type, existing, entries, metric, list) is None <==> {
            let dimension = if existing is Some {
                existing->0.dimension
            } else {
                entries[0].1.len() as usize
            };
            &&& metric is Some ==> metric_named(metric->0) is Some
            &&& dimension > 0
            &&& !(existing is Some && existing->0.metric is Some && metric is Some && metric
                != existing->0.metric)
            &&& batch_fits(topology, connection_type, entries, dimension)
        },
{
    let dimension = if existing is Some {
        existing->0.dimension
    } else {
        entries[0].1.len() as usize
    };
    a_batch_is_taken_where_it_fits(topology, connection_type, entries, dimension, list);
}

/// A batch replaces a store exactly where its metric is one of the four, its
/// vectors are not empty, and it fits.
pub proof fn a_batch_replaces_where_it_fits(
    topology: Topology,
    connection_type: Text,
    entries: Seq<(EdgeIndex, Seq<u32>)>,
    metric: Option<Text>,
    list: Text,
)
    requires
        entries.len() > 0,
        entries[0].1.len() <= usize::MAX,
    ensures
        replace_fault(topology, connection_type, entries, metric, list) is None <==> {
            &&& metric is Some ==> metric_named(metric->0) is Some
            &&& entries[0].1.len() > 0
            &&& batch_fits(topology, connection_type, entries, entries[0].1.len() as usize)
        },
{
    a_batch_is_taken_where_it_fits(
        topology,
        connection_type,
        entries,
        entries[0].1.len() as usize,
        list,
    );
}

/// How many entries of a batch change a cell: those whose relationship has no
/// vector of the same numbers, or one that was made from a text.
pub open spec fn changing_count(
    existing: Option<StoreModel>,
    entries: Seq<(EdgeIndex, Seq<u32>)>,
) -> nat {
    entries.filter_map(
        |entry: (EdgeIndex, Seq<u32>)|
            if owned(existing, entry.0.slot) && same_numbers(
                vector_of(existing->0, entry.0.slot)->0,
                entry.1,
            ) && !existing->0.hashes.contains_key(entry.0.slot) {
                None
            } else {
                Some(entry.0)
            },
    ).len()
}

/// The vectors of a store are numbers.
pub open spec fn holds_numbers(store: StoreModel) -> bool {
    forall|i: int| 0 <= i < store.rows.len() ==> all_numeric(#[trigger] store.rows[i])
}

proof fn changes_are_counted(
    existing: Option<StoreModel>,
    entries: Seq<(EdgeIndex, Seq<u32>)>,
    count: nat,
)
    requires
        count <= entries.len(),
        existing is Some ==> coherent(existing->0) && holds_numbers(existing->0),
        forall|i: int| 0 <= i < entries.len() ==> all_numeric((#[trigger] entries[i]).1),
        forall|i: int, j: int|
            0 <= i < j < entries.len() ==> (#[trigger] entries[i]).0.slot != (
            #[trigger] entries[j]).0.slot,
    ensures
        changed_slots(existing, entries, count as int).finite(),
        changed_slots(existing, entries, count as int).len() == changing_count(
            existing,
            entries.take(count as int),
        ),
    decreases count,
{
    let slots = changed_slots(existing, entries, count as int);
    if count == 0 {
        assert(slots =~= Set::empty());
    } else {
        let k = count - 1;
        changes_are_counted(existing, entries, k as nat);
        let less = changed_slots(existing, entries, k);
        let entry = entries[k];
        let head = entries.take(count as int);
        assert(head.drop_last() =~= entries.take(k));
        assert(head.last() == entry);
        let changes = cell_changes(existing, entry.0, entry.1);
        assert(changes <==> !(owned(existing, entry.0.slot) && same_numbers(
            vector_of(existing->0, entry.0.slot)->0,
            entry.1,
        ) && !existing->0.hashes.contains_key(entry.0.slot))) by {
            if owned(existing, entry.0.slot) {
                let p = existing->0.nodes.index_of(entry.0.slot);
                assert(all_numeric(existing->0.rows[p]));
                vectors_are_the_same_as_numbers(existing->0.rows[p], entry.1);
            }
        }
        assert(!less.contains(entry.0.slot)) by {
            if less.contains(entry.0.slot) {
                let i = choose|i: int|
                    0 <= i < k && (#[trigger] entries[i]).0.slot == entry.0.slot && cell_changes(
                        existing,
                        entries[i].0,
                        entries[i].1,
                    );
                assert(entries[i].0.slot != entries[k].0.slot);
            }
        }
        if changes {
            assert(slots =~= less.insert(entry.0.slot)) by {
                assert(slots.contains(entry.0.slot)) by {
                    assert(entries[k].0.slot == entry.0.slot);
                }
                assert forall|s: usize| #[trigger] slots.contains(s) implies less.insert(
                    entry.0.slot,
                ).contains(s) by {
                    let i = choose|i: int|
                        0 <= i < count && (#[trigger] entries[i]).0.slot == s && cell_changes(
                            existing,
                            entries[i].0,
                            entries[i].1,
                        );
                    if i < k {
                        assert(less.contains(s));
                    }
                }
            }
        } else {
            assert(slots =~= less) by {
                assert forall|s: usize| #[trigger] slots.contains(s) implies less.contains(s) by {
                    let i = choose|i: int|
                        0 <= i < count && (#[trigger] entries[i]).0.slot == s && cell_changes(
                            existing,
                            entries[i].0,
                            entries[i].1,
                        );
                    assert(i < k);
                }
            }
        }
    }
}

/// After a batch is added, each of its relationships has the batch's numbers, and
/// no hash of a text; every other one has what it had. A store that named a metric
/// still names it, and one that named none names the batch's. Where anything
/// changed no model is named any more, and where nothing did the graph is as it
/// was. No other store changes, and what is reported is what the store has.
pub proof fn what_is_added_is_stored(
    before: DirGraph,
    after: DirGraph,
    connection_type: Text,
    text_property: Text,
    entries: Seq<(EdgeIndex, Seq<u32>)>,
    metric: Option<Text>,
    list: Text,
    report: EdgeEmbeddingWriteReport,
)
    requires
        entries.len() > 0,
        entries[0].1.len() <= usize::MAX,
        ({
            let existing = lookup(
                before.edge_embeddings@,
                connection_type,
                store_name_of(text_property),
            );
            &&& existing is Some ==> coherent(existing->0) && holds_numbers(existing->0)
            &&& upsert_fault(
                before.topology,
                connection_type,
                existing,
                entries,
                metric,
                list,
            ) is None
        }),
        upsert_done(before, after, connection_type, text_property, entries, metric, report),
    ensures
        ({
            let name = store_name_of(text_property);
            let existing = lookup(before.edge_embeddings@, connection_type, name);
            let stored = lookup(after.edge_embeddings@, connection_type, name);
            let changing = changing_count(existing, entries);
            &&& stored is Some
            &&& forall|i: int|
                0 <= i < entries.len() ==> {
                    let read = vector_of(stored->0, (#[trigger] entries[i]).0.slot);
                    &&& read is Some && same_numbers(read->0, entries[i].1)
                    &&& hash_of(stored->0, entries[i].0.slot) is None
                }
            &&& forall|slot: usize|
                #![trigger vector_of(stored->0, slot)]
                (forall|i: int| 0 <= i < entries.len() ==> (#[trigger] entries[i]).0.slot != slot)
                    ==> if existing is Some {
                    &&& vector_of(stored->0, slot) == vector_of(existing->0, slot)
                    &&& hash_of(stored->0, slot) == hash_of(existing->0, slot)
                } else {
                    vector_of(stored->0, slot) is None
                }
            &&& stored->0.metric == if existing is Some && existing->0.metric is Some {
                existing->0.metric
            } else {
                metric
            }
            &&& changing > 0 ==> stored->0.model_id is None
            &&& changing == 0 && (metric is None || existing->0.metric is Some) ==> after == before
            &&& forall|t: Text, n: Text|
                !(t == connection_type && n == name) ==> #[trigger] lookup(
                    after.edge_embeddings@,
                    t,
                    n,
                ) == lookup(before.edge_embeddings@, t, n)
            &&& after.topology == before.topology
            &&& after.embeddings@ == before.embeddings@
            &&& report.changed == changing as usize
            &&& report.stored == stored->0.nodes.len() as usize
            &&& report.dimension == if existing is Some {
                existing->0.dimension
            } else {
                entries[0].1.len() as usize
            }
            &&& report.store_created == (existing is None)
        }),
{
    let name = store_name_of(text_property);
    let existing = lookup(before.edge_embeddings@, connection_type, name);
    let stored = lookup(after.edge_embeddings@, connection_type, name);
    let dimension = crate::edge_writes::upsert_dimension(existing, entries);
    a_batch_is_added_where_it_fits(
        before.topology,
        connection_type,
        existing,
        entries,
        metric,
        list,
    );
    crate::edge_writes::faultless_entries_are_sound(
        before.topology,
        connection_type,
        entries,
        dimension,
        list,
    );
    changes_are_counted(existing, entries, entries.len());
    assert(entries.take(entries.len() as int) =~= entries);
    let changed = changed_slots(existing, entries, entries.len() as int);
    let store = upserted(existing, entries, metric);
    an_upserted_vector_reads_back(before.topology, connection_type, existing, entries, metric);
    what_a_batch_declares(existing, entries, metric);
    a_kept_store_is_found(before.edge_embeddings@, connection_type, name, store);
    if changed.is_empty() && !crate::edge_writes::stamps_metric(existing, metric) {
        assert(changed =~= Set::empty());
        assert(existing is Some) by {
            if existing is None {
                assert(changed.contains(entries[0].0.slot));
            }
        }
        assert forall|i: int| 0 <= i < entries.len() implies {
            let read = vector_of(stored->0, (#[trigger] entries[i]).0.slot);
            &&& read is Some && same_numbers(read->0, entries[i].1)
            &&& hash_of(stored->0, entries[i].0.slot) is None
        } by {
            if cell_changes(existing, entries[i].0, entries[i].1) {
                assert(changed.contains(entries[i].0.slot));
            }
            let p = existing->0.nodes.index_of(entries[i].0.slot);
            assert(all_numeric(existing->0.rows[p]));
            vectors_are_the_same_as_numbers(existing->0.rows[p], entries[i].1);
        }
    } else {
        assert(stored == Some(store));
        if changed.is_empty() {
            assert(changed =~= Set::empty());
        } else {
            let s = choose|s: usize| changed.contains(s);
            assert(changed.len() > 0) by {
                if changed.len() == 0 {
                    assert(changed =~= Set::empty());
                }
            }
        }
        assert forall|i: int| 0 <= i < entries.len() implies {
            let read = vector_of(stored->0, (#[trigger] entries[i]).0.slot);
            &&& read is Some && same_numbers(read->0, entries[i].1)
            &&& hash_of(stored->0, entries[i].0.slot) is None
        } by {
            let read = vector_of(store, entries[i].0.slot);
            assert(read is Some && same_vector(read->0, entries[i].1));
            let held = read->0;
            assert forall|j: int| 0 <= j < held.len() implies #[trigger] held[j] == entries[i].1[j]
                || (held[j] % 0x8000_0000 == 0 && entries[i].1[j] % 0x8000_0000 == 0) by {
                assert(same_number(held[j], entries[i].1[j]));
            }
        }
        assert forall|slot: usize|
            (forall|i: int|
                0 <= i < entries.len() ==> (#[trigger] entries[i]).0.slot != slot) implies {
            if existing is Some {
                &&& #[trigger] vector_of(stored->0, slot) == vector_of(existing->0, slot)
                &&& hash_of(stored->0, slot) == hash_of(existing->0, slot)
            } else {
                vector_of(stored->0, slot) is None
            }
        } by {
            assert(!slots_of(entries, entries.len() as int).contains(slot));
            assert(hash_of(store, slot) == match existing {
                Some(s) => hash_of(s, slot),
                None => None,
            });
        }
    }
}

proof fn what_a_batch_declares(
    existing: Option<StoreModel>,
    entries: Seq<(EdgeIndex, Seq<u32>)>,
    metric: Option<Text>,
)
    ensures
        upserted(existing, entries, metric).metric == if existing is Some
            && existing->0.metric is Some {
            existing->0.metric
        } else {
            metric
        },
{
    let base = match existing {
        Some(store) => store,
        None => crate::store::empty_store(
            crate::edge_writes::upsert_dimension(existing, entries),
            metric,
        ),
    };
    manual_writes_keep_the_metric(
        base,
        entries,
        changed_slots(existing, entries, entries.len() as int),
        entries.len(),
    );
}

proof fn manual_writes_keep_the_metric(
    store: StoreModel,
    entries: Seq<(EdgeIndex, Seq<u32>)>,
    slots: Set<usize>,
    count: nat,
)
    ensures
        crate::edge_writes::manual_writes(store, entries, slots, count).metric == store.metric,
    decreases count,
{
    if count > 0 {
        manual_writes_keep_the_metric(store, entries, slots, (count - 1) as nat);
    }
}

/// After a batch replaced a store, the store has each of its vectors, bit for bit,
/// and no other; it has no hashes, no index and names no model, and its metric is
/// the batch's.
pub proof fn what_replaces_a_store_is_all_there_is(
    before: DirGraph,
    after: DirGraph,
    connection_type: Text,
    text_property: Text,
    entries: Seq<(EdgeIndex, Seq<u32>)>,
    dimension: usize,
    metric: Option<Text>,
    affected: Seq<EdgeIndex>,
)
    requires
        batch_fits(before.topology, connection_type, entries, dimension),
        replace_done(
            before,
            after,
            connection_type,
            text_property,
            store_of_entries(dimension, metric, entries),
            affected,
        ),
    ensures
        ({
            let name = store_name_of(text_property);
            let stored = lookup(after.edge_embeddings@, connection_type, name);
            &&& stored is Some
            &&& stored->0.nodes.len() == entries.len()
            &&& stored->0.dimension == dimension
            &&& stored->0.metric == metric
            &&& stored->0.model_id is None
            &&& stored->0.index is None
            &&& forall|i: int|
                0 <= i < entries.len() ==> vector_of(stored->0, (#[trigger] entries[i]).0.slot)
                    == Some(entries[i].1) && hash_of(stored->0, entries[i].0.slot) is None
            &&& forall|slot: usize|
                #![trigger vector_of(stored->0, slot)]
                (forall|i: int| 0 <= i < entries.len() ==> (#[trigger] entries[i]).0.slot != slot)
                    ==> vector_of(stored->0, slot) is None
            &&& forall|t: Text, n: Text|
                !(t == connection_type && n == name) ==> #[trigger] lookup(
                    after.edge_embeddings@,
                    t,
                    n,
                ) == lookup(before.edge_embeddings@, t, n)
            &&& after.topology == before.topology
        }),
{
    let name = store_name_of(text_property);
    let store = store_of_entries(dimension, metric, entries);
    a_kept_store_is_found(before.edge_embeddings@, connection_type, name, store);
    assert forall|i: int| 0 <= i < entries.len() implies vector_of(
        store,
        (#[trigger] entries[i]).0.slot,
    ) == Some(entries[i].1) by {
        assert(store.nodes[i] == entries[i].0.slot);
        let p = store.nodes.index_of(entries[i].0.slot);
        assert(store.nodes[p] == entries[p].0.slot);
        if p < i {
            assert(entries[p].0.slot != entries[i].0.slot);
        } else if i < p {
            assert(entries[i].0.slot != entries[p].0.slot);
        }
    }
    assert forall|slot: usize|
        (forall|i: int|
            0 <= i < entries.len() ==> (#[trigger] entries[i]).0.slot != slot) implies #[trigger]
        vector_of(store, slot) is None by {
        if store.nodes.contains(slot) {
            let p = store.nodes.index_of(slot);
            assert(store.nodes[p] == entries[p].0.slot);
        }
    }
}

/// After vectors are removed, none of the listed relationships has one, and every
/// other has the vector and the hash that it had. The index is gone.
pub proof fn what_is_removed_is_gone(
    before: DirGraph,
    after: DirGraph,
    connection_type: Text,
    text_property: Text,
    edges: Seq<EdgeIndex>,
)
    requires
        ({
            let existing = lookup(
                before.edge_embeddings@,
                connection_type,
                store_name_of(text_property),
            );
            existing is Some && coherent(existing->0)
        }),
        removal_done(before, after, connection_type, text_property, edges),
    ensures
        ({
            let name = store_name_of(text_property);
            let existing = lookup(before.edge_embeddings@, connection_type, name);
            let stored = lookup(after.edge_embeddings@, connection_type, name);
            &&& stored is Some
            &&& stored->0.index is None
            &&& forall|i: int|
                0 <= i < edges.len() ==> !stored->0.nodes.contains((#[trigger] edges[i]).slot)
            &&& forall|slot: usize|
                #![trigger vector_of(stored->0, slot)]
                !edges.contains(EdgeIndex { slot }) ==> vector_of(stored->0, slot) == vector_of(
                    existing->0,
                    slot,
                ) && hash_of(stored->0, slot) == hash_of(existing->0, slot)
            &&& forall|t: Text, n: Text|
                !(t == connection_type && n == name) ==> #[trigger] lookup(
                    after.edge_embeddings@,
                    t,
                    n,
                ) == lookup(before.edge_embeddings@, t, n)
            &&& after.topology == before.topology
        }),
{
    let name = store_name_of(text_property);
    let existing = lookup(before.edge_embeddings@, connection_type, name)->0;
    let bare = unindexed(existing);
    let store = crate::edge_replace::all_removed(bare, edges, edges.len());
    a_kept_store_is_found(before.edge_embeddings@, connection_type, name, store);
    assert(coherent(bare));
    removed_vectors_are_gone(bare, edges);
    no_index_comes_back(bare, edges, edges.len());
    assert forall|i: int| 0 <= i < edges.len() implies !store.nodes.contains(
        (#[trigger] edges[i]).slot,
    ) by {
        assert(vector_of(store, edges[i].slot) is None);
    }
    assert forall|slot: usize| !edges.contains(EdgeIndex { slot }) implies {
        &&& #[trigger] vector_of(store, slot) == vector_of(existing, slot)
        &&& hash_of(store, slot) == hash_of(existing, slot)
    } by {
        let edge = EdgeIndex { slot };
        assert(vector_of(store, edge.slot) == vector_of(bare, edge.slot));
    }
}

proof fn no_index_comes_back(store: StoreModel, edges: Seq<EdgeIndex>, count: nat)
    requires
        store.index is None,
    ensures
        crate::edge_replace::all_removed(store, edges, count).index is None,
    decreases count,
{
    if count > 0 {
        no_index_comes_back(store, edges, (count - 1) as nat);
    }
}

/// After a store is dropped it is not there, and every other is as it was.
pub proof fn what_is_dropped_is_not_there(
    before: DirGraph,
    after: DirGraph,
    connection_type: Text,
    text_property: Text,
)
    requires
        before.well_formed(),
        drop_done(before, after, connection_type, text_property),
    ensures
        lookup(after.edge_embeddings@, connection_type, store_name_of(text_property)) is None,
        forall|t: Text, n: Text|
            !(t == connection_type && n == store_name_of(text_property)) ==> #[trigger] lookup(
                after.edge_embeddings@,
                t,
                n,
            ) == lookup(before.edge_embeddings@, t, n),
        after.topology == before.topology,
        after.embeddings@ == before.embeddings@,
{
    a_dropped_store_is_gone(
        before.edge_embeddings@,
        connection_type,
        store_name_of(text_property),
    );
}

} // verus!
