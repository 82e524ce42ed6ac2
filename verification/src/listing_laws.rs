//! What is listed, read back and suggested.

use crate::catalog::{lookup, EntryModel};
use crate::edge_read::{
    live_owners, place_at, place_before, row_before, row_order, row_order_is_total, store_rows,
    PlaceModel, ReadModel,
};
use crate::graph::DirGraph;
use crate::inventory::{
    provenance, store_for, store_info, stores_listed, EmbeddingEntity, InfoModel, StoreInfoModel,
};
use crate::name_pairs::{keys_on, name_order};
use crate::names::{listed_column, store_name_of};
use crate::node_inventory::{columns_on, embedded_columns, listed_entry, NodeStoreModel};
use crate::order::{ascending_lists_the_items, ascends};
use crate::query_laws::every_store_is_listed;
use crate::store::{coherent, StoreModel};
use crate::suggest::{close, closest, edit_distance, edits, folded};
use crate::text::{lex_le, str_option, text_order, text_order_is_order, Text};
use crate::topology::Topology;
use crate::value::{value_before, EdgeIndex};
use vstd::prelude::*;

verus! {

proof fn live_owners_are_the_living(topology: Topology, nodes: Seq<usize>, count: nat)
    requires
        count <= nodes.len(),
        nodes.no_duplicates(),
    ensures
        live_owners(topology, nodes, count).no_duplicates(),
        forall|slot: usize| #[trigger]
            live_owners(topology, nodes, count).contains(slot) <==> nodes.take(
                count as int,
            ).contains(slot) && slot < topology.edges@.len() && topology.edges@[slot as int]
                is Some,
    decreases count,
{
    if count > 0 {
        let k = (count - 1) as nat;
        live_owners_are_the_living(topology, nodes, k);
        let less = live_owners(topology, nodes, k);
        let all = live_owners(topology, nodes, count);
        let head = nodes.take(count as int);
        let last = nodes[k as int];
        assert(head =~= nodes.take(k as int).push(last));
        assert(!nodes.take(k as int).contains(last)) by {
            if nodes.take(k as int).contains(last) {
                let i = nodes.take(k as int).index_of(last);
                assert(nodes[i] == nodes[k as int]);
            }
        }
        assert forall|slot: usize| #[trigger] all.contains(slot) <==> head.contains(slot) && slot
            < topology.edges@.len() && topology.edges@[slot as int] is Some by {
            assert(head.contains(slot) <==> nodes.take(k as int).contains(slot) || slot == last) by {
                if nodes.take(k as int).contains(slot) {
                    let i = nodes.take(k as int).index_of(slot);
                    assert(head[i] == slot);
                }
                assert(head[k as int] == last);
                if head.contains(slot) && slot != last {
                    let i = head.index_of(slot);
                    assert(nodes.take(k as int)[i] == slot);
                }
            }
            if less.contains(slot) {
                let i = less.index_of(slot);
                assert(all[i] == slot);
            }
            if all.len() > less.len() {
                assert(all[less.len() as int] == last);
                if all.contains(slot) && slot != last {
                    let i = all.index_of(slot);
                    assert(less[i] == slot);
                }
            }
        }
        assert(all.no_duplicates()) by {
            if all.len() > less.len() {
                assert(all == less.push(last));
                assert(!less.contains(last));
            }
        }
    }
}

/// A row of a store: where the relationship stands, and its vector.
pub open spec fn row_of_owner(
    topology: Topology,
    property: Option<Text>,
    store: StoreModel,
    at: int,
) -> ReadModel {
    ReadModel {
        place: place_at(topology, property, EdgeIndex { slot: store.nodes[at] }),
        vector: store.rows[at],
    }
}

/// Reading a store gives a row for each vector whose relationship lives, and no
/// other, each once. They come by place.
pub proof fn every_live_vector_is_read_once(
    graph: DirGraph,
    property: Option<&str>,
    store: StoreModel,
)
    requires
        coherent(store),
    ensures
        ({
            let topology = graph.topology;
            let key = str_option(property);
            let rows = store_rows(topology, key, store);
            let order = live_owners(topology, store.nodes, store.nodes.len()).sort_by(
                row_order(topology, key),
            );
            &&& rows.len() == live_owners(topology, store.nodes, store.nodes.len()).len()
            &&& order.no_duplicates()
            &&& forall|m: int|
                0 <= m < rows.len() ==> exists|at: int|
                    0 <= at < store.nodes.len() && store.nodes[at] < topology.edges@.len()
                        && topology.edges@[store.nodes[at] as int] is Some && #[trigger] rows[m]
                        == #[trigger] row_of_owner(topology, key, store, at)
            &&& forall|at: int|
                0 <= at < store.nodes.len() && store.nodes[at] < topology.edges@.len()
                    && topology.edges@[store.nodes[at] as int] is Some ==> rows.contains(
                    #[trigger] row_of_owner(topology, key, store, at),
                )
            &&& forall|m: int, n: int|
                0 <= m < n < rows.len() ==> place_before(
                    (#[trigger] rows[m]).place,
                    (#[trigger] rows[n]).place,
                )
        }),
{
    let topology = graph.topology;
    let key = str_option(property);
    let living = live_owners(topology, store.nodes, store.nodes.len());
    let r = row_order(topology, key);
    let order = living.sort_by(r);
    let rows = store_rows(topology, key, store);
    assert(store.nodes.take(store.nodes.len() as int) =~= store.nodes);
    live_owners_are_the_living(topology, store.nodes, store.nodes.len());
    row_order_is_total(graph, property);
    living.lemma_sort_by_ensures(r);
    living.to_multiset_ensures();
    order.to_multiset_ensures();
    living.lemma_multiset_has_no_duplicates();
    assert forall|x: usize| order.to_multiset().contains(x) implies order.to_multiset().count(x)
        == 1 by {
        assert(living.to_multiset().contains(x));
    }
    order.lemma_multiset_has_no_duplicates_conv();
    assert(rows.len() == living.len()) by {
        assert(order.len() == order.to_multiset().len());
        assert(living.len() == living.to_multiset().len());
    }
    assert forall|x: usize| living.contains(x) <==> order.contains(x) by {
        assert(living.to_multiset().count(x) == order.to_multiset().count(x));
    }
    assert forall|m: int| 0 <= m < rows.len() implies exists|at: int|
        0 <= at < store.nodes.len() && store.nodes[at] < topology.edges@.len()
            && topology.edges@[store.nodes[at] as int] is Some && #[trigger] rows[m]
            == #[trigger] row_of_owner(topology, key, store, at) by {
        assert(order.contains(order[m]));
        assert(living.contains(order[m]));
        let at = store.nodes.index_of(order[m]);
        assert(rows[m] == row_of_owner(topology, key, store, at));
    }
    assert forall|at: int|
        0 <= at < store.nodes.len() && store.nodes[at] < topology.edges@.len()
            && topology.edges@[store.nodes[at] as int] is Some implies rows.contains(
        #[trigger] row_of_owner(topology, key, store, at),
    ) by {
        assert(store.nodes.contains(store.nodes[at]));
        assert(living.contains(store.nodes[at]));
        let m = order.index_of(store.nodes[at]);
        assert(store.nodes.index_of(store.nodes[at]) == at);
        assert(rows[m] == row_of_owner(topology, key, store, at));
    }
    assert forall|m: int, n: int| 0 <= m < n < rows.len() implies place_before(
        (#[trigger] rows[m]).place,
        (#[trigger] rows[n]).place,
    ) by {
        assert(order.contains(order[m]) && order.contains(order[n]));
        assert(living.contains(order[m]) && living.contains(order[n]));
        assert(r(order[m], order[n]));
        assert(row_before(topology, key, order[m], order[n]));
    }
}

/// Places come by the source's type, then its id, then the target's type, then its
/// id, then the key; a relationship without a key comes before one with a key.
pub proof fn places_come_by_source_then_target(a: PlaceModel, b: PlaceModel)
    ensures
        a.source_type != b.source_type ==> (place_before(a, b) <==> lex_le(
            a.source_type,
            b.source_type,
        )),
        a.source_type == b.source_type && !(value_before(a.source_id, b.source_id)
            && value_before(b.source_id, a.source_id)) ==> (place_before(a, b) <==> value_before(
            a.source_id,
            b.source_id,
        )),
        a.source_type == b.source_type && value_before(a.source_id, b.source_id) && value_before(
            b.source_id,
            a.source_id,
        ) && a.target_type != b.target_type ==> (place_before(a, b) <==> lex_le(
            a.target_type,
            b.target_type,
        )),
        a.source_type == b.source_type && value_before(a.source_id, b.source_id) && value_before(
            b.source_id,
            a.source_id,
        ) && a.target_type == b.target_type && !(value_before(a.target_id, b.target_id)
            && value_before(b.target_id, a.target_id)) ==> (place_before(a, b) <==> value_before(
            a.target_id,
            b.target_id,
        )),
        a.source_type == b.source_type && value_before(a.source_id, b.source_id) && value_before(
            b.source_id,
            a.source_id,
        ) && a.target_type == b.target_type && value_before(a.target_id, b.target_id)
            && value_before(b.target_id, a.target_id) ==> {
            &&& a.key is None ==> place_before(a, b)
            &&& a.key is Some && b.key is None ==> !place_before(a, b)
            &&& a.key is Some && b.key is Some ==> (place_before(a, b) <==> value_before(
                a.key->0,
                b.key->0,
            ))
        },
{
}

/// Every relationship store is listed once, by type and then by name, with its
/// column, its dimension, the number of its vectors, and its metric, which is
/// cosine where it declares none.
pub proof fn a_listing_describes_every_store(
    entries: Seq<EntryModel<StoreModel>>,
    owner_type: Text,
    name: Text,
)
    ensures
        ({
            let listed = stores_listed(entries);
            let store = lookup(entries, owner_type, name);
            &&& listed.len() == keys_on(entries).len()
            &&& store is Some ==> listed.contains(
                StoreInfoModel {
                    owner_type,
                    text_column: listed_column(name),
                    store_name: name,
                    dimension: store->0.dimension,
                    count: store->0.nodes.len() as usize,
                    metric: if store->0.metric is Some {
                        store->0.metric->0
                    } else {
                        "cosine"@
                    },
                },
            )
            &&& forall|i: int|
                0 <= i < listed.len() ==> lookup(
                    entries,
                    (#[trigger] listed[i]).owner_type,
                    listed[i].store_name,
                ) is Some
            &&& forall|i: int, j: int|
                0 <= i < j < listed.len() ==> (#[trigger] listed[i]).owner_type != (
                #[trigger] listed[j]).owner_type || listed[i].store_name != listed[j].store_name
            &&& forall|i: int, j: int|
                0 <= i < j < listed.len() ==> if (#[trigger] listed[i]).owner_type == (
                #[trigger] listed[j]).owner_type {
                    lex_le(listed[i].store_name, listed[j].store_name)
                } else {
                    lex_le(listed[i].owner_type, listed[j].owner_type)
                }
        }),
{
    let listed = stores_listed(entries);
    let keys = keys_on(entries);
    every_store_is_listed(entries, owner_type, name);
    if lookup(entries, owner_type, name) is Some {
        let i = keys.index_of((owner_type, name));
        assert(listed[i] == store_info(
            keys[i].0,
            keys[i].1,
            lookup(entries, keys[i].0, keys[i].1)->0,
        ));
    }
    assert forall|i: int| 0 <= i < listed.len() implies lookup(
        entries,
        (#[trigger] listed[i]).owner_type,
        listed[i].store_name,
    ) is Some by {
        every_store_is_listed(entries, keys[i].0, keys[i].1);
        assert(keys.contains((keys[i].0, keys[i].1)));
    }
    assert forall|i: int, j: int| 0 <= i < j < listed.len() implies {
        &&& (#[trigger] listed[i]).owner_type != (#[trigger] listed[j]).owner_type
            || listed[i].store_name != listed[j].store_name
        &&& if listed[i].owner_type == listed[j].owner_type {
            lex_le(listed[i].store_name, listed[j].store_name)
        } else {
            lex_le(listed[i].owner_type, listed[j].owner_type)
        }
    } by {
        let le = name_order();
        assert(le(keys[i], keys[j]) && keys[i] != keys[j]);
    }
}

/// What is said of one store: what it declares, how many vectors it has, and how
/// many of them have the hash of a text. The entity picks the store.
pub proof fn what_is_said_of_a_store(
    graph: DirGraph,
    entity: EmbeddingEntity,
    owner_type: Text,
    text_column: Text,
    store: StoreModel,
)
    ensures
        store_for(graph, EmbeddingEntity::Node, owner_type, text_column) == lookup(
            graph.embeddings@,
            owner_type,
            store_name_of(text_column),
        ),
        store_for(graph, EmbeddingEntity::Relationship, owner_type, text_column) == lookup(
            graph.edge_embeddings@,
            owner_type,
            store_name_of(text_column),
        ),
        provenance(entity, owner_type, text_column, store) == (InfoModel {
            entity,
            owner_type,
            text_column,
            dimension: store.dimension,
            count: store.nodes.len() as usize,
            model: store.model_id,
            metric: if store.metric is Some {
                store.metric->0
            } else {
                "cosine"@
            },
            hashed: store.hashes.dom().len() as usize,
        }),
{
}

/// What is listed of a node store.
pub proof fn a_node_listing_describes_its_store(entry: EntryModel<StoreModel>)
    ensures
        listed_entry(entry) == (NodeStoreModel {
            node_type: entry.owner_type,
            text_column: listed_column(entry.name),
            store_name: entry.name,
            dimension: entry.store.dimension,
            count: entry.store.nodes.len(),
            metric: if entry.store.metric is Some {
                entry.store.metric->0
            } else {
                "cosine"@
            },
        }),
{
}

/// The embedded columns of some types are those of their stores, each once and in
/// order.
pub proof fn embedded_columns_are_those_with_a_store(
    graph: DirGraph,
    node_types: Seq<Text>,
    column: Text,
)
    ensures
        embedded_columns(graph, node_types).contains(column) <==> exists|i: int|
            0 <= i < graph.embeddings@.len() && node_types.contains(
                (#[trigger] graph.embeddings@[i]).owner_type,
            ) && listed_column(graph.embeddings@[i].name) == column,
        ascends(embedded_columns(graph, node_types), text_order()),
{
    let entries = graph.embeddings@;
    let columns = columns_on(entries, node_types, entries.len() as int);
    let all = entries.filter_map(
        |e: EntryModel<StoreModel>|
            if node_types.contains(e.owner_type) {
                Some(listed_column(e.name))
            } else {
                None
            },
    );
    assert(all.to_set() =~= columns) by {
        assert forall|c: Text| all.contains(c) <==> columns.contains(c) by {
            columns_of_entries(entries, node_types, c);
        }
        assert forall|c: Text| all.to_set().contains(c) <==> columns.contains(c) by {
            assert(all.contains(c) <==> columns.contains(c));
        }
    }
    text_order_is_order();
    ascending_lists_the_items(all, text_order());
    let listed = embedded_columns(graph, node_types);
    assert(listed.to_set().contains(column) <==> listed.contains(column));
}

proof fn columns_of_entries(
    entries: Seq<EntryModel<StoreModel>>,
    node_types: Seq<Text>,
    column: Text,
)
    ensures
        entries.filter_map(
            |e: EntryModel<StoreModel>|
                if node_types.contains(e.owner_type) {
                    Some(listed_column(e.name))
                } else {
                    None
                },
        ).contains(column) <==> columns_on(entries, node_types, entries.len() as int).contains(
            column,
        ),
    decreases entries.len(),
{
    let f = |e: EntryModel<StoreModel>|
        if node_types.contains(e.owner_type) {
            Some(listed_column(e.name))
        } else {
            None
        };
    let all = entries.filter_map(f);
    if entries.len() > 0 {
        let rest = entries.drop_last();
        columns_of_entries(rest, node_types, column);
        let less = rest.filter_map(f);
        let last = entries.last();
        let n = entries.len() as int;
        if less.contains(column) {
            let i = less.index_of(column);
            assert(all[i] == column);
        }
        if columns_on(rest, node_types, n - 1).contains(column) {
            let i = choose|i: int|
                0 <= i < n - 1 && node_types.contains((#[trigger] rest[i]).owner_type)
                    && listed_column(rest[i].name) == column;
            assert(entries[i] == rest[i]);
            assert(columns_on(entries, node_types, n).contains(column));
        }
        if node_types.contains(last.owner_type) && listed_column(last.name) == column {
            assert(all[less.len() as int] == column);
            assert(entries[n - 1] == last);
            assert(columns_on(entries, node_types, n).contains(column));
        }
        if all.contains(column) && !less.contains(column) {
            let i = all.index_of(column);
            assert(i == less.len()) by {
                if i < less.len() {
                    assert(less[i] == column);
                }
            }
            assert(f(last) == Some(column));
        }
        if columns_on(entries, node_types, n).contains(column) {
            let i = choose|i: int|
                0 <= i < n && node_types.contains((#[trigger] entries[i]).owner_type)
                    && listed_column(entries[i].name) == column;
            if i < n - 1 {
                assert(rest[i] == entries[i]);
                assert(columns_on(rest, node_types, n - 1).contains(column));
            }
        }
    }
}

/// Two letters are the same whatever their case.
pub open spec fn same_letter(x: char, y: char) -> bool {
    ||| x == y
    ||| 'A' <= x <= 'Z' && y as u32 == x as u32 + 32
    ||| 'A' <= y <= 'Z' && x as u32 == y as u32 + 32
}

proof fn folding_ignores_case(x: char, y: char)
    ensures
        folded(x) == folded(y) <==> same_letter(x, y),
{
}

proof fn edits_need_only_the_letters(a: Text, b: Text, c: Text, d: Text, i: nat, j: nat)
    requires
        i <= a.len(),
        i <= c.len(),
        j <= b.len(),
        j <= d.len(),
        forall|k: int| 0 <= k < i ==> a[k] == c[k],
        forall|k: int| 0 <= k < j ==> b[k] == d[k],
    ensures
        edits(a, b, i, j) == edits(c, d, i, j),
    decreases i + j,
{
    if i > 0 && j > 0 {
        edits_need_only_the_letters(a, b, c, d, (i - 1) as nat, j);
        edits_need_only_the_letters(a, b, c, d, i, (j - 1) as nat);
        edits_need_only_the_letters(a, b, c, d, (i - 1) as nat, (j - 1) as nat);
    }
}

/// The edits between two names: as many as a name has letters where the other is
/// empty; and with a letter more on each side, the least of what it takes to change
/// the one letter into the other, which is nothing where they are the same but for
/// case, to drop the first's, or to insert the second's.
pub proof fn edits_are_the_fewest(a: Text, b: Text, x: char, y: char)
    ensures
        edit_distance(Seq::empty(), b) == b.len(),
        edit_distance(a, Seq::empty()) == a.len(),
        ({
            let changed = edit_distance(a, b) + if same_letter(x, y) {
                0int
            } else {
                1int
            };
            let dropped = edit_distance(a, b.push(y)) + 1;
            let inserted = edit_distance(a.push(x), b) + 1;
            let least = edit_distance(a.push(x), b.push(y));
            &&& least <= changed
            &&& least <= dropped
            &&& least <= inserted
            &&& least == changed || least == dropped || least == inserted
        }),
{
    let ax = a.push(x);
    let by = b.push(y);
    edits_need_only_the_letters(ax, by, a, b, a.len(), b.len());
    edits_need_only_the_letters(ax, by, a, by, a.len(), by.len());
    edits_need_only_the_letters(ax, by, ax, b, ax.len(), b.len());
    folding_ignores_case(x, y);
    assert(ax[a.len() as int] == x && by[b.len() as int] == y);
}

/// A name is close to another where neither is very long and it takes one edit, or
/// one more for every four letters, at the most.
pub proof fn a_close_name_takes_few_edits(name: Text, candidate: Text)
    ensures
        close(name, candidate) <==> name.len() <= 256 && candidate.len() <= 256 && edit_distance(
            name,
            candidate,
        ) <= 1 + name.len() / 4,
{
}

/// What is suggested is a close candidate to which none is closer, and the first
/// of those that are as close.
pub proof fn the_closest_candidate_is_suggested(
    name: Text,
    candidates: Seq<Text>,
    count: nat,
    at: int,
)
    requires
        0 <= at < count <= candidates.len(),
        close(name, candidates[at]),
    ensures
        ({
            let best = closest(name, candidates, count);
            &&& best is Some
            &&& edit_distance(name, best->0) <= edit_distance(name, candidates[at])
            &&& (forall|i: int|
                0 <= i < count && i != at && close(name, #[trigger] candidates[i])
                    ==> if i < at {
                    edit_distance(name, candidates[at]) < edit_distance(name, candidates[i])
                } else {
                    edit_distance(name, candidates[at]) <= edit_distance(name, candidates[i])
                }) ==> best == Some(candidates[at])
        }),
    decreases count,
{
    let k = count - 1;
    if at < k {
        the_closest_candidate_is_suggested(name, candidates, k as nat, at);
        let less = closest(name, candidates, k as nat);
        if forall|i: int|
            0 <= i < count && i != at && close(name, #[trigger] candidates[i]) ==> if i < at {
                edit_distance(name, candidates[at]) < edit_distance(name, candidates[i])
            } else {
                edit_distance(name, candidates[at]) <= edit_distance(name, candidates[i])
            } {
            assert(less == Some(candidates[at]));
            if close(name, candidates[k]) {
                assert(edit_distance(name, candidates[at]) <= edit_distance(name, candidates[k]));
            }
        }
    } else {
        crate::suggest::a_suggestion_is_a_close_candidate(name, candidates, k as nat);
        if forall|i: int|
            0 <= i < count && i != at && close(name, #[trigger] candidates[i]) ==> if i < at {
                edit_distance(name, candidates[at]) < edit_distance(name, candidates[i])
            } else {
                edit_distance(name, candidates[at]) <= edit_distance(name, candidates[i])
            } {
            if let Some(best) = closest(name, candidates, k as nat) {
                let i = choose|i: int| 0 <= i < k && #[trigger] candidates[i] == best;
                assert(close(name, candidates[i]));
            }
        }
    }
}

} // verus!
