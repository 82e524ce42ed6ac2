//! How a query is answered, which it is refused, and what is listed.

use crate::batch_laws::{a_vector_of_numbers_has_no_fault, all_numeric};
use crate::catalog::{kept, lookup, place_is_first, EntryModel};
use crate::edge_read::place_at;
use crate::edge_search::{
    absent_store, placed_hits, query_fault, search_types_of, stores_of, vector_read, SearchHitModel,
};
use crate::address::{row_resolved, RowModel};
use crate::graph::DirGraph;
use crate::groups::RelationshipKeys;
use crate::hints::Surface;
use crate::metric::{metric_named, DistanceMetric};
use crate::name_pairs::{
    columns_under, keys_kept, keys_on, listed_keys_are_kept, listed_pairs_are_kept, name_order,
    name_order_is_order, names_le, pairs_kept, stores_on, types_over,
};
use crate::names::{column_of, listed_column, store_name_of};
use crate::order::{ascending_lists_the_items, ascends};
use crate::ranking::{
    dimension_fault, query_metric, rank_fault, scale_fault, store_metric_fault, store_route,
    HitModel, SearchMethod,
};
use crate::store::{a_refreshed_index_is_current, coherent, delta_of, StoreModel};
use crate::text::{lex_le, Text};
use crate::topology::Topology;
use crate::value::EdgeIndex;
use vstd::prelude::*;

verus! {

/// The metric that a query scores under: what it asks for, else what the store
/// declares, else cosine.
pub proof fn a_query_scores_under_what_it_asks(store: StoreModel, name: Text)
    ensures
        query_metric(store, Some(name)) == name,
        store.metric is Some ==> query_metric(store, None) == store.metric->0,
        store.metric is None ==> query_metric(store, None) == "cosine"@,
{
}

/// A query is answered from an index exactly where not every vector is to be
/// scored, the store has an index that was built for the metric, the metric is not
/// the one that no index serves, and the index has every vector, or has so few
/// outstanding that the query may fold them in.
pub proof fn an_index_answers_only_where_it_has_every_vector(
    store: StoreModel,
    exact: bool,
    requested: Option<Text>,
    read_only: bool,
)
    requires
        coherent(store),
    ensures
        store_route(store, exact, requested, read_only) == SearchMethod::Hnsw <==> {
            let metric = metric_named(query_metric(store, requested));
            &&& !exact
            &&& store.index is Some
            &&& metric == Some(store.index->0.metric)
            &&& metric != Some(DistanceMetric::Poincare)
            &&& delta_of(store) == 0 || (!read_only && delta_of(store) <= store.freshness.limit)
        },
{
    a_refreshed_index_is_current(store);
}

/// What is outstanding in an index over a store: the dense slots that changed since
/// it was built and those that came after.
pub proof fn what_is_outstanding_in_a_store(store: StoreModel)
    requires
        coherent(store),
    ensures
        store.index is None ==> delta_of(store) == 0,
        store.index is Some ==> delta_of(store) == store.freshness.changed.len()
            + store.nodes.len() - store.freshness.covered,
{
}

proof fn dimensions_agree(
    types: Seq<Text>,
    stores: Seq<StoreModel>,
    text_property: Text,
    width: nat,
    position: int,
)
    requires
        0 <= position <= stores.len(),
    ensures
        dimension_fault(types, stores, text_property, width, position) is None <==> forall|i: int|
            position <= i < stores.len() ==> (#[trigger] stores[i]).dimension == width,
    decreases stores.len() - position,
{
    if position < stores.len() {
        dimensions_agree(types, stores, text_property, width, position + 1);
    }
}

proof fn scales_agree(
    entity: Text,
    types: Seq<Text>,
    stores: Seq<StoreModel>,
    text_property: Text,
    position: int,
)
    requires
        0 <= position <= stores.len(),
    ensures
        scale_fault(entity, types, stores, text_property, position) is None <==> forall|i: int|
            position <= i < stores.len() ==> query_metric(#[trigger] stores[i], None)
                == query_metric(stores[0], None),
    decreases stores.len() - position,
{
    if position < stores.len() {
        scales_agree(entity, types, stores, text_property, position + 1);
    }
}

proof fn metrics_are_known(
    stores: Seq<StoreModel>,
    top_k: nat,
    metric: Option<Text>,
    position: int,
)
    requires
        0 <= position <= stores.len(),
    ensures
        store_metric_fault(stores, top_k, metric, position) is None <==> forall|i: int|
            position <= i < stores.len() && top_k > 0 && (#[trigger] stores[i]).nodes.len() > 0
                ==> metric_named(query_metric(stores[i], metric)) is Some,
    decreases stores.len() - position,
{
    if position < stores.len() {
        metrics_are_known(stores, top_k, metric, position + 1);
    }
}

/// Stores are ranked together exactly where each has the query's dimension, they
/// score under one metric or the query names one, and the metric of each that has
/// vectors is known.
pub proof fn stores_are_ranked_where_they_compare(
    entity: Text,
    types: Seq<Text>,
    stores: Seq<StoreModel>,
    text_property: Text,
    width: nat,
    top_k: nat,
    metric: Option<Text>,
)
    ensures
        rank_fault(entity, types, stores, text_property, width, top_k, metric) is None <==> {
            &&& forall|i: int| 0 <= i < stores.len() ==> (#[trigger] stores[i]).dimension == width
            &&& metric is Some || forall|i: int|
                0 <= i < stores.len() ==> query_metric(#[trigger] stores[i], None) == query_metric(
                    stores[0],
                    None,
                )
            &&& forall|i: int|
                0 <= i < stores.len() && top_k > 0 && (#[trigger] stores[i]).nodes.len() > 0
                    ==> metric_named(query_metric(stores[i], metric)) is Some
        },
{
    dimensions_agree(types, stores, text_property, width, 0);
    scales_agree(entity, types, stores, text_property, 0);
    metrics_are_known(stores, top_k, metric, 0);
}

proof fn stores_are_there(
    graph: DirGraph,
    types: Seq<Text>,
    text_property: Text,
    surface: Surface,
    position: int,
)
    requires
        0 <= position <= types.len(),
    ensures
        absent_store(graph, types, text_property, surface, position) is None <==> forall|i: int|
            position <= i < types.len() ==> lookup(
                graph.edge_embeddings@,
                #[trigger] types[i],
                store_name_of(text_property),
            ) is Some,
    decreases types.len() - position,
{
    if position < types.len() {
        stores_are_there(graph, types, text_property, surface, position + 1);
    }
}

/// A ranking is refused exactly where the query is not of numbers, a type has no
/// store for the column, or the stores do not compare.
pub proof fn a_ranking_is_refused_where_it_cannot_be(
    graph: DirGraph,
    types: Seq<Text>,
    text_property: Text,
    query: Seq<u32>,
    top_k: nat,
    metric: Option<Text>,
    surface: Surface,
)
    requires
        query.len() <= usize::MAX,
    ensures
        query_fault(graph, types, text_property, query, top_k, metric, surface) is None <==> {
            let stores = stores_of(graph, types, text_property);
            &&& all_numeric(query)
            &&& forall|i: int|
                0 <= i < types.len() ==> lookup(
                    graph.edge_embeddings@,
                    #[trigger] types[i],
                    store_name_of(text_property),
                ) is Some
            &&& forall|i: int|
                0 <= i < stores.len() ==> (#[trigger] stores[i]).dimension == query.len()
            &&& metric is Some || forall|i: int|
                0 <= i < stores.len() ==> query_metric(#[trigger] stores[i], None) == query_metric(
                    stores[0],
                    None,
                )
            &&& forall|i: int|
                0 <= i < stores.len() && top_k > 0 && (#[trigger] stores[i]).nodes.len() > 0
                    ==> metric_named(query_metric(stores[i], metric)) is Some
        },
{
    a_vector_of_numbers_has_no_fault(query);
    stores_are_there(graph, types, text_property, surface, 0);
    stores_are_ranked_where_they_compare(
        "Relationship"@,
        types,
        stores_of(graph, types, text_property),
        text_property,
        query.len(),
        top_k,
        metric,
    );
}

/// Names come by type and then by column.
pub proof fn names_come_by_type(a: (Text, Text), b: (Text, Text))
    ensures
        a.0 != b.0 ==> (names_le(a, b) <==> lex_le(a.0, b.0)),
        a.0 == b.0 ==> (names_le(a, b) <==> lex_le(a.1, b.1)),
{
}

/// Every store is listed once, by type and then by name, and nothing else is.
pub proof fn every_store_is_listed<V>(entries: Seq<EntryModel<V>>, owner_type: Text, name: Text)
    ensures
        keys_on(entries).contains((owner_type, name)) <==> lookup(entries, owner_type, name)
            is Some,
        ascends(keys_on(entries), name_order()),
{
    let all = Seq::new(entries.len(), |i: int| (entries[i].owner_type, entries[i].name));
    let kept_keys = keys_kept(entries, entries.len() as int);
    assert(all.to_set() =~= kept_keys) by {
        assert forall|p: (Text, Text)| all.to_set().contains(p) <==> kept_keys.contains(p) by {
            if all.contains(p) {
                let i = all.index_of(p);
                assert(entries[i].owner_type == p.0);
            }
            if kept_keys.contains(p) {
                let i = choose|i: int|
                    0 <= i < entries.len() && (#[trigger] entries[i]).owner_type == p.0
                        && entries[i].name == p.1;
                assert(all[i] == p);
            }
        }
    }
    name_order_is_order();
    ascending_lists_the_items(all, name_order());
    let pair = (owner_type, name);
    assert(keys_on(entries).contains(pair) <==> kept_keys.contains(pair)) by {
        assert(keys_on(entries).to_set().contains(pair) <==> keys_on(entries).contains(pair));
    }
    if kept_keys.contains(pair) {
        listed_keys_are_kept(entries, pair);
    }
    if kept(entries, owner_type, name) {
        place_is_first(entries, owner_type, name);
        let at = crate::catalog::entry_place(entries, owner_type, name);
        assert(entries[at].owner_type == pair.0);
    }
}

proof fn pairs_are_listed<V>(entries: Seq<EntryModel<V>>)
    ensures
        ascends(stores_on(entries), name_order()),
        stores_on(entries).to_set() == pairs_kept(entries, entries.len() as int),
{
    let all = Seq::new(
        entries.len(),
        |i: int| (entries[i].owner_type, listed_column(entries[i].name)),
    );
    let pairs = pairs_kept(entries, entries.len() as int);
    assert(all.to_set() =~= pairs) by {
        assert forall|p: (Text, Text)| all.to_set().contains(p) <==> pairs.contains(p) by {
            if all.contains(p) {
                let i = all.index_of(p);
                assert(entries[i].owner_type == p.0);
            }
            if pairs.contains(p) {
                let i = choose|i: int|
                    0 <= i < entries.len() && (#[trigger] entries[i]).owner_type == p.0
                        && listed_column(entries[i].name) == p.1;
                assert(all[i] == p);
            }
        }
    }
    name_order_is_order();
    ascending_lists_the_items(all, name_order());
}

/// Every text column with a store is listed once, by type and then by column, and
/// nothing else is.
pub proof fn every_column_with_a_store_is_listed<V>(
    entries: Seq<EntryModel<V>>,
    owner_type: Text,
    column: Text,
)
    requires
        forall|i: int| 0 <= i < entries.len() ==> column_of((#[trigger] entries[i]).name) is Some,
    ensures
        stores_on(entries).contains((owner_type, column)) <==> lookup(
            entries,
            owner_type,
            store_name_of(column),
        ) is Some,
        ascends(stores_on(entries), name_order()),
{
    pairs_are_listed(entries);
    let pair = (owner_type, column);
    listed_pairs_are_kept(entries, pair);
    assert(stores_on(entries).to_set().contains(pair) <==> stores_on(entries).contains(pair));
}

/// The columns of a type and the types of a column are picked from the list in its
/// order.
pub proof fn a_listing_is_picked_in_order(
    pairs: Seq<(Text, Text)>,
    owner_type: Text,
    column: Text,
    count: nat,
)
    requires
        count <= pairs.len(),
    ensures
        columns_under(pairs, owner_type, count) == pairs.take(count as int).filter_map(
            |p: (Text, Text)|
                if p.0 == owner_type {
                    Some(p.1)
                } else {
                    None
                },
        ),
        types_over(pairs, column, count) == pairs.take(count as int).filter_map(
            |p: (Text, Text)|
                if p.1 == column {
                    Some(p.0)
                } else {
                    None
                },
        ),
    decreases count,
{
    let head = pairs.take(count as int);
    if count > 0 {
        a_listing_is_picked_in_order(pairs, owner_type, column, (count - 1) as nat);
        assert(head.drop_last() =~= pairs.take(count - 1));
        assert(head.last() == pairs[count - 1]);
    }
}

proof fn a_type_over_is_listed(pairs: Seq<(Text, Text)>, column: Text, count: nat, owner_type: Text)
    requires
        count <= pairs.len(),
    ensures
        types_over(pairs, column, count).contains(owner_type) <==> pairs.take(
            count as int,
        ).contains((owner_type, column)),
    decreases count,
{
    let head = pairs.take(count as int);
    let all = types_over(pairs, column, count);
    if count > 0 {
        a_type_over_is_listed(pairs, column, (count - 1) as nat, owner_type);
        let fewer = pairs.take(count - 1);
        let less = types_over(pairs, column, (count - 1) as nat);
        let pair = (owner_type, column);
        if less.contains(owner_type) {
            let i = less.index_of(owner_type);
            assert(all[i] == owner_type);
        }
        if fewer.contains(pair) {
            let i = fewer.index_of(pair);
            assert(head[i] == pair);
        }
        if all.contains(owner_type) && !less.contains(owner_type) {
            let i = all.index_of(owner_type);
            assert(i == less.len()) by {
                if i < less.len() {
                    assert(less[i] == owner_type);
                }
            }
            assert(head[count - 1] == pair);
        }
        if head.contains(pair) && !fewer.contains(pair) {
            let i = head.index_of(pair);
            assert(i == count - 1) by {
                if i < count - 1 {
                    assert(fewer[i] == pair);
                }
            }
            assert(all[less.len() as int] == owner_type);
        }
    }
}

/// A search that names no types ranks just those with a store for the column.
pub proof fn a_search_ranks_every_type_with_a_store(
    graph: DirGraph,
    text_column: Text,
    relationship_type: Text,
)
    requires
        forall|i: int|
            0 <= i < graph.edge_embeddings@.len() ==> column_of(
                (#[trigger] graph.edge_embeddings@[i]).name,
            ) is Some,
    ensures
        search_types_of(graph, None, text_column).contains(relationship_type) <==> lookup(
            graph.edge_embeddings@,
            relationship_type,
            store_name_of(text_column),
        ) is Some,
{
    let pairs = stores_on(graph.edge_embeddings@);
    every_column_with_a_store_is_listed(graph.edge_embeddings@, relationship_type, text_column);
    a_type_over_is_listed(pairs, text_column, pairs.len(), relationship_type);
    assert(pairs.take(pairs.len() as int) =~= pairs);
}

/// A search gives the live ones among the ranked relationships, in order, each
/// with its type, its place and its score.
pub proof fn a_search_places_every_live_hit(
    topology: Topology,
    keys: RelationshipKeys,
    hits: Seq<HitModel>,
    count: nat,
)
    requires
        count <= hits.len(),
    ensures
        placed_hits(topology, keys, hits, count) == hits.take(count as int).filter_map(
            |hit: HitModel|
                if hit.target < topology.edges@.len() && topology.edges@[hit.target as int]
                    is Some {
                    Some(
                        SearchHitModel {
                            relationship_type: hit.owner_type,
                            place: place_at(
                                topology,
                                keys.property_of(hit.owner_type),
                                EdgeIndex { slot: hit.target },
                            ),
                            score: hit.score,
                        },
                    )
                } else {
                    None
                },
        ),
    decreases count,
{
    let head = hits.take(count as int);
    if count > 0 {
        a_search_places_every_live_hit(topology, keys, hits, (count - 1) as nat);
        assert(head.drop_last() =~= hits.take(count - 1));
        assert(head.last() == hits[count - 1]);
    }
}

/// What is read for a row is the vector of the relationship that it names, in the
/// store of the column; there is nothing to read where that has none.
pub proof fn what_is_read_is_the_vector_named(
    graph: DirGraph,
    relationship_type: Text,
    text_column: Text,
    row: RowModel,
    property: Option<Text>,
)
    ensures
        ({
            let store = lookup(
                graph.edge_embeddings@,
                relationship_type,
                store_name_of(text_column),
            );
            let edge = row_resolved(graph, relationship_type, property, row, Seq::empty());
            let read = vector_read(graph, relationship_type, text_column, row, property);
            &&& read is Ok <==> store is Some && edge is Ok
            &&& store is Some && edge is Ok && store->0.nodes.contains(edge->Ok_0.slot) ==> read
                == Ok::<Option<Seq<u32>>, Text>(
                Some(store->0.rows[store->0.nodes.index_of(edge->Ok_0.slot)]),
            )
            &&& store is Some && edge is Ok && !store->0.nodes.contains(edge->Ok_0.slot) ==> read
                == Ok::<Option<Seq<u32>>, Text>(None)
        }),
{
}

} // verus!
