//! What building, dropping and catching up an index does to a store.

use crate::catalog::{a_kept_store_is_found, lookup};
use crate::edge_vector_index::{
    build_done, build_fault, build_metric, index_drop_done, indexed_store, seed_of, status_of,
    OptionsModel,
};
use crate::graph::DirGraph;
use crate::metric::{metric_named, HnswParams};
use crate::names::store_name_of;
use crate::node_index::{
    index_metric, node_build_fault, node_index_dropped, node_indexed, node_params, node_status,
};
use crate::store::{caught_up, coherent, delta_of, refreshed, unindexed, StoreModel};
use crate::text::Text;
use vstd::prelude::*;

verus! {

/// The metrics that an index can rank by.
pub open spec fn ranks_by(name: Text) -> bool {
    name == "cosine"@ || name == "dot_product"@ || name == "euclidean"@
}

/// A store's vectors, their hashes and what made them are the same in both.
pub open spec fn same_vectors(a: StoreModel, b: StoreModel) -> bool {
    &&& a.dimension == b.dimension
    &&& a.nodes == b.nodes
    &&& a.rows == b.rows
    &&& a.hashes == b.hashes
    &&& a.model_id == b.model_id
}

proof fn names_differ()
    ensures
        !ranks_by("poincare"@),
{
    reveal_strlit("poincare");
    reveal_strlit("cosine");
    reveal_strlit("dot_product");
    reveal_strlit("euclidean");
    assert("poincare"@[0] == 'p' && "cosine"@[0] == 'c' && "dot_product"@[0] == 'd'
        && "euclidean"@[0] == 'e');
}

/// The metric of a build is the one asked for, else the store's, else cosine.
pub proof fn a_build_ranks_by_what_it_asks(options: OptionsModel, store: StoreModel)
    ensures
        options.metric is Some ==> build_metric(options, store) == options.metric->0,
        options.metric is None && store.metric is Some ==> build_metric(options, store)
            == store.metric->0,
        options.metric is None && store.metric is None ==> build_metric(options, store)
            == "cosine"@,
{
}

/// An index over a relationship store can be built exactly where there is a store,
/// an index ranks by its metric, the metric asked for is not another than the
/// store's, every number asked for is in its range, and there are not too many
/// vectors.
pub proof fn an_index_is_built_where_it_can_be(
    existing: Option<StoreModel>,
    connection_type: Text,
    text_property: Text,
    options: OptionsModel,
)
    ensures
        build_fault(existing, connection_type, text_property, options) is None <==> {
            &&& existing is Some
            &&& ranks_by(build_metric(options, existing->0))
            &&& options.metric is None || existing->0.metric is None || options.metric
                == existing->0.metric
            &&& options.m is None || options.m->0 >= 2
            &&& options.ef_construction is None || options.ef_construction->0 >= 1
            &&& options.ef_search is None || options.ef_search->0 >= 1
            &&& existing->0.nodes.len() <= u32::MAX
        },
{
    names_differ();
}

/// A built index has every vector. It is for the metric of the build and has the
/// numbers asked for, or the defaults; the store's vectors are as they were, it
/// declares the metric asked for, and a query may fold in as many vectors as was
/// asked for, else as many as before.
pub proof fn a_built_index_has_every_vector(
    before: DirGraph,
    after: DirGraph,
    connection_type: Text,
    text_property: Text,
    options: OptionsModel,
)
    requires
        ({
            let existing = lookup(
                before.edge_embeddings@,
                connection_type,
                store_name_of(text_property),
            );
            &&& existing is Some && coherent(existing->0)
            &&& build_fault(existing, connection_type, text_property, options) is None
        }),
        build_done(before, after, connection_type, text_property, options),
    ensures
        ({
            let name = store_name_of(text_property);
            let existing = lookup(before.edge_embeddings@, connection_type, name)->0;
            let stored = lookup(after.edge_embeddings@, connection_type, name);
            &&& stored is Some
            &&& same_vectors(existing, stored->0)
            &&& stored->0.index is Some
            &&& delta_of(stored->0) == 0
            &&& Some(stored->0.index->0.metric) == metric_named(build_metric(options, existing))
            &&& stored->0.index->0.params == (HnswParams {
                m: if options.m is Some {
                    options.m->0
                } else {
                    16
                },
                ef_construction: if options.ef_construction is Some {
                    options.ef_construction->0
                } else {
                    200
                },
                ef_search: if options.ef_search is Some {
                    options.ef_search->0
                } else {
                    64
                },
            })
            &&& stored->0.metric == if options.metric is Some {
                options.metric
            } else {
                existing.metric
            }
            &&& stored->0.freshness.limit == if options.limit is Some {
                options.limit->0
            } else {
                existing.freshness.limit
            }
            &&& forall|t: Text, n: Text|
                !(t == connection_type && n == name) ==> #[trigger] lookup(
                    after.edge_embeddings@,
                    t,
                    n,
                ) == lookup(before.edge_embeddings@, t, n)
            &&& after.topology == before.topology
        }),
{
    let name = store_name_of(text_property);
    let existing = lookup(before.edge_embeddings@, connection_type, name)->0;
    a_kept_store_is_found(
        before.edge_embeddings@,
        connection_type,
        name,
        indexed_store(existing, options),
    );
    an_index_is_built_where_it_can_be(
        Some(existing),
        connection_type,
        text_property,
        options,
    );
}

/// What the layers of an index are drawn from gives the number of its vectors back.
pub proof fn a_seed_tells_the_count(count: u64)
    ensures
        seed_of(count as nat) ^ count == 0x9E37_79B9_7F4A_7C15u64,
{
    assert((0x9E37_79B9_7F4A_7C15u64 ^ count) ^ count == 0x9E37_79B9_7F4A_7C15u64) by (bit_vector);
}

/// Dropping an index leaves every vector and its hash, what the store declares,
/// and how much an index may lag.
pub proof fn dropping_an_index_leaves_the_vectors(
    before: DirGraph,
    after: DirGraph,
    connection_type: Text,
    text_property: Text,
)
    requires
        lookup(before.edge_embeddings@, connection_type, store_name_of(text_property)) is Some,
        index_drop_done(before, after, connection_type, text_property),
    ensures
        ({
            let name = store_name_of(text_property);
            let existing = lookup(before.edge_embeddings@, connection_type, name)->0;
            let stored = lookup(after.edge_embeddings@, connection_type, name);
            &&& stored is Some
            &&& same_vectors(existing, stored->0)
            &&& stored->0.metric == existing.metric
            &&& stored->0.index is None
            &&& stored->0.freshness.limit == existing.freshness.limit
            &&& forall|t: Text, n: Text|
                !(t == connection_type && n == name) ==> #[trigger] lookup(
                    after.edge_embeddings@,
                    t,
                    n,
                ) == lookup(before.edge_embeddings@, t, n)
        }),
{
    let name = store_name_of(text_property);
    let existing = lookup(before.edge_embeddings@, connection_type, name)->0;
    a_kept_store_is_found(
        before.edge_embeddings@,
        connection_type,
        name,
        unindexed(existing),
    );
}

/// Catching up changes nothing but what is outstanding: the vectors, the index's
/// metric and numbers, and what the store declares stay, and nothing is outstanding
/// after. A query catches up only where it may write and no more is outstanding
/// than the limit.
pub proof fn catching_up_changes_no_vector(store: StoreModel, read_only: bool)
    requires
        coherent(store),
    ensures
        same_vectors(store, refreshed(store)),
        refreshed(store).metric == store.metric,
        refreshed(store).index == store.index,
        refreshed(store).freshness.limit == store.freshness.limit,
        delta_of(refreshed(store)) == 0,
        same_vectors(store, caught_up(store, read_only)),
        caught_up(store, read_only).metric == store.metric,
        caught_up(store, read_only).index == store.index,
        read_only || delta_of(store) > store.freshness.limit ==> caught_up(store, read_only)
            == store,
        !read_only && delta_of(store) <= store.freshness.limit ==> delta_of(
            caught_up(store, read_only),
        ) == 0,
{
}

/// How an index stands: whether it is built, whether and how much is outstanding,
/// and how many of the type have no vector.
pub proof fn a_status_says_how_an_index_stands(
    owner_type: Text,
    text_column: Text,
    store: StoreModel,
    members: nat,
)
    ensures
        ({
            let status = status_of(owner_type, text_column, store, members);
            &&& status.owner_type == owner_type
            &&& status.text_column == text_column
            &&& status.built <==> store.index is Some
            &&& status.stale <==> status.delta > 0
            &&& status.delta == delta_of(store)
            &&& members >= store.nodes.len() ==> status.unembedded + store.nodes.len() == members
            &&& members < store.nodes.len() ==> status.unembedded == 0
        }),
        ({
            let status = node_status(owner_type, text_column, store, members);
            &&& status.owner_type == owner_type
            &&& status.text_column == text_column
            &&& status.built <==> store.index is Some
            &&& status.stale <==> delta_of(store) > 0
            &&& store.index is Some ==> status.delta == delta_of(store)
            &&& store.index is None ==> status.delta == store.nodes.len()
            &&& members >= store.nodes.len() ==> status.unembedded + store.nodes.len() == members
            &&& members < store.nodes.len() ==> status.unembedded == 0
        }),
{
}

/// The numbers of an index over nodes are those asked for, or the defaults, and
/// none is below what an index needs.
pub proof fn a_node_index_has_usable_numbers(
    m: Option<usize>,
    ef_construction: Option<usize>,
    ef_search: Option<usize>,
)
    ensures
        ({
            let params = node_params(m, ef_construction, ef_search);
            &&& params.m >= 2 && params.ef_construction >= 1 && params.ef_search >= 1
            &&& m is Some && m->0 >= 2 ==> params.m == m->0
            &&& m is Some && m->0 < 2 ==> params.m == 2
            &&& m is None ==> params.m == 16
            &&& ef_construction is Some && ef_construction->0 >= 1 ==> params.ef_construction
                == ef_construction->0
            &&& ef_construction == Some(0usize) ==> params.ef_construction == 1
            &&& ef_construction is None ==> params.ef_construction == 200
            &&& ef_search is Some && ef_search->0 >= 1 ==> params.ef_search == ef_search->0
            &&& ef_search == Some(0usize) ==> params.ef_search == 1
            &&& ef_search is None ==> params.ef_search == 64
        }),
{
}

/// An index over a node store can be built exactly where there is a store, an index
/// ranks by its metric, the metric asked for is not another than the store's, and
/// there are not too many vectors.
pub proof fn a_node_index_is_built_where_it_can_be(
    graph: DirGraph,
    node_type: Text,
    text_column: Text,
    metric: Option<Text>,
)
    ensures
        node_build_fault(graph, node_type, text_column, metric) is None <==> {
            let existing = lookup(graph.embeddings@, node_type, store_name_of(text_column));
            &&& existing is Some
            &&& ranks_by(
                if metric is Some {
                    metric->0
                } else if existing->0.metric is Some {
                    existing->0.metric->0
                } else {
                    "cosine"@
                },
            )
            &&& metric is None || existing->0.metric is None || metric == existing->0.metric
            &&& existing->0.nodes.len() <= u32::MAX
        },
{
    names_differ();
}

/// A node store with a built index has the same vectors, and an index that has them
/// all, for the metric asked for, else the store's, else cosine.
pub proof fn a_built_node_index_has_every_vector(
    store: StoreModel,
    params: HnswParams,
    metric: Option<Text>,
    limit: Option<usize>,
)
    requires
        coherent(store),
        metric_named(index_metric(Some(store), metric)) is Some,
    ensures
        ({
            let built = node_indexed(store, params, metric, limit);
            &&& same_vectors(store, built)
            &&& built.index is Some
            &&& built.index->0.params == params
            &&& delta_of(built) == 0
            &&& Some(built.index->0.metric) == metric_named(
                if metric is Some {
                    metric->0
                } else if store.metric is Some {
                    store.metric->0
                } else {
                    "cosine"@
                },
            )
            &&& built.metric == if metric is Some {
                metric
            } else {
                store.metric
            }
            &&& built.freshness.limit == if limit is Some {
                limit->0
            } else {
                store.freshness.limit
            }
        }),
{
}

/// Dropping the index over a node store leaves its vectors and every other store.
pub proof fn dropping_a_node_index_leaves_the_vectors(
    graph: DirGraph,
    node_type: Text,
    text_column: Text,
)
    ensures
        ({
            let name = store_name_of(text_column);
            let existing = lookup(graph.embeddings@, node_type, name);
            let after = node_index_dropped(graph.embeddings@, node_type, text_column);
            let stored = lookup(after, node_type, name);
            &&& existing is None ==> after == graph.embeddings@
            &&& existing is Some ==> {
                &&& stored is Some
                &&& same_vectors(existing->0, stored->0)
                &&& stored->0.metric == existing->0.metric
                &&& stored->0.index is None
                &&& stored->0.freshness.limit == existing->0.freshness.limit
            }
            &&& forall|t: Text, n: Text|
                !(t == node_type && n == name) ==> #[trigger] lookup(after, t, n) == lookup(
                    graph.embeddings@,
                    t,
                    n,
                )
        }),
{
    let name = store_name_of(text_column);
    if let Some(existing) = lookup(graph.embeddings@, node_type, name) {
        a_kept_store_is_found(graph.embeddings@, node_type, name, unindexed(existing));
    }
}

} // verus!
