//! What holds of vectors that are given for nodes by id.

use crate::batch_laws::{a_vector_of_numbers_has_no_fault, all_numeric};
use crate::carried::carried_fault;
use crate::catalog::{a_kept_store_is_found, lookup};
use crate::graph::{members_or_none, node_by_id, DirGraph};
use crate::names::store_name_of;
use crate::node_ingest::{
    add_done, added, alias_of, prepared, prepared_upto, set_done, source_fault, written,
    EmbeddingIngestReport, PreparedModel,
};
use crate::store::{coherent, empty_store, hash_of, vector_of};
use crate::text::Text;
use crate::topology::property_in;
use crate::value::{NodeIndex, ValueModel};
use crate::write_laws::{
    a_set_vector_reads_back, an_added_vector_reads_back, last_row_for, no_row_for,
};
use vstd::prelude::*;

verus! {

/// A column that ids were read from is the id, one that titles were read from is
/// the title, and every other one is itself.
pub proof fn a_column_is_read_under_its_alias(graph: DirGraph, node_type: Text, column: Text, at: int)
    ensures
        0 <= at < graph.id_field_aliases@.len() && graph.id_field_aliases@[at].node_type@
            == node_type && graph.id_field_aliases@[at].field@ == column ==> alias_of(
            graph,
            node_type,
            column,
        ) == "id"@,
        0 <= at < graph.title_field_aliases@.len() && graph.title_field_aliases@[at].node_type@
            == node_type && graph.title_field_aliases@[at].field@ == column && (forall|i: int|
            0 <= i < graph.id_field_aliases@.len() ==> !((
            #[trigger] graph.id_field_aliases@[i]).node_type@ == node_type
                && graph.id_field_aliases@[i].field@ == column)) ==> alias_of(
            graph,
            node_type,
            column,
        ) == "title"@,
        (forall|i: int|
            0 <= i < graph.id_field_aliases@.len() ==> !((
            #[trigger] graph.id_field_aliases@[i]).node_type@ == node_type
                && graph.id_field_aliases@[i].field@ == column)) && (forall|i: int|
            0 <= i < graph.title_field_aliases@.len() ==> !((
            #[trigger] graph.title_field_aliases@[i]).node_type@ == node_type
                && graph.title_field_aliases@[i].field@ == column)) ==> alias_of(
            graph,
            node_type,
            column,
        ) == column,
{
}

/// A column can be read on a type exactly where it is the id or the title, under
/// its own name or as an alias, one of the names that every node answers to, or
/// a property that a living member has.
pub proof fn a_column_can_be_read_where_a_node_has_it(
    graph: DirGraph,
    node_type: Text,
    column: Text,
)
    ensures
        ({
            let field = alias_of(graph, node_type, column);
            let members = members_or_none(graph.node_types@, node_type);
            source_fault(graph, node_type, column) is None <==> {
                ||| field == "id"@
                ||| field == "title"@
                ||| field == "name"@
                ||| field == "type"@
                ||| field == "node_type"@
                ||| field == "label"@
                ||| exists|i: int|
                    0 <= i < members.len() && graph.topology.node_lives(#[trigger] members[i])
                        && property_in(
                        graph.topology.nodes@[members[i].slot as int]->0.properties@,
                        field,
                    ) is Some
            }
        }),
{
    let field = alias_of(graph, node_type, column);
    let members = members_or_none(graph.node_types@, node_type);
    if exists|i: int|
        0 <= i < members.len() && graph.topology.node_lives(#[trigger] members[i]) && property_in(
            graph.topology.nodes@[members[i].slot as int]->0.properties@,
            field,
        ) is Some {
        let i = choose|i: int|
            0 <= i < members.len() && graph.topology.node_lives(#[trigger] members[i])
                && property_in(
                graph.topology.nodes@[members[i].slot as int]->0.properties@,
                field,
            ) is Some;
        assert(property_in(graph.topology.node(members[i]).properties@, field) is Some);
    }
}

/// A store for relationships can be made exactly where there is one already or a
/// live relationship of the type has the property.
pub proof fn a_store_can_be_made_where_there_is_text(
    graph: DirGraph,
    noun: Text,
    connection_type: Text,
    property: Text,
)
    ensures
        carried_fault(graph, noun, connection_type, property) is None <==> {
            ||| lookup(graph.edge_embeddings@, connection_type, store_name_of(property)) is Some
            ||| exists|slot: int|
                0 <= slot < graph.topology.edges@.len() && (
                #[trigger] graph.topology.edges@[slot]) is Some
                    && graph.topology.edges@[slot]->0.data.connection_type@ == connection_type
                    && property_in(
                    graph.topology.edges@[slot]->0.data.properties@,
                    property,
                ) is Some
        },
{
}

/// The vectors of rows whose id a node of the type has, each with its node, in
/// the order of the rows.
pub open spec fn rows_found(graph: DirGraph, node_type: Text, rows: Seq<(ValueModel, Seq<u32>)>) -> Seq<
    (NodeIndex, Seq<u32>),
> {
    rows.filter_map(
        |row: (ValueModel, Seq<u32>)|
            match node_by_id(graph, node_type, row.0) {
                Some(node) => Some((node, row.1)),
                None => None,
            },
    )
}

/// The dimension that rows are held to: what is given, else that of the first
/// vector whose node is found.
pub open spec fn width_of(constraint: Option<usize>, found: Seq<(NodeIndex, Seq<u32>)>) -> Option<
    usize,
> {
    if constraint is Some {
        constraint
    } else if found.len() > 0 {
        Some(found[0].1.len() as usize)
    } else {
        None
    }
}

/// Rows are taken exactly where every vector is of numbers and every vector whose
/// node is found has the dimension. What is taken is those whose node is found,
/// and the others are counted as skipped.
pub proof fn rows_are_taken_where_vectors_fit(
    graph: DirGraph,
    node_type: Text,
    constraint: Option<usize>,
    rows: Seq<(ValueModel, Seq<u32>)>,
    count: nat,
)
    requires
        count <= rows.len(),
        forall|i: int| 0 <= i < rows.len() ==> (#[trigger] rows[i]).1.len() <= usize::MAX,
    ensures
        ({
            let head = rows.take(count as int);
            let found = rows_found(graph, node_type, head);
            let taken = prepared_upto(graph, node_type, constraint, rows, count);
            &&& taken is Ok <==> {
                &&& forall|i: int| 0 <= i < count ==> all_numeric((#[trigger] rows[i]).1)
                &&& forall|i: int|
                    0 <= i < found.len() ==> (#[trigger] found[i]).1.len() == width_of(
                        constraint,
                        found,
                    )->0
            }
            &&& taken is Ok ==> taken->Ok_0 == (PreparedModel {
                entries: found,
                dimension: width_of(constraint, found),
                skipped: (count - found.len()) as nat,
            })
            &&& found.len() <= count
        }),
    decreases count,
{
    let head = rows.take(count as int);
    let found = rows_found(graph, node_type, head);
    if count == 0 {
        assert(found =~= Seq::empty());
    } else {
        let k = (count - 1) as nat;
        rows_are_taken_where_vectors_fit(graph, node_type, constraint, rows, k);
        let fewer = rows.take(k as int);
        assert(head.drop_last() =~= fewer);
        assert(head.last() == rows[k as int]);
        let less = rows_found(graph, node_type, fewer);
        let before = prepared_upto(graph, node_type, constraint, rows, k);
        let taken = prepared_upto(graph, node_type, constraint, rows, count);
        let row = rows[k as int];
        a_vector_of_numbers_has_no_fault(row.1);
        match node_by_id(graph, node_type, row.0) {
            Some(node) => {
                assert(found =~= less.push((node, row.1)));
                assert forall|i: int| 0 <= i < less.len() implies #[trigger] found[i] == less[i] by {
                }
                assert(less.len() > 0 ==> found[0] == less[0]);
                assert(found[less.len() as int].1 == row.1);
                if taken is Ok {
                    assert forall|i: int| 0 <= i < found.len() implies (
                    #[trigger] found[i]).1.len() == width_of(constraint, found)->0 by {
                        if i < less.len() {
                            assert(less[i].1.len() == width_of(constraint, less)->0);
                        }
                    }
                }
                if before is Ok && all_numeric(row.1) && (forall|i: int|
                    0 <= i < found.len() ==> (#[trigger] found[i]).1.len() == width_of(
                        constraint,
                        found,
                    )->0) {
                    assert(found[less.len() as int].1.len() == width_of(constraint, found)->0);
                    assert(taken is Ok);
                }
                if before is Err && (forall|i: int|
                    0 <= i < count ==> all_numeric((#[trigger] rows[i]).1)) && (forall|i: int|
                    0 <= i < found.len() ==> (#[trigger] found[i]).1.len() == width_of(
                        constraint,
                        found,
                    )->0) {
                    assert forall|i: int| 0 <= i < less.len() implies (
                    #[trigger] less[i]).1.len() == width_of(constraint, less)->0 by {
                        assert(found[i].1.len() == width_of(constraint, found)->0);
                    }
                }
            },
            None => {
                assert(found =~= less);
            },
        }
    }
}

/// After vectors are set for nodes, the store has for each node the vector of the
/// last row that names it, and none for any other. It has no hashes and names no
/// model, and its metric is the one given. Where no row names a node, nothing
/// changes.
pub proof fn what_is_set_is_all_there_is(
    before: DirGraph,
    after: DirGraph,
    node_type: Text,
    text_column: Text,
    metric: Option<Text>,
    rows: Seq<(ValueModel, Seq<u32>)>,
    batch: PreparedModel,
    report: EmbeddingIngestReport,
)
    requires
        forall|i: int| 0 <= i < rows.len() ==> (#[trigger] rows[i]).1.len() <= usize::MAX,
        rows.len() <= usize::MAX,
        prepared(before, node_type, text_column, None, rows) == Ok::<PreparedModel, Text>(batch),
        set_done(before, after, node_type, text_column, metric, batch, report),
    ensures
        ({
            let found = rows_found(before, node_type, rows);
            let stored = lookup(after.embeddings@, node_type, store_name_of(text_column));
            &&& report.skipped == rows.len() - found.len()
            &&& found.len() == 0 ==> after == before && report.embeddings_stored == 0
                && !report.store_created
            &&& found.len() > 0 ==> {
                &&& stored is Some
                &&& report.embeddings_stored == stored->0.nodes.len() as usize
                &&& report.store_created
                &&& report.dimension == found[0].1.len()
                &&& stored->0.dimension == found[0].1.len()
                &&& stored->0.metric == metric
                &&& stored->0.model_id is None
                &&& stored->0.hashes == Map::<usize, u64>::empty()
                &&& forall|i: int, node: NodeIndex| #[trigger]
                    last_row_for(before, node_type, rows, i, rows.len() as int, node) ==> vector_of(
                        stored->0,
                        node.slot,
                    ) == Some(rows[i].1)
                &&& forall|node: NodeIndex| #[trigger]
                    no_row_for(before, node_type, rows, rows.len() as int, node) ==> vector_of(
                        stored->0,
                        node.slot,
                    ) is None
                &&& forall|t: Text, n: Text|
                    !(t == node_type && n == store_name_of(text_column)) ==> #[trigger] lookup(
                        after.embeddings@,
                        t,
                        n,
                    ) == lookup(before.embeddings@, t, n)
                &&& after.topology == before.topology
            }
        }),
{
    let found = rows_found(before, node_type, rows);
    rows_are_taken_where_vectors_fit(before, node_type, None, rows, rows.len());
    assert(rows.take(rows.len() as int) =~= rows);
    if found.len() > 0 {
        let dimension = found[0].1.len() as usize;
        let store = written(empty_store(dimension, metric), found, found.len());
        a_set_vector_reads_back(before, node_type, rows, dimension, metric, batch);
        a_kept_store_is_found(before.embeddings@, node_type, store_name_of(text_column), store);
        writes_declare_the_same(empty_store(dimension, metric), found, found.len());
    }
}

proof fn writes_declare_the_same(
    store: crate::store::StoreModel,
    entries: Seq<(NodeIndex, Seq<u32>)>,
    count: nat,
)
    ensures
        written(store, entries, count).dimension == store.dimension,
        written(store, entries, count).metric == store.metric,
        added(store, entries, count).dimension == store.dimension,
        added(store, entries, count).metric == store.metric,
    decreases count,
{
    if count > 0 {
        writes_declare_the_same(store, entries, (count - 1) as nat);
    }
}

/// After vectors are added for nodes, each node that a row names has the vector of
/// the last such row and no hash, and every other has what it had. The store keeps
/// its metric, or takes the one given where it is new, and names no model. Where
/// no row names a node, nothing changes.
pub proof fn what_is_added_for_nodes_is_stored(
    before: DirGraph,
    after: DirGraph,
    node_type: Text,
    text_column: Text,
    metric: Option<Text>,
    rows: Seq<(ValueModel, Seq<u32>)>,
    batch: PreparedModel,
    report: EmbeddingIngestReport,
)
    requires
        forall|i: int| 0 <= i < rows.len() ==> (#[trigger] rows[i]).1.len() <= usize::MAX,
        rows.len() <= usize::MAX,
        ({
            let existing = lookup(before.embeddings@, node_type, store_name_of(text_column));
            &&& existing is Some ==> coherent(existing->0)
            &&& prepared(
                before,
                node_type,
                text_column,
                crate::node_ingest::dimension_of(existing),
                rows,
            ) == Ok::<PreparedModel, Text>(batch)
        }),
        add_done(before, after, node_type, text_column, metric, batch, report),
    ensures
        ({
            let found = rows_found(before, node_type, rows);
            let existing = lookup(before.embeddings@, node_type, store_name_of(text_column));
            let stored = lookup(after.embeddings@, node_type, store_name_of(text_column));
            &&& report.skipped == rows.len() - found.len()
            &&& found.len() == 0 ==> after == before && report.embeddings_stored == 0
                && !report.store_created
            &&& found.len() > 0 ==> {
                &&& stored is Some
                &&& report.embeddings_stored == stored->0.nodes.len() as usize
                &&& report.store_created == (existing is None)
                &&& report.dimension == found[0].1.len()
                &&& stored->0.dimension == found[0].1.len()
                &&& existing is Some ==> existing->0.dimension == found[0].1.len()
                &&& stored->0.metric == if existing is Some {
                    existing->0.metric
                } else {
                    metric
                }
                &&& stored->0.model_id is None
                &&& forall|i: int, node: NodeIndex| #[trigger]
                    last_row_for(before, node_type, rows, i, rows.len() as int, node) ==> vector_of(
                        stored->0,
                        node.slot,
                    ) == Some(rows[i].1) && hash_of(stored->0, node.slot) is None
                &&& forall|node: NodeIndex| #[trigger]
                    no_row_for(before, node_type, rows, rows.len() as int, node)
                        ==> if existing is Some {
                        &&& vector_of(stored->0, node.slot) == vector_of(existing->0, node.slot)
                        &&& hash_of(stored->0, node.slot) == hash_of(existing->0, node.slot)
                    } else {
                        vector_of(stored->0, node.slot) is None
                    }
                &&& forall|t: Text, n: Text|
                    !(t == node_type && n == store_name_of(text_column)) ==> #[trigger] lookup(
                        after.embeddings@,
                        t,
                        n,
                    ) == lookup(before.embeddings@, t, n)
                &&& after.topology == before.topology
            }
        }),
{
    let found = rows_found(before, node_type, rows);
    let existing = lookup(before.embeddings@, node_type, store_name_of(text_column));
    let constraint = crate::node_ingest::dimension_of(existing);
    rows_are_taken_where_vectors_fit(before, node_type, constraint, rows, rows.len());
    assert(rows.take(rows.len() as int) =~= rows);
    if found.len() > 0 {
        let dimension = found[0].1.len() as usize;
        assert(found[0].1.len() == width_of(constraint, found)->0);
        let base = match existing {
            Some(store) => store,
            None => empty_store(dimension, metric),
        };
        let plus = added(base, found, found.len());
        let store = crate::store::StoreModel { model_id: None, ..plus };
        an_added_vector_reads_back(before, node_type, constraint, rows, base, batch);
        a_kept_store_is_found(before.embeddings@, node_type, store_name_of(text_column), store);
        writes_declare_the_same(base, found, found.len());
        assert forall|i: int, node: NodeIndex| #[trigger]
            last_row_for(before, node_type, rows, i, rows.len() as int, node) implies vector_of(
            store,
            node.slot,
        ) == Some(rows[i].1) && hash_of(store, node.slot) is None by {
            assert(vector_of(store, node.slot) == vector_of(plus, node.slot));
        }
        assert forall|node: NodeIndex| #[trigger]
            no_row_for(before, node_type, rows, rows.len() as int, node) implies {
            if existing is Some {
                &&& vector_of(store, node.slot) == vector_of(existing->0, node.slot)
                &&& hash_of(store, node.slot) == hash_of(existing->0, node.slot)
            } else {
                vector_of(store, node.slot) is None
            }
        } by {
            assert(vector_of(store, node.slot) == vector_of(plus, node.slot));
        }
    }
}

} // verus!
