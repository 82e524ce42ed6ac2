//! How relationships are named in messages, and how writes to relationship
//! stores are recorded.
use vstd::prelude::*;
use crate::catalog::{lookup, EntryModel};
use crate::fx::{fx_insert, fx_set};
use crate::graph::{group_touch, recorded, recorded_with, DirGraph};
use crate::names::{column_of, store_name, store_name_of, text_column_of};
use crate::order::{ascending, ascending_of_items, ascends, insert_pair, is_order, pair_order};
use crate::recording::{
    cells_were, EdgeEmbeddingBaseTouch, EdgeEmbeddingPriorCell, EdgeVectorWalState, OpModel,
    PriorCellModel, RawOp, RecordingModel, TouchModel, VectorStateModel,
};
use crate::store::{hash_of, vector_of, StoreModel};
use crate::text::{
    decimal, insert_text, push_number, text_eq, text_order, text_order_is_order, texts, Text,
};
use crate::topology::Topology;
use crate::value::{push_value, shown_value, EdgeIndex, NodeIndex};

verus! {

/// A node as messages name it: its type and its id.
pub open spec fn endpoint_text(topology: Topology, node: NodeIndex) -> Text {
    if topology.node_lives(node) {
        topology.node(node).node_type@ + " id="@ + shown_value(topology.node(node).id@)
    } else {
        "?"@
    }
}

/// A relationship as messages name it: its endpoints and its type.
pub open spec fn relationship_text(topology: Topology, edge: EdgeIndex) -> Text {
    if topology.live(edge) {
        "("@ + endpoint_text(topology, topology.record(edge).source) + ")-[:"@ + topology.type_of(
            edge,
        ) + "]->("@ + endpoint_text(topology, topology.record(edge).target) + ")"@
    } else {
        "a deleted relationship"@
    }
}

/// A node as relationship messages name it: `Label id=<id>`.
pub fn describe_endpoint(graph: &DirGraph, node: NodeIndex) -> (text: String)
    ensures
        text@ == endpoint_text(graph.topology, node),
{
    match graph.topology.node_view(node) {
        Some(data) => {
            let mut text = data.node_type.clone();
            text.append(" id=");
            push_value(&mut text, &data.id);
            text
        },
        None => "?".to_owned(),
    }
}

/// A relationship as messages name it: `(Doc id=1)-[:CITES]->(Doc id=2)`.
pub fn describe_relationship(graph: &DirGraph, edge: EdgeIndex) -> (text: String)
    ensures
        text@ == relationship_text(graph.topology, edge),
{
    match graph.topology.edge_endpoints(edge) {
        Some((source, target)) => {
            let mut text = "(".to_owned();
            text.append(describe_endpoint(graph, source).as_str());
            text.append(")-[:");
            match graph.topology.edge_weight(edge) {
                Some(data) => text.append(data.connection_type.as_str()),
                None => {},
            }
            text.append("]->(");
            text.append(describe_endpoint(graph, target).as_str());
            text.append(")");
            text
        },
        None => "a deleted relationship".to_owned(),
    }
}

/// The relationship is in the parallel group between two nodes.
pub open spec fn in_group(
    topology: Topology,
    edge: EdgeIndex,
    pair: (usize, usize),
    connection_type: Text,
) -> bool {
    &&& topology.live_of_type(edge, connection_type)
    &&& topology.record(edge).source.slot == pair.0
    &&& topology.record(edge).target.slot == pair.1
}

/// A cell as it is before a write.
pub open spec fn cell_before(
    stores: Seq<EntryModel<StoreModel>>,
    connection_type: Text,
    text_property: Text,
    edge: EdgeIndex,
) -> PriorCellModel {
    PriorCellModel {
        edge,
        text_column: text_property,
        state: match lookup(stores, connection_type, store_name_of(text_property)) {
            Some(store) => match vector_of(store, edge.slot) {
                Some(vector) => Some(
                    VectorStateModel { vector, text_hash: hash_of(store, edge.slot) },
                ),
                None => None,
            },
            None => None,
        },
    }
}

/// The cells of the first `count` relationships that are in the group.
pub open spec fn cells_before(
    topology: Topology,
    stores: Seq<EntryModel<StoreModel>>,
    connection_type: Text,
    text_property: Text,
    changed: Seq<EdgeIndex>,
    pair: (usize, usize),
    count: nat,
) -> Seq<PriorCellModel>
    decreases count,
{
    if count == 0 {
        Seq::empty()
    } else {
        let before = cells_before(
            topology,
            stores,
            connection_type,
            text_property,
            changed,
            pair,
            (count - 1) as nat,
        );
        if in_group(topology, changed[count - 1], pair, connection_type) {
            before.push(cell_before(stores, connection_type, text_property, changed[count - 1]))
        } else {
            before
        }
    }
}

/// The text columns that a type has stores for.
pub open spec fn columns_of_type(entries: Seq<EntryModel<StoreModel>>, owner_type: Text) -> Set<
    Text,
> {
    Set::new(
        |c: Text|
            exists|i: int|
                0 <= i < entries.len() && (#[trigger] entries[i]).owner_type == owner_type
                    && column_of(entries[i].name) == Some(c),
    )
}

/// The slots of the nodes a relationship runs between.
pub open spec fn pair_of(topology: Topology, edge: EdgeIndex) -> (usize, usize) {
    (topology.record(edge).source.slot, topology.record(edge).target.slot)
}

/// The pairs of nodes that relationships run between.
pub open spec fn pairs_of(topology: Topology, edges: Seq<EdgeIndex>) -> Set<(usize, usize)> {
    Set::new(
        |p: (usize, usize)|
            exists|i: int| 0 <= i < edges.len() && pair_of(topology, #[trigger] edges[i]) == p,
    )
}

/// What is recorded of a group before a write to some of its cells.
pub open spec fn touch_of(
    topology: Topology,
    stores: Seq<EntryModel<StoreModel>>,
    connection_type: Text,
    text_property: Text,
    changed: Seq<EdgeIndex>,
    pair: (usize, usize),
) -> TouchModel {
    let source = topology.node(NodeIndex { slot: pair.0 });
    let target = topology.node(NodeIndex { slot: pair.1 });
    TouchModel {
        conn_type: connection_type,
        src_type: source.node_type@,
        src_id: source.id@,
        tgt_type: target.node_type@,
        tgt_id: target.id@,
        base_stores: ascending(columns_of_type(stores, connection_type), text_order()),
        prior_cells: cells_before(
            topology,
            stores,
            connection_type,
            text_property,
            changed,
            pair,
            changed.len(),
        ),
    }
}

/// What is recorded before a write: every group it touches, by its endpoints.
pub open spec fn bases_before(
    topology: Topology,
    stores: Seq<EntryModel<StoreModel>>,
    connection_type: Text,
    text_property: Text,
    changed: Seq<EdgeIndex>,
) -> Seq<OpModel> {
    let pairs = ascending(pairs_of(topology, changed), pair_order());
    Seq::new(
        pairs.len(),
        |i: int|
            OpModel::EdgeEmbeddingBase(
                touch_of(topology, stores, connection_type, text_property, changed, pairs[i]),
            ),
    )
}

/// The order of pairs orders every two pairs one way.
pub proof fn pair_order_is_order()
    ensures
        is_order(pair_order()),
{
}

fn columns_for_type(graph: &DirGraph, connection_type: &str) -> (columns: Vec<String>)
    requires
        graph.well_formed(),
    ensures
        texts(columns@) == ascending(
            columns_of_type(graph.edge_embeddings@, connection_type@),
            text_order(),
        ),
{
    let mut columns: Vec<String> = Vec::new();
    let ghost entries = graph.edge_embeddings@;
    let mut i: usize = 0;
    assert(texts(columns@).to_set() =~= columns_of_type(entries.take(0), connection_type@));
    while i < graph.edge_embeddings.entries.len()
        invariant
            i <= graph.edge_embeddings.entries@.len(),
            graph.well_formed(),
            entries == graph.edge_embeddings@,
            ascends(texts(columns@), text_order()),
            texts(columns@).to_set() == columns_of_type(entries.take(i as int), connection_type@),
        decreases graph.edge_embeddings.entries@.len() - i,
    {
        let ghost before = columns_of_type(entries.take(i as int), connection_type@);
        let ghost after = columns_of_type(entries.take(i + 1), connection_type@);
        let entry = &graph.edge_embeddings.entries[i];
        assert(entries.take(i + 1)[i as int] == entries[i as int]);
        assert(entries[i as int].name == entry.name@);
        proof {
            assert forall|c: Text| before.contains(c) implies after.contains(c) by {
                let k = choose|k: int|
                    0 <= k < i && (#[trigger] entries.take(i as int)[k]).owner_type
                        == connection_type@ && column_of(entries.take(i as int)[k].name) == Some(c);
                assert(entries.take(i + 1)[k] == entries.take(i as int)[k]);
            }
            assert forall|c: Text| after.contains(c) implies before.contains(c) || (
            entry.owner_type@ == connection_type@ && column_of(entry.name@) == Some(c)) by {
                let k = choose|k: int|
                    0 <= k < i + 1 && (#[trigger] entries.take(i + 1)[k]).owner_type
                        == connection_type@ && column_of(entries.take(i + 1)[k].name) == Some(c);
                if k < i {
                    assert(entries.take(i + 1)[k] == entries.take(i as int)[k]);
                }
            }
        }
        if text_eq(entry.owner_type.as_str(), connection_type) {
            match text_column_of(entry.name.as_str()) {
                Some(column) => {
                    insert_text(&mut columns, column);
                    assert(after =~= before.insert(column@));
                },
                None => {
                    assert(false);
                },
            }
        } else {
            assert(after =~= before);
        }
        i = i + 1;
    }
    proof {
        assert(entries.take(i as int) =~= entries);
        text_order_is_order();
        ascending_of_items(texts(columns@), text_order());
    }
    columns
}

fn prior_cells_of(
    graph: &DirGraph,
    connection_type: &str,
    text_property: &str,
    changed: &Vec<EdgeIndex>,
    pair: (usize, usize),
) -> (cells: Vec<EdgeEmbeddingPriorCell>)
    requires
        graph.well_formed(),
    ensures
        cells_were(cells@) == cells_before(
            graph.topology,
            graph.edge_embeddings@,
            connection_type@,
            text_property@,
            changed@,
            pair,
            changed@.len(),
        ),
{
    let name = store_name(text_property);
    let mut cells: Vec<EdgeEmbeddingPriorCell> = Vec::new();
    let mut i: usize = 0;
    assert(cells_were(cells@) =~= Seq::<PriorCellModel>::empty());
    while i < changed.len()
        invariant
            i <= changed@.len(),
            graph.well_formed(),
            name@ == store_name_of(text_property@),
            cells_were(cells@) == cells_before(
                graph.topology,
                graph.edge_embeddings@,
                connection_type@,
                text_property@,
                changed@,
                pair,
                i as nat,
            ),
        decreases changed@.len() - i,
    {
        let edge = changed[i];
        let inside = match (
            graph.topology.edge_weight(edge),
            graph.topology.edge_endpoints(edge),
        ) {
            (Some(data), Some((source, target))) => {
                source.slot == pair.0 && target.slot == pair.1 && text_eq(
                    data.connection_type.as_str(),
                    connection_type,
                )
            },
            _ => false,
        };
        if inside {
            let state = match graph.edge_embeddings.get(connection_type, name.as_str()) {
                Some(store) => match store.get(edge) {
                    Some(vector) => Some(
                        EdgeVectorWalState {
                            vector: vstd::slice::slice_to_vec(vector),
                            text_hash: store.text_hash(edge),
                        },
                    ),
                    None => None,
                },
                None => None,
            };
            let ghost before = cells_were(cells@);
            let cell = EdgeEmbeddingPriorCell { edge, text_column: text_property.to_owned(), state };
            assert(cell@ =~= cell_before(
                graph.edge_embeddings@,
                connection_type@,
                text_property@,
                edge,
            ));
            cells.push(cell);
            assert(cells_were(cells@) =~= before.push(cell@));
        }
        i = i + 1;
    }
    cells
}

/// What is said where a touched relationship does not live.
pub open spec fn no_endpoints_text(edge: EdgeIndex) -> Text {
    "relationship slot "@ + decimal(edge.slot as nat) + " has no endpoints"@
}

/// Every relationship of a list lives.
pub open spec fn all_live(topology: Topology, edges: Seq<EdgeIndex>) -> bool {
    forall|i: int| 0 <= i < edges.len() ==> topology.live(#[trigger] edges[i])
}

/// The relationships among the first `count`, each where it is named first.
pub open spec fn without_repeats(edges: Seq<EdgeIndex>, count: nat) -> Seq<EdgeIndex>
    decreases count,
{
    if count == 0 {
        Seq::empty()
    } else {
        let before = without_repeats(edges, (count - 1) as nat);
        if before.contains(edges[count - 1]) {
            before
        } else {
            before.push(edges[count - 1])
        }
    }
}

/// A list without repeats is left as it is.
pub(crate) proof fn no_repeats_to_merge(edges: Seq<EdgeIndex>, count: nat)
    requires
        edges.no_duplicates(),
        count <= edges.len(),
    ensures
        without_repeats(edges, count) == edges.take(count as int),
    decreases count,
{
    if count > 0 {
        no_repeats_to_merge(edges, (count - 1) as nat);
        let before = edges.take(count - 1);
        assert(!before.contains(edges[count - 1])) by {
            if before.contains(edges[count - 1]) {
                let k = before.index_of(edges[count - 1]);
                assert(edges[k] == edges[count - 1]);
            }
        }
        assert(before.push(edges[count - 1]) =~= edges.take(count as int));
    } else {
        assert(edges.take(0) =~= Seq::<EdgeIndex>::empty());
    }
}

fn merge_repeats(edges: &Vec<EdgeIndex>) -> (merged: Vec<EdgeIndex>)
    ensures
        merged@ == without_repeats(edges@, edges@.len()),
        merged@.no_duplicates(),
{
    let mut merged: Vec<EdgeIndex> = Vec::new();
    let mut seen = fx_set();
    let mut i: usize = 0;
    while i < edges.len()
        invariant
            i <= edges@.len(),
            merged@ == without_repeats(edges@, i as nat),
            merged@.no_duplicates(),
            forall|e: EdgeIndex| #[trigger] merged@.contains(e) <==> seen@.contains(e.slot),
        decreases edges@.len() - i,
    {
        let edge = edges[i];
        let ghost before = merged@;
        let ghost marked = seen@;
        assert(before.contains(edge) <==> marked.contains(edge.slot));
        if fx_insert(&mut seen, edge.slot) {
            merged.push(edge);
            proof {
                assert forall|e: EdgeIndex| #[trigger] merged@.contains(e) <==> seen@.contains(
                    e.slot,
                ) by {
                    if before.contains(e) {
                        let k = before.index_of(e);
                        assert(merged@[k] == e);
                    }
                    if e.slot == edge.slot {
                        assert(e == edge);
                        assert(merged@[before.len() as int] == e);
                    }
                    if merged@.contains(e) && e != edge {
                        let k = merged@.index_of(e);
                        assert(before[k] == e);
                    }
                    assert(before.contains(e) <==> marked.contains(e.slot));
                }
            }
        }
        i = i + 1;
    }
    merged
}

/// Records, before a write to cells of a relationship store, what each group
/// it touches was. A relationship that is named again counts once. Refused where
/// one does not live.
pub fn capture_wal_edge_embedding_bases(
    graph: &mut DirGraph,
    connection_type: &str,
    text_property: &str,
    changed: &Vec<EdgeIndex>,
) -> (result: Result<(), String>)
    requires
        old(graph).well_formed(),
    ensures
        final(graph).well_formed(),
        *final(graph) == (DirGraph { recording: final(graph).recording, ..*old(graph) }),
        final(graph).recording is Some <==> old(graph).recording is Some,
        match result {
            Ok(_) => {
                let listed = without_repeats(changed@, changed@.len());
                &&& old(graph).recording is None || all_live(old(graph).topology, listed)
                &&& recorded(*final(graph)) == recorded_with(
                    recorded(*old(graph)),
                    bases_before(
                        old(graph).topology,
                        old(graph).edge_embeddings@,
                        connection_type@,
                        text_property@,
                        listed,
                    ),
                )
            },
            Err(message) => {
                let listed = without_repeats(changed@, changed@.len());
                &&& old(graph).recording is Some
                &&& *final(graph) == *old(graph)
                &&& exists|i: int|
                    0 <= i < listed.len() && !old(graph).topology.live(#[trigger] listed[i])
                        && all_live(old(graph).topology, listed.take(i)) && message@
                        == no_endpoints_text(listed[i])
            },
        },
{
    if !graph.records_payloads() {
        return Ok(());
    }
    let listed = merge_repeats(changed);
    capture_bases(graph, connection_type, text_property, &listed)
}

fn capture_bases(
    graph: &mut DirGraph,
    connection_type: &str,
    text_property: &str,
    changed: &Vec<EdgeIndex>,
) -> (result: Result<(), String>)
    requires
        old(graph).well_formed(),
        old(graph).recording is Some,
        changed@.no_duplicates(),
    ensures
        final(graph).well_formed(),
        *final(graph) == (DirGraph { recording: final(graph).recording, ..*old(graph) }),
        final(graph).recording is Some,
        match result {
            Ok(_) => {
                &&& all_live(old(graph).topology, changed@)
                &&& recorded(*final(graph)) == recorded_with(
                    recorded(*old(graph)),
                    bases_before(
                        old(graph).topology,
                        old(graph).edge_embeddings@,
                        connection_type@,
                        text_property@,
                        changed@,
                    ),
                )
            },
            Err(message) => {
                &&& *final(graph) == *old(graph)
                &&& exists|i: int|
                    0 <= i < changed@.len() && !old(graph).topology.live(#[trigger] changed@[i])
                        && all_live(old(graph).topology, changed@.take(i)) && message@
                        == no_endpoints_text(changed@[i])
            },
        },
{
    let ghost topology = graph.topology;
    let ghost stores = graph.edge_embeddings@;
    let mut pairs: Vec<(usize, usize)> = Vec::new();
    let mut i: usize = 0;
    assert(pairs@.to_set() =~= pairs_of(topology, changed@.take(0)));
    while i < changed.len()
        invariant
            i <= changed@.len(),
            *graph == *old(graph),
            graph.well_formed(),
            graph.recording is Some,
            topology == graph.topology,
            all_live(topology, changed@.take(i as int)),
            ascends(pairs@, pair_order()),
            pairs@.to_set() == pairs_of(topology, changed@.take(i as int)),
        decreases changed@.len() - i,
    {
        match graph.topology.edge_endpoints(changed[i]) {
            Some((source, target)) => {
                let ghost before = pairs_of(topology, changed@.take(i as int));
                let ghost after = pairs_of(topology, changed@.take(i + 1));
                insert_pair(&mut pairs, (source.slot, target.slot));
                proof {
                    let pair = (source.slot, target.slot);
                    assert(changed@.take(i + 1)[i as int] == changed@[i as int]);
                    assert(pair_of(topology, changed@.take(i + 1)[i as int]) == pair);
                    assert forall|p: (usize, usize)|
                        after.contains(p) <==> before.insert(pair).contains(p) by {
                        if before.contains(p) {
                            let k = choose|k: int|
                                0 <= k < i && pair_of(
                                    topology,
                                    #[trigger] changed@.take(i as int)[k],
                                ) == p;
                            assert(changed@.take(i + 1)[k] == changed@.take(i as int)[k]);
                        }
                        if after.contains(p) {
                            let k = choose|k: int|
                                0 <= k < i + 1 && pair_of(
                                    topology,
                                    #[trigger] changed@.take(i + 1)[k],
                                ) == p;
                            if k < i {
                                assert(changed@.take(i + 1)[k] == changed@.take(i as int)[k]);
                            }
                        }
                    }
                    assert(after =~= before.insert(pair));
                    assert(all_live(topology, changed@.take(i + 1))) by {
                        assert forall|k: int| 0 <= k < i + 1 implies topology.live(
                            #[trigger] changed@.take(i + 1)[k],
                        ) by {
                            if k < i {
                                assert(changed@.take(i + 1)[k] == changed@.take(i as int)[k]);
                            }
                        }
                    }
                }
            },
            None => {
                let mut message = "relationship slot ".to_owned();
                push_number(&mut message, changed[i].slot);
                message.append(" has no endpoints");
                return Err(message);
            },
        }
        i = i + 1;
    }
    proof {
        assert(changed@.take(i as int) =~= changed@);
        pair_order_is_order();
        ascending_of_items(pairs@, pair_order());
    }
    let ghost ops = bases_before(
        topology,
        stores,
        connection_type@,
        text_property@,
        changed@,
    );
    let ghost base = recorded(*graph);
    assert(recorded_with(base, ops.take(0))->0.ops =~= base->0.ops);
    let mut p: usize = 0;
    while p < pairs.len()
        invariant
            p <= pairs@.len(),
            *graph == (DirGraph { recording: graph.recording, ..*old(graph) }),
            graph.well_formed(),
            graph.recording is Some,
            topology == graph.topology,
            stores == graph.edge_embeddings@,
            all_live(topology, changed@),
            pairs@ == ascending(pairs_of(topology, changed@), pair_order()),
            pairs@.to_set() == pairs_of(topology, changed@),
            ops == bases_before(topology, stores, connection_type@, text_property@, changed@),
            base == recorded(*old(graph)),
            recorded(*graph) == recorded_with(base, ops.take(p as int)),
        decreases pairs@.len() - p,
    {
        let pair = pairs[p];
        proof {
            assert(pairs@.to_set().contains(pair));
            let k = choose|k: int|
                0 <= k < changed@.len() && pair_of(topology, #[trigger] changed@[k]) == pair;
            assert(topology.live(changed@[k]));
            assert(topology.edges@[changed@[k].slot as int] is Some);
        }
        let base_stores = columns_for_type(graph, connection_type);
        let prior_cells = prior_cells_of(graph, connection_type, text_property, changed, pair);
        match (
            graph.topology.node_view(NodeIndex { slot: pair.0 }),
            graph.topology.node_view(NodeIndex { slot: pair.1 }),
        ) {
            (Some(source), Some(target)) => {
                let touch = EdgeEmbeddingBaseTouch {
                    conn_type: connection_type.to_owned(),
                    src_type: source.node_type.clone(),
                    src_id: source.id.copy(),
                    tgt_type: target.node_type.clone(),
                    tgt_id: target.id.copy(),
                    base_stores,
                    prior_cells,
                };
                assert(touch@ =~= touch_of(
                    topology,
                    stores,
                    connection_type@,
                    text_property@,
                    changed@,
                    pair,
                ));
                graph.note_op(RawOp::EdgeEmbeddingBase(touch));
                assert(ops.take(p + 1) =~= ops.take(p as int).push(ops[p as int]));
                assert(recorded(*graph)->0.ops =~= base->0.ops + ops.take(p + 1));
            },
            _ => {
                assert(false);
            },
        }
        p = p + 1;
    }
    assert(ops.take(p as int) =~= ops);
    Ok(())
}

/// What a write to a relationship store records after it: that bases are
/// captured from now on, that the store was touched where it was, and every
/// touched relationship.
pub open spec fn changes_recorded(
    recording: Option<RecordingModel>,
    topology: Topology,
    connection_type: Text,
    text_property: Text,
    store_changed: bool,
    edges: Seq<EdgeIndex>,
) -> Option<RecordingModel> {
    match recording {
        Some(r) => Some(
            RecordingModel {
                base_capture: true,
                ops: r.ops + (if store_changed {
                    seq![
                        OpModel::EdgeEmbeddingStore {
                            conn_type: connection_type,
                            text_column: text_property,
                        },
                    ]
                } else {
                    Seq::empty()
                }) + Seq::new(edges.len(), |i: int| group_touch(topology, true, edges[i])),
            },
        ),
        None => None,
    }
}

/// Records a write to a relationship store.
pub fn note_wal_edge_embedding_changes(
    graph: &mut DirGraph,
    connection_type: &str,
    text_property: &str,
    store_changed: bool,
    edges: &Vec<EdgeIndex>,
)
    ensures
        *final(graph) == (DirGraph { recording: final(graph).recording, ..*old(graph) }),
        recorded(*final(graph)) == changes_recorded(
            recorded(*old(graph)),
            old(graph).topology,
            connection_type@,
            text_property@,
            store_changed,
            edges@,
        ),
{
    if !graph.records_payloads() {
        return ;
    }
    graph.set_edge_embedding_base_capture(true);
    if store_changed {
        graph.note_op(
            RawOp::EdgeEmbeddingStore {
                conn_type: connection_type.to_owned(),
                text_column: text_property.to_owned(),
            },
        );
    }
    let ghost base = recorded(*graph)->0;
    let ghost touches = Seq::new(
        edges@.len(),
        |i: int| group_touch(old(graph).topology, true, edges@[i]),
    );
    let mut i: usize = 0;
    assert(base.ops + touches.take(0) =~= base.ops);
    while i < edges.len()
        invariant
            i <= edges@.len(),
            *graph == (DirGraph { recording: graph.recording, ..*old(graph) }),
            touches == Seq::new(
                edges@.len(),
                |k: int| group_touch(old(graph).topology, true, edges@[k]),
            ),
            base.base_capture,
            recorded(*graph) == Some(
                RecordingModel { base_capture: true, ops: base.ops + touches.take(i as int) },
            ),
        decreases edges@.len() - i,
    {
        graph.note_wal_group(edges[i]);
        assert(touches.take(i + 1) =~= touches.take(i as int).push(touches[i as int]));
        assert(recorded(*graph)->0.ops =~= base.ops + touches.take(i + 1));
        i = i + 1;
    }
    assert(touches.take(i as int) =~= touches);
    proof {
        let r = recorded(*old(graph))->0;
        assert(r.ops + Seq::<OpModel>::empty() =~= r.ops);
    }
}

} // verus!
