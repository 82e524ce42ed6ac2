//! Which passes are refused, what the model is sent, and which answers are taken.

use crate::batch_laws::{a_vector_of_numbers_has_no_fault, all_numeric};
use crate::document_laws::{the_relationships_of_a_type_are_listed, typed_at};
use crate::embed::EmbedMode;
use crate::generation::{
    metric_written, model_fault, reply_checked, reply_fault, syntax_fault, text_of, texts_of_type,
    type_request, RequestModel,
};
use crate::generation_laws::listed_once;
use crate::generation_plan::{selection_fault, PendingModel};
use crate::graph::{members_or_none, DirGraph};
use crate::model_calls::{batch_called, batches_called, run_called, started, ModelCall};
use crate::node_embed::{
    kept_store, property_fault, read_field, reply_unusable, vectors_unusable,
};
use crate::node_ingest::{alias_of, source_fault};
use crate::plan_laws::{owned, reached};
use crate::store::StoreModel;
use crate::text::Text;
use crate::topology::{property_in, typed_edges, Topology};
use crate::value::{EdgeIndex, ValueModel};
use vstd::prelude::*;

verus! {

/// A relationship has a text in a column exactly where the property is a text that
/// is not empty, and it is the whole of it.
pub proof fn a_relationship_text_is_the_whole_property(
    topology: Topology,
    edge: EdgeIndex,
    column: Text,
)
    ensures
        ({
            let value = property_in(
                topology.edges@[edge.slot as int]->0.data.properties@,
                column,
            );
            &&& forall|text: Text|
                value == Some(ValueModel::String(text)) && text.len() > 0 ==> text_of(
                    topology,
                    edge,
                    column,
                ) == Some(text)
            &&& text_of(topology, edge, column) is Some ==> text_of(topology, edge, column)->0.len()
                > 0 && value == Some(ValueModel::String(text_of(topology, edge, column)->0))
        }),
{
}

/// A pass over a type selects every live relationship of the type once, by slot,
/// each with its text, and no other.
pub proof fn a_type_pass_selects_every_relationship(
    topology: Topology,
    relationship_type: Text,
    column: Text,
    slot: usize,
)
    requires
        topology.edges@.len() <= usize::MAX,
    ensures
        ({
            let selected = texts_of_type(topology, relationship_type, column);
            &&& listed_once(selected)
            &&& selected.contains((EdgeIndex { slot }, text_of(topology, EdgeIndex { slot }, column)))
                <==> typed_at(topology.edges@, slot as int, relationship_type)
            &&& forall|i: int|
                0 <= i < selected.len() ==> (#[trigger] selected[i]).1 == text_of(
                    topology,
                    selected[i].0,
                    column,
                )
            &&& forall|i: int, j: int|
                0 <= i < j < selected.len() ==> (#[trigger] selected[i]).0.slot < (
                #[trigger] selected[j]).0.slot
        }),
{
    let edges = typed_edges(topology.edges@, relationship_type);
    let selected = texts_of_type(topology, relationship_type, column);
    the_relationships_of_a_type_are_listed(topology.edges@, relationship_type);
    let item = (EdgeIndex { slot }, text_of(topology, EdgeIndex { slot }, column));
    if typed_at(topology.edges@, slot as int, relationship_type) {
        let i = edges.index_of(EdgeIndex { slot });
        assert(selected[i] == item);
    }
    if selected.contains(item) {
        let i = selected.index_of(item);
        assert(edges[i] == EdgeIndex { slot });
    }
    assert forall|i: int, j: int| 0 <= i < j < selected.len() implies (
    #[trigger] selected[i]).0.slot < (#[trigger] selected[j]).0.slot by {
        assert(edges[i].slot < edges[j].slot);
    }
}

/// A pass over a type is in the mode and under the metric that is asked for, over
/// the type and the column, and sends at least one text at once.
pub proof fn a_type_pass_is_as_asked(
    topology: Topology,
    relationship_type: Text,
    text_column: Text,
    mode: EmbedMode,
    batch_size: usize,
    metric: Option<Text>,
)
    ensures
        ({
            let request = type_request(
                topology,
                relationship_type,
                text_column,
                mode,
                batch_size,
                metric,
            );
            &&& request.connection_type == relationship_type
            &&& request.text_property == text_column
            &&& request.mode == mode
            &&& request.metric == metric
            &&& request.batch_size >= 1
            &&& batch_size >= 1 ==> request.batch_size == batch_size
        }),
{
}

/// A request is well put exactly where the type and the property have names, at
/// least one text goes at once, and the metric is one of the four.
pub proof fn a_request_is_well_put(request: RequestModel)
    ensures
        syntax_fault(request) is None <==> {
            &&& request.connection_type != Seq::<char>::empty()
            &&& request.text_property != Seq::<char>::empty()
            &&& request.batch_size > 0
            &&& request.metric is None || request.metric == Some("cosine"@) || request.metric
                == Some("dot_product"@) || request.metric == Some("euclidean"@) || request.metric
                == Some("poincare"@)
        },
{
    assert(request.connection_type.len() == 0 <==> request.connection_type =~= Seq::empty());
    assert(request.text_property.len() == 0 <==> request.text_property =~= Seq::empty());
}

/// A selection is taken exactly where it lists live relationships of the type, each
/// once.
pub proof fn a_selection_is_taken_where_it_fits(
    topology: Topology,
    connection_type: Text,
    selected: Seq<(EdgeIndex, Option<Text>)>,
)
    ensures
        selection_fault(topology, connection_type, selected, 0) is None <==> {
            &&& forall|i: int, j: int|
                0 <= i < j < selected.len() ==> (#[trigger] selected[i]).0.slot != (
                #[trigger] selected[j]).0.slot
            &&& forall|i: int|
                0 <= i < selected.len() ==> typed_at(
                    topology.edges@,
                    (#[trigger] selected[i]).0.slot as int,
                    connection_type,
                )
        },
{
    if selection_fault(topology, connection_type, selected, 0) is None {
        crate::plan_laws::a_faultless_selection_is_of_the_type(
            topology,
            connection_type,
            selected,
        );
        assert forall|i: int, j: int| 0 <= i < j < selected.len() implies (
        #[trigger] selected[i]).0.slot != (#[trigger] selected[j]).0.slot by {
            assert(selected[i].0 != selected[j].0);
        }
        assert forall|i: int| 0 <= i < selected.len() implies typed_at(
            topology.edges@,
            (#[trigger] selected[i]).0.slot as int,
            connection_type,
        ) by {
            assert(topology.live(selected[i].0));
        }
    }
    if (forall|i: int, j: int|
        0 <= i < j < selected.len() ==> (#[trigger] selected[i]).0.slot != (
        #[trigger] selected[j]).0.slot) && (forall|i: int|
        0 <= i < selected.len() ==> typed_at(
            topology.edges@,
            (#[trigger] selected[i]).0.slot as int,
            connection_type,
        )) {
        a_fit_selection_has_no_fault(topology, connection_type, selected, 0);
    }
}

proof fn a_fit_selection_has_no_fault(
    topology: Topology,
    connection_type: Text,
    selected: Seq<(EdgeIndex, Option<Text>)>,
    position: int,
)
    requires
        0 <= position <= selected.len(),
        forall|i: int, j: int|
            0 <= i < j < selected.len() ==> (#[trigger] selected[i]).0.slot != (
            #[trigger] selected[j]).0.slot,
        forall|i: int|
            0 <= i < selected.len() ==> typed_at(
                topology.edges@,
                (#[trigger] selected[i]).0.slot as int,
                connection_type,
            ),
    ensures
        selection_fault(topology, connection_type, selected, position) is None,
    decreases selected.len() - position,
{
    if position < selected.len() {
        a_fit_selection_has_no_fault(topology, connection_type, selected, position + 1);
        assert(typed_at(topology.edges@, selected[position].0.slot as int, connection_type));
    }
}

/// The metric of a pass: a new store takes what is asked for; an old one keeps its
/// own where none is asked for, and another than its own is refused unless the pass
/// is over all.
pub proof fn a_pass_keeps_to_one_metric(
    existing: Option<StoreModel>,
    requested: Option<Text>,
    mode: EmbedMode,
)
    ensures
        ({
            let metric = metric_written(existing, requested, mode);
            let own = if existing is Some && existing->0.metric is Some {
                existing->0.metric->0
            } else {
                "cosine"@
            };
            &&& metric is Err <==> existing is Some && requested is Some && !(mode is All)
                && requested->0 != own
            &&& metric is Ok && requested is Some ==> metric->Ok_0 == requested
            &&& requested is None && existing is Some ==> metric->Ok_0 == existing->0.metric
            &&& requested is None && existing is None ==> metric->Ok_0 is None
        }),
{
}

/// A model is taken exactly where it declares a dimension, a store that names its
/// model is written by that one unless the pass is over all, and a store of another
/// dimension is rebuilt whole.
pub proof fn a_model_is_taken_where_it_fits(
    existing: Option<StoreModel>,
    request: RequestModel,
    model_id: Option<Text>,
    dimension: usize,
)
    ensures
        model_fault(existing, request, model_id, dimension) is None <==> {
            &&& dimension > 0
            &&& request.mode is All || existing is None || existing->0.model_id is None || model_id
                == existing->0.model_id
            &&& existing is None || existing->0.dimension == dimension || (request.mode is All
                && forall|slot: usize|
                owned(existing, slot) ==> #[trigger] reached(request.selected, slot))
        },
{
    let edges = crate::generation::selected_edges(request.selected);
    if existing is Some {
        let store = existing->0;
        if !crate::generation::unselected_remain(existing, request.selected) {
            assert forall|slot: usize| owned(existing, slot) implies #[trigger] reached(
                request.selected,
                slot,
            ) by {
                let p = store.nodes.index_of(slot);
                assert(store.nodes[p] == slot);
                let i = choose|i: int| 0 <= i < edges.len() && (#[trigger] edges[i]).slot == slot;
                assert(request.selected[i].0.slot == slot);
            }
        }
        if forall|slot: usize|
            owned(existing, slot) ==> #[trigger] reached(request.selected, slot) {
            assert forall|p: int| 0 <= p < store.nodes.len() implies
                crate::edge_replace::edge_slots(edges, edges.len() as int).contains(
                #[trigger] store.nodes[p],
            ) by {
                let slot = store.nodes[p];
                assert(owned(existing, slot));
                assert(reached(request.selected, slot));
                let i = choose|i: int|
                    0 <= i < request.selected.len() && (#[trigger] request.selected[i]).0.slot
                        == slot;
                assert(edges[i].slot == slot);
            }
        }
    }
}

proof fn a_reply_fits_from(
    topology: Topology,
    pending: Seq<PendingModel>,
    from: int,
    dimension: usize,
    vectors: Seq<Seq<u32>>,
    position: int,
)
    requires
        0 <= position <= vectors.len(),
    ensures
        reply_fault(topology, pending, from, dimension, vectors, position) is None <==> forall|
            i: int,
        |
            position <= i < vectors.len() ==> (#[trigger] vectors[i]).len() == dimension
                && all_numeric(vectors[i]),
    decreases vectors.len() - position,
{
    if position < vectors.len() {
        a_reply_fits_from(topology, pending, from, dimension, vectors, position + 1);
        if vectors[position].len() == dimension {
            a_vector_of_numbers_has_no_fault(vectors[position]);
        }
    }
}

/// An answer to texts is taken exactly where it has a vector for each text, and
/// each is of numbers and of the dimension. Each vector then goes to the
/// relationship of its text, in order, with the hash of that text.
pub proof fn an_answer_is_taken_where_it_fits(
    topology: Topology,
    pending: Seq<PendingModel>,
    from: int,
    count: nat,
    dimension: usize,
    vectors: Seq<Seq<u32>>,
)
    ensures
        ({
            let taken = reply_checked(topology, pending, from, count, dimension, vectors);
            &&& taken is Ok <==> {
                &&& vectors.len() == count
                &&& forall|i: int|
                    0 <= i < vectors.len() ==> (#[trigger] vectors[i]).len() == dimension
                        && all_numeric(vectors[i])
            }
            &&& taken is Ok ==> taken->Ok_0.len() == count && forall|i: int|
                0 <= i < count ==> #[trigger] taken->Ok_0[i] == (
                    pending[from + i].edge,
                    vectors[i],
                    pending[from + i].text_hash,
                )
        }),
{
    a_reply_fits_from(topology, pending, from, dimension, vectors, 0);
}

proof fn vectors_fit_from(dimension: usize, vectors: Seq<Seq<u32>>, position: int)
    requires
        0 <= position <= vectors.len(),
    ensures
        vectors_unusable(dimension, vectors, position) is None <==> forall|i: int|
            position <= i < vectors.len() ==> (#[trigger] vectors[i]).len() == dimension
                && all_numeric(vectors[i]),
    decreases vectors.len() - position,
{
    if position < vectors.len() {
        vectors_fit_from(dimension, vectors, position + 1);
        if vectors[position].len() == dimension {
            a_vector_of_numbers_has_no_fault(vectors[position]);
        }
    }
}

/// An answer to the texts of nodes is taken exactly where it has a vector for each
/// text, and each is of numbers and of the dimension.
pub proof fn a_node_answer_is_taken_where_it_fits(
    count: nat,
    dimension: usize,
    vectors: Seq<Seq<u32>>,
)
    ensures
        reply_unusable(count, dimension, vectors) is None <==> {
            &&& vectors.len() == count
            &&& forall|i: int|
                0 <= i < vectors.len() ==> (#[trigger] vectors[i]).len() == dimension
                    && all_numeric(vectors[i])
        },
{
    vectors_fit_from(dimension, vectors, 0);
}

/// A pass over nodes is refused before the model is loaded exactly where the type
/// has members and the column cannot be read on them, or the store that is kept
/// was made by another model. A pass over all keeps no store.
pub proof fn a_node_pass_is_refused_where_it_cannot_be(
    graph: DirGraph,
    node_type: Text,
    text_column: Text,
    mode: EmbedMode,
    model_id: Option<Text>,
)
    ensures
        property_fault(graph, node_type, text_column, mode, model_id) is None <==> {
            let existing = crate::catalog::lookup(
                graph.embeddings@,
                node_type,
                crate::names::store_name_of(text_column),
            );
            let members = members_or_none(graph.node_types@, node_type);
            &&& members.len() == 0 || source_fault(graph, node_type, text_column) is None
            &&& mode is All || existing is None || existing->0.model_id is None || model_id
                == existing->0.model_id
        },
        members_or_none(graph.node_types@, node_type).len() > 0 ==> read_field(
            graph,
            node_type,
            text_column,
        ) == alias_of(graph, node_type, text_column),
        members_or_none(graph.node_types@, node_type).len() == 0 ==> read_field(
            graph,
            node_type,
            text_column,
        ) == text_column,
        kept_store(graph, node_type, text_column, EmbedMode::All) is None,
{
}

/// The texts that calls send, one batch after the other.
pub open spec fn texts_in_calls(calls: Seq<ModelCall>) -> Seq<Text>
    decreases calls.len(),
{
    if calls.len() == 0 {
        Seq::empty()
    } else {
        texts_in_calls(calls.drop_last()) + match calls.last() {
            ModelCall::Sent { batch } => batch,
            _ => Seq::empty(),
        }
    }
}

/// No batch is empty or larger than what goes at once.
pub open spec fn batches_sized(calls: Seq<ModelCall>, batch_size: usize) -> bool {
    forall|i: int|
        0 <= i < calls.len() ==> match #[trigger] calls[i] {
            ModelCall::Sent { batch } => 0 < batch.len() <= batch_size,
            _ => true,
        }
}

proof fn one_more_call(calls: Seq<ModelCall>, call: ModelCall)
    ensures
        texts_in_calls(calls.push(call)) == texts_in_calls(calls) + match call {
            ModelCall::Sent { batch } => batch,
            _ => Seq::empty(),
        },
{
    assert(calls.push(call).drop_last() =~= calls);
}

proof fn batches_send_what_came(
    sent: Seq<Text>,
    hooked: bool,
    batch_size: usize,
    to: int,
    calls: Seq<ModelCall>,
)
    requires
        batch_size > 0,
        to <= sent.len(),
        batches_called(sent, hooked, batch_size, to, calls),
    ensures
        to >= 0 ==> texts_in_calls(calls) == sent.take(to),
        batches_sized(calls, batch_size),
    decreases to,
{
    if to > 0 {
        let (from, before) = choose|from: int, before: Seq<ModelCall>|
            0 <= from < to && to == crate::model_calls::batch_end(
                sent.len() as int,
                batch_size,
                from,
            ) && batches_called(sent, hooked, batch_size, from, before) && #[trigger] batch_called(
                sent,
                hooked,
                from,
                before,
                to,
                calls,
            );
        batches_send_what_came(sent, hooked, batch_size, from, before);
        let batch = sent.subrange(from, to);
        let pushed = before.push(ModelCall::Sent { batch });
        one_more_call(before, ModelCall::Sent { batch });
        assert(sent.take(from) + batch =~= sent.take(to));
        if hooked {
            let done = ModelCall::Finished { texts: (to - from) as nat };
            assert(calls =~= pushed.push(done));
            one_more_call(pushed, done);
            assert(sent.take(to) + Seq::<Text>::empty() =~= sent.take(to));
        } else {
            assert(calls =~= pushed);
        }
        assert forall|i: int| 0 <= i < calls.len() implies match #[trigger] calls[i] {
            ModelCall::Sent { batch } => 0 < batch.len() <= batch_size,
            _ => true,
        } by {
            if i < before.len() {
                assert(calls[i] == before[i]);
            } else if i == before.len() {
                assert(calls[i] == (ModelCall::Sent { batch }));
            }
        }
    } else if to == 0 {
        assert(sent.take(0) =~= Seq::empty());
    }
}

/// A run sends every text once, in order, in batches that are neither empty nor
/// larger than what goes at once.
pub proof fn a_run_sends_every_text_in_order(
    sent: Seq<Text>,
    hooked: bool,
    batch_size: usize,
    calls: Seq<ModelCall>,
)
    requires
        batch_size > 0,
        run_called(sent, hooked, batch_size, calls),
    ensures
        texts_in_calls(calls) == sent,
        batches_sized(calls, batch_size),
        hooked ==> calls.len() > 0 && calls[0] == (ModelCall::Started { texts: sent.len() }),
{
    let head = started(hooked, sent.len());
    let rest = calls.skip(head.len() as int);
    batches_send_what_came(sent, hooked, batch_size, sent.len() as int, rest);
    assert(sent.take(sent.len() as int) =~= sent);
    if hooked {
        first_call_is_silent(head[0], rest);
        assert(calls =~= seq![head[0]] + rest);
    } else {
        assert(calls =~= rest);
    }
    assert forall|i: int| 0 <= i < calls.len() implies match #[trigger] calls[i] {
        ModelCall::Sent { batch } => 0 < batch.len() <= batch_size,
        _ => true,
    } by {
        if i >= head.len() {
            assert(calls[i] == rest[i - head.len()]);
        }
    }
}

proof fn first_call_is_silent(first: ModelCall, rest: Seq<ModelCall>)
    requires
        !(first is Sent),
    ensures
        texts_in_calls(seq![first] + rest) == texts_in_calls(rest),
    decreases rest.len(),
{
    let all = seq![first] + rest;
    if rest.len() == 0 {
        assert(all.drop_last() =~= Seq::empty());
        assert(all.last() == first);
        assert(texts_in_calls(all.drop_last()) + Seq::<Text>::empty() =~= Seq::empty());
    } else {
        first_call_is_silent(first, rest.drop_last());
        assert(all.drop_last() =~= seq![first] + rest.drop_last());
        assert(all.last() == rest.last());
    }
}

} // verus!
