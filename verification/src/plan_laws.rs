//! What a pass over relationships sends to the model, and what it leaves.

use crate::catalog::{a_kept_store_is_found, lookup};
use crate::edge_generated::{
    cells_changed, dimension_changes, faultless_write_is_sound, generated_edges,
    generated_successor, install_done, install_fault, vector_differs, vectors_differing,
    vectors_held, WriteModel,
};
use crate::edge_writes::EdgeEmbeddingWriteReport;
use crate::embed::{EmbedCalls, EmbedHooks, EmbedMode, Embedder, Interrupt};
use crate::generation::{
    made_for, pass_done, pass_outcome, pass_taken, selected_edges, unselected_remain, write_of,
    ReportModel, RequestModel,
};
use crate::generation_laws::listed_once;
use crate::generation_plan::{plan_of, selection_fault, PendingModel};
use crate::graph::DirGraph;
use crate::model_calls::ModelCall;
use crate::names::store_name_of;
use crate::store::{coherent, hash_of, vector_of, StoreModel};
use crate::text::Text;
use crate::text_hash::hash_of_text;
use crate::topology::Topology;
use crate::value::EdgeIndex;
use crate::write_laws::a_generated_vector_reads_back;
use vstd::prelude::*;

verus! {

/// A store has a vector for a slot.
pub open spec fn owned(existing: Option<StoreModel>, slot: usize) -> bool {
    existing is Some && existing->0.nodes.contains(slot)
}

/// A store has a vector for a slot that was made from just this text.
pub open spec fn owned_for(existing: Option<StoreModel>, slot: usize, text: Text) -> bool {
    &&& existing is Some
    &&& existing->0.nodes.contains(slot)
    &&& existing->0.hashes.contains_key(slot)
    &&& existing->0.hashes[slot] == hash_of_text(text)
}

/// A selected relationship that has something to embed.
pub open spec fn with_text(item: (EdgeIndex, Option<Text>)) -> bool {
    item.1 is Some && item.1->0 != Seq::<char>::empty()
}

/// A text as it goes to the model.
pub open spec fn sent(item: (EdgeIndex, Option<Text>)) -> PendingModel {
    PendingModel { edge: item.0, text: item.1->0, text_hash: hash_of_text(item.1->0) }
}

/// What a pass in a mode sends, in the order of the selection.
pub open spec fn sent_in(
    existing: Option<StoreModel>,
    selected: Seq<(EdgeIndex, Option<Text>)>,
    mode: EmbedMode,
) -> Seq<PendingModel> {
    match mode {
        EmbedMode::All => selected.filter_map(
            |item: (EdgeIndex, Option<Text>)|
                if with_text(item) {
                    Some(sent(item))
                } else {
                    None
                },
        ),
        EmbedMode::Missing => selected.filter_map(
            |item: (EdgeIndex, Option<Text>)|
                if with_text(item) && !owned(existing, item.0.slot) {
                    Some(sent(item))
                } else {
                    None
                },
        ),
        EmbedMode::Changed => selected.filter_map(
            |item: (EdgeIndex, Option<Text>)|
                if with_text(item) && !owned_for(existing, item.0.slot, item.1->0) {
                    Some(sent(item))
                } else {
                    None
                },
        ),
    }
}

/// What a pass in a mode takes away, in the order of the selection: only a pass
/// over all takes anything, and that is the vectors of those without a text.
pub open spec fn dropped_in(
    existing: Option<StoreModel>,
    selected: Seq<(EdgeIndex, Option<Text>)>,
    mode: EmbedMode,
) -> Seq<EdgeIndex> {
    if mode is All {
        selected.filter_map(
            |item: (EdgeIndex, Option<Text>)|
                if !with_text(item) && owned(existing, item.0.slot) {
                    Some(item.0)
                } else {
                    None
                },
        )
    } else {
        Seq::empty()
    }
}

/// How many of a selection have no text.
pub open spec fn textless_count(selected: Seq<(EdgeIndex, Option<Text>)>) -> nat {
    selected.filter_map(
        |item: (EdgeIndex, Option<Text>)|
            if with_text(item) {
                None
            } else {
                Some(item.0)
            },
    ).len()
}

/// A plan sends and takes away just what its mode says, counts those without a
/// text as skipped, and the rest as kept. What is made anew because its text
/// changed is counted in that mode only.
pub proof fn a_plan_follows_its_mode(
    existing: Option<StoreModel>,
    selected: Seq<(EdgeIndex, Option<Text>)>,
    mode: EmbedMode,
)
    ensures
        ({
            let plan = plan_of(existing, selected, mode, selected.len());
            &&& plan.pending == sent_in(existing, selected, mode)
            &&& plan.removed == dropped_in(existing, selected, mode)
            &&& plan.skipped == textless_count(selected)
            &&& plan.skipped_existing == selected.len() - textless_count(selected)
                - plan.pending.len()
            &&& plan.reembedded == if mode is Changed {
                plan.pending.filter_map(
                    |p: PendingModel|
                        if owned(existing, p.edge.slot) {
                            Some(p.edge)
                        } else {
                            None
                        },
                ).len()
            } else {
                0
            }
        }),
    decreases selected.len(),
{
    if selected.len() > 0 {
        let rest = selected.drop_last();
        a_plan_follows_its_mode(existing, rest, mode);
        shorter_plans_agree(existing, selected, mode, rest.len());
        let item = selected.last();
        assert(item == selected[selected.len() - 1]);
        assert(item.1 is Some ==> (item.1->0.len() == 0 <==> item.1->0 =~= Seq::<char>::empty()));
        let plan = plan_of(existing, selected, mode, selected.len());
        let less = plan_of(existing, rest, mode, rest.len());
        if plan.pending.len() > less.pending.len() {
            assert(plan.pending.drop_last() =~= less.pending);
        } else {
            assert(plan.pending =~= less.pending);
        }
    }
}

proof fn shorter_plans_agree(
    existing: Option<StoreModel>,
    selected: Seq<(EdgeIndex, Option<Text>)>,
    mode: EmbedMode,
    count: nat,
)
    requires
        count < selected.len(),
    ensures
        plan_of(existing, selected, mode, count) == plan_of(
            existing,
            selected.drop_last(),
            mode,
            count,
        ),
    decreases count,
{
    if count > 0 {
        shorter_plans_agree(existing, selected, mode, (count - 1) as nat);
    }
}

proof fn nothing_sent_is_foreign<B>(
    selected: Seq<(EdgeIndex, Option<Text>)>,
    f: spec_fn((EdgeIndex, Option<Text>)) -> Option<B>,
    k: int,
) -> (at: int)
    requires
        0 <= k < selected.filter_map(f).len(),
    ensures
        0 <= at < selected.len(),
        f(selected[at]) == Some(selected.filter_map(f)[k]),
    decreases selected.len(),
{
    let rest = selected.drop_last();
    if k < rest.filter_map(f).len() {
        nothing_sent_is_foreign(rest, f, k)
    } else {
        selected.len() - 1
    }
}

proof fn nothing_due_is_left<B>(
    selected: Seq<(EdgeIndex, Option<Text>)>,
    f: spec_fn((EdgeIndex, Option<Text>)) -> Option<B>,
    at: int,
)
    requires
        0 <= at < selected.len(),
        f(selected[at]) is Some,
    ensures
        selected.filter_map(f).contains(f(selected[at])->0),
    decreases selected.len(),
{
    let rest = selected.drop_last();
    if at < rest.len() {
        nothing_due_is_left(rest, f, at);
        let k = rest.filter_map(f).index_of(f(selected[at])->0);
        assert(selected.filter_map(f)[k] == rest.filter_map(f)[k]);
    } else {
        let all = selected.filter_map(f);
        assert(all[all.len() - 1] == f(selected[at])->0);
    }
}

/// A pass for what is missing touches no relationship that has a vector,
/// whatever its text and whatever the vector was made from; it takes nothing
/// away, and it sends the text of every other one that has a text.
pub proof fn a_missing_plan_leaves_every_vector_alone(
    existing: Option<StoreModel>,
    selected: Seq<(EdgeIndex, Option<Text>)>,
)
    ensures
        ({
            let plan = plan_of(existing, selected, EmbedMode::Missing, selected.len());
            &&& plan.removed.len() == 0
            &&& forall|k: int|
                0 <= k < plan.pending.len() ==> !owned(
                    existing,
                    (#[trigger] plan.pending[k]).edge.slot,
                )
            &&& forall|k: int|
                0 <= k < plan.affected.len() ==> !owned(
                    existing,
                    (#[trigger] plan.affected[k]).slot,
                )
            &&& forall|i: int|
                0 <= i < selected.len() && with_text(#[trigger] selected[i]) && !owned(
                    existing,
                    selected[i].0.slot,
                ) ==> plan.pending.contains(sent(selected[i]))
        }),
{
    let mode = EmbedMode::Missing;
    let plan = plan_of(existing, selected, mode, selected.len());
    a_plan_follows_its_mode(existing, selected, mode);
    what_is_affected(existing, selected, mode);
    let f = |item: (EdgeIndex, Option<Text>)|
        if with_text(item) && !owned(existing, item.0.slot) {
            Some(sent(item))
        } else {
            None
        };
    assert(plan.pending == selected.filter_map(f));
    assert forall|k: int| 0 <= k < plan.pending.len() implies !owned(
        existing,
        (#[trigger] plan.pending[k]).edge.slot,
    ) by {
        let at = nothing_sent_is_foreign(selected, f, k);
    }
    assert forall|k: int| 0 <= k < plan.affected.len() implies !owned(
        existing,
        (#[trigger] plan.affected[k]).slot,
    ) by {
        assert(plan.affected.contains(plan.affected[k]));
    }
    assert forall|i: int|
        0 <= i < selected.len() && with_text(#[trigger] selected[i]) && !owned(
            existing,
            selected[i].0.slot,
        ) implies plan.pending.contains(sent(selected[i])) by {
        nothing_due_is_left(selected, f, i);
    }
}

/// A pass for what changed sends the text of every relationship whose vector was
/// not made from that very text, and no other; it takes nothing away.
pub proof fn a_changed_plan_sends_what_differs(
    existing: Option<StoreModel>,
    selected: Seq<(EdgeIndex, Option<Text>)>,
)
    ensures
        ({
            let plan = plan_of(existing, selected, EmbedMode::Changed, selected.len());
            &&& plan.removed.len() == 0
            &&& forall|k: int|
                0 <= k < plan.pending.len() ==> !owned_for(
                    existing,
                    (#[trigger] plan.pending[k]).edge.slot,
                    plan.pending[k].text,
                )
            &&& forall|i: int|
                0 <= i < selected.len() && with_text(#[trigger] selected[i]) && !owned_for(
                    existing,
                    selected[i].0.slot,
                    selected[i].1->0,
                ) ==> plan.pending.contains(sent(selected[i]))
        }),
{
    let mode = EmbedMode::Changed;
    let plan = plan_of(existing, selected, mode, selected.len());
    a_plan_follows_its_mode(existing, selected, mode);
    let f = |item: (EdgeIndex, Option<Text>)|
        if with_text(item) && !owned_for(existing, item.0.slot, item.1->0) {
            Some(sent(item))
        } else {
            None
        };
    assert(plan.pending == selected.filter_map(f));
    assert forall|k: int| 0 <= k < plan.pending.len() implies !owned_for(
        existing,
        (#[trigger] plan.pending[k]).edge.slot,
        plan.pending[k].text,
    ) by {
        let at = nothing_sent_is_foreign(selected, f, k);
    }
    assert forall|i: int|
        0 <= i < selected.len() && with_text(#[trigger] selected[i]) && !owned_for(
            existing,
            selected[i].0.slot,
            selected[i].1->0,
        ) implies plan.pending.contains(sent(selected[i])) by {
        nothing_due_is_left(selected, f, i);
    }
}

/// A pass over all sends every text, and takes away the vectors of those that
/// have none.
pub proof fn a_full_plan_sends_every_text(
    existing: Option<StoreModel>,
    selected: Seq<(EdgeIndex, Option<Text>)>,
)
    ensures
        ({
            let plan = plan_of(existing, selected, EmbedMode::All, selected.len());
            &&& plan.skipped_existing == 0
            &&& plan.reembedded == 0
            &&& forall|i: int|
                0 <= i < selected.len() && with_text(#[trigger] selected[i])
                    ==> plan.pending.contains(sent(selected[i]))
            &&& forall|i: int|
                0 <= i < selected.len() && !with_text(#[trigger] selected[i]) && owned(
                    existing,
                    selected[i].0.slot,
                ) ==> plan.removed.contains(selected[i].0)
        }),
{
    let mode = EmbedMode::All;
    let plan = plan_of(existing, selected, mode, selected.len());
    a_plan_follows_its_mode(existing, selected, mode);
    every_text_or_none(selected);
    let f = |item: (EdgeIndex, Option<Text>)|
        if with_text(item) {
            Some(sent(item))
        } else {
            None
        };
    let g = |item: (EdgeIndex, Option<Text>)|
        if !with_text(item) && owned(existing, item.0.slot) {
            Some(item.0)
        } else {
            None
        };
    assert(plan.pending == selected.filter_map(f));
    assert(plan.removed == selected.filter_map(g));
    assert forall|i: int|
        0 <= i < selected.len() && with_text(#[trigger] selected[i]) implies plan.pending.contains(
        sent(selected[i]),
    ) by {
        nothing_due_is_left(selected, f, i);
    }
    assert forall|i: int|
        0 <= i < selected.len() && !with_text(#[trigger] selected[i]) && owned(
            existing,
            selected[i].0.slot,
        ) implies plan.removed.contains(selected[i].0) by {
        nothing_due_is_left(selected, g, i);
    }
}

proof fn every_text_or_none(selected: Seq<(EdgeIndex, Option<Text>)>)
    ensures
        sent_in(None, selected, EmbedMode::All).len() + textless_count(selected) == selected.len(),
    decreases selected.len(),
{
    if selected.len() > 0 {
        every_text_or_none(selected.drop_last());
    }
}

/// What a plan touches is what it sends and what it takes away.
proof fn what_is_affected(
    existing: Option<StoreModel>,
    selected: Seq<(EdgeIndex, Option<Text>)>,
    mode: EmbedMode,
)
    ensures
        ({
            let plan = plan_of(existing, selected, mode, selected.len());
            forall|edge: EdgeIndex| #[trigger]
                plan.affected.contains(edge) ==> plan.removed.contains(edge) || exists|k: int|
                    0 <= k < plan.pending.len() && (#[trigger] plan.pending[k]).edge == edge
        }),
{
    what_is_affected_upto(existing, selected, mode, selected.len());
}

proof fn what_is_affected_upto(
    existing: Option<StoreModel>,
    selected: Seq<(EdgeIndex, Option<Text>)>,
    mode: EmbedMode,
    count: nat,
)
    requires
        count <= selected.len(),
    ensures
        ({
            let plan = plan_of(existing, selected, mode, count);
            forall|edge: EdgeIndex| #[trigger]
                plan.affected.contains(edge) ==> plan.removed.contains(edge) || exists|k: int|
                    0 <= k < plan.pending.len() && (#[trigger] plan.pending[k]).edge == edge
        }),
    decreases count,
{
    if count > 0 {
        what_is_affected_upto(existing, selected, mode, (count - 1) as nat);
        let less = plan_of(existing, selected, mode, (count - 1) as nat);
        let plan = plan_of(existing, selected, mode, count);
        assert forall|edge: EdgeIndex| #[trigger] plan.affected.contains(edge) implies {
            plan.removed.contains(edge) || exists|k: int|
                0 <= k < plan.pending.len() && (#[trigger] plan.pending[k]).edge == edge
        } by {
            let item = selected[count - 1];
            if less.affected.contains(edge) {
                if less.removed.contains(edge) {
                    let j = less.removed.index_of(edge);
                    assert(plan.removed[j] == edge);
                } else {
                    let k = choose|k: int|
                        0 <= k < less.pending.len() && (#[trigger] less.pending[k]).edge == edge;
                    assert(plan.pending[k].edge == edge);
                }
            } else {
                let j = plan.affected.index_of(edge);
                assert(j >= less.affected.len()) by {
                    if j < less.affected.len() {
                        assert(less.affected[j] == edge);
                    }
                }
                assert(edge == item.0);
                if plan.removed.len() > less.removed.len() {
                    assert(plan.removed[less.removed.len() as int] == edge);
                } else {
                    assert(plan.pending[less.pending.len() as int].edge == edge);
                }
            }
        }
    }
}

/// Two vectors are the same numbers: equal bits throughout, but for the sign of
/// a zero.
pub open spec fn same_numbers(a: Seq<u32>, b: Seq<u32>) -> bool {
    &&& a.len() == b.len()
    &&& forall|i: int|
        0 <= i < a.len() ==> #[trigger] a[i] == b[i] || (a[i] % 0x8000_0000 == 0 && b[i]
            % 0x8000_0000 == 0)
}

proof fn nothing_differs(
    existing: Option<StoreModel>,
    generated: Seq<(EdgeIndex, Seq<u32>, u64)>,
    count: nat,
)
    requires
        count <= generated.len(),
        vectors_differing(existing, generated, count) == 0,
    ensures
        forall|i: int|
            0 <= i < count ==> !vector_differs(
                existing,
                (#[trigger] generated[i]).0,
                generated[i].1,
                generated[i].2,
            ),
    decreases count,
{
    if count > 0 {
        nothing_differs(existing, generated, (count - 1) as nat);
    }
}

proof fn nothing_is_held(existing: Option<StoreModel>, edges: Seq<EdgeIndex>, count: nat)
    requires
        count <= edges.len(),
        vectors_held(existing, edges, count) == 0,
    ensures
        forall|i: int| 0 <= i < count ==> !owned(existing, (#[trigger] edges[i]).slot),
    decreases count,
{
    if count > 0 {
        nothing_is_held(existing, edges, (count - 1) as nat);
    }
}

/// After vectors that a model made are written, the store has each of them and
/// the hash of the text it was made from, none of those taken away, and every
/// other as it was where the dimension stays. It declares what was written, and
/// no other store changes.
pub proof fn what_was_made_is_stored(
    before: DirGraph,
    after: DirGraph,
    connection_type: Text,
    text_property: Text,
    write: WriteModel,
    report: EdgeEmbeddingWriteReport,
)
    requires
        ({
            let name = store_name_of(text_property);
            let existing = lookup(before.edge_embeddings@, connection_type, name);
            &&& existing is Some ==> coherent(existing->0)
            &&& install_fault(before.topology, connection_type, existing, write) is None
            &&& install_done(before, after, connection_type, text_property, write, report)
        }),
    ensures
        ({
            let name = store_name_of(text_property);
            let existing = lookup(before.edge_embeddings@, connection_type, name);
            let stored = lookup(after.edge_embeddings@, connection_type, name);
            &&& stored is Some
            &&& stored->0.dimension == write.dimension
            &&& stored->0.metric == write.metric
            &&& stored->0.model_id == write.model_id
            &&& forall|i: int|
                0 <= i < write.generated.len() ==> {
                    let read = vector_of(stored->0, (#[trigger] write.generated[i]).0.slot);
                    &&& read is Some && same_numbers(read->0, write.generated[i].1)
                    &&& hash_of(stored->0, write.generated[i].0.slot) == Some(write.generated[i].2)
                }
            &&& forall|i: int|
                0 <= i < write.removed.len() ==> !stored->0.nodes.contains(
                    (#[trigger] write.removed[i]).slot,
                )
            &&& forall|slot: usize|
                existing is Some && existing->0.dimension == write.dimension
                    && existing->0.nodes.contains(slot) && !generated_edges(
                    write.generated,
                ).contains(EdgeIndex { slot }) && !write.removed.contains(EdgeIndex { slot })
                    ==> #[trigger] vector_of(stored->0, slot) == vector_of(existing->0, slot)
                    && hash_of(stored->0, slot) == hash_of(existing->0, slot)
            &&& forall|t: Text, n: Text|
                !(t == connection_type && n == name) ==> #[trigger] lookup(
                    after.edge_embeddings@,
                    t,
                    n,
                ) == lookup(before.edge_embeddings@, t, n)
            &&& after.topology == before.topology
            &&& after.embeddings@ == before.embeddings@
            &&& report.stored == stored->0.nodes.len() as usize
            &&& report.dimension == write.dimension
            &&& report.store_created == (existing is None)
        }),
{
    let name = store_name_of(text_property);
    let existing = lookup(before.edge_embeddings@, connection_type, name);
    let stored = lookup(after.edge_embeddings@, connection_type, name);
    faultless_write_is_sound(before.topology, connection_type, write);
    a_generated_vector_reads_back(before.topology, connection_type, existing, write);
    what_is_declared(existing, write);
    if after.edge_embeddings@ == before.edge_embeddings@ && cells_changed(existing, write) == 0
        && existing is Some && existing->0.dimension == write.dimension && existing->0.metric
        == write.metric && existing->0.model_id == write.model_id {
        nothing_differs(existing, write.generated, write.generated.len());
        nothing_is_held(existing, write.removed, write.removed.len());
        assert forall|i: int| 0 <= i < write.generated.len() implies {
            let read = vector_of(stored->0, (#[trigger] write.generated[i]).0.slot);
            &&& read is Some && same_numbers(read->0, write.generated[i].1)
            &&& hash_of(stored->0, write.generated[i].0.slot) == Some(write.generated[i].2)
        } by {
            let made = write.generated[i];
            assert(!vector_differs(existing, made.0, made.1, made.2));
            let read = vector_of(stored->0, made.0.slot)->0;
            assert forall|j: int| 0 <= j < read.len() implies #[trigger] read[j] == made.1[j] || (
            read[j] % 0x8000_0000 == 0 && made.1[j] % 0x8000_0000 == 0) by {
                assert(crate::coordinate::same_number(read[j], made.1[j]));
            }
        }
    } else {
        let successor = generated_successor(existing, write);
        a_kept_store_is_found(before.edge_embeddings@, connection_type, name, successor);
        assert(stored == Some(successor));
        assert forall|slot: usize|
            existing is Some && existing->0.dimension == write.dimension
                && existing->0.nodes.contains(slot) && !generated_edges(write.generated).contains(
                EdgeIndex { slot },
            ) && !write.removed.contains(EdgeIndex { slot }) implies #[trigger] vector_of(
            stored->0,
            slot,
        ) == vector_of(existing->0, slot) && hash_of(stored->0, slot) == hash_of(
            existing->0,
            slot,
        ) by {
            let edge = EdgeIndex { slot };
            assert(vector_of(successor, edge.slot) == vector_of(existing->0, edge.slot));
        }
        assert forall|i: int| 0 <= i < write.removed.len() implies !stored->0.nodes.contains(
            (#[trigger] write.removed[i]).slot,
        ) by {
            assert(vector_of(successor, write.removed[i].slot) is None);
        }
    }
}

proof fn what_is_declared(existing: Option<StoreModel>, write: WriteModel)
    ensures
        generated_successor(existing, write).dimension == write.dimension,
        generated_successor(existing, write).metric == write.metric,
{
    let base = if existing is Some && !dimension_changes(existing, write) {
        existing->0
    } else {
        crate::store::empty_store(write.dimension, write.metric)
    };
    let declared = StoreModel {
        dimension: write.dimension,
        metric: write.metric,
        model_id: write.model_id,
        ..base
    };
    removals_keep_what_is_declared(declared, write.removed, write.removed.len());
    installs_keep_what_is_declared(
        crate::edge_replace::all_removed(declared, write.removed, write.removed.len()),
        write.generated,
        write.generated.len(),
    );
}

proof fn removals_keep_what_is_declared(store: StoreModel, edges: Seq<EdgeIndex>, count: nat)
    ensures
        crate::edge_replace::all_removed(store, edges, count).dimension == store.dimension,
        crate::edge_replace::all_removed(store, edges, count).metric == store.metric,
    decreases count,
{
    if count > 0 {
        removals_keep_what_is_declared(store, edges, (count - 1) as nat);
    }
}

proof fn installs_keep_what_is_declared(
    store: StoreModel,
    generated: Seq<(EdgeIndex, Seq<u32>, u64)>,
    count: nat,
)
    ensures
        crate::edge_generated::all_installed(store, generated, count).dimension == store.dimension,
        crate::edge_generated::all_installed(store, generated, count).metric == store.metric,
    decreases count,
{
    if count > 0 {
        installs_keep_what_is_declared(store, generated, (count - 1) as nat);
    }
}

/// A relationship is among the selected.
pub open spec fn reached(selected: Seq<(EdgeIndex, Option<Text>)>, slot: usize) -> bool {
    exists|i: int| 0 <= i < selected.len() && (#[trigger] selected[i]).0.slot == slot
}

/// A selection without fault lists each relationship once, and only live ones
/// of the type.
pub proof fn a_faultless_selection_is_of_the_type(
    topology: Topology,
    connection_type: Text,
    selected: Seq<(EdgeIndex, Option<Text>)>,
)
    requires
        selection_fault(topology, connection_type, selected, 0) is None,
    ensures
        listed_once(selected),
        forall|i: int|
            0 <= i < selected.len() ==> topology.live((#[trigger] selected[i]).0)
                && topology.type_of(selected[i].0) == connection_type,
{
    faultless_from(topology, connection_type, selected, 0);
}

proof fn faultless_from(
    topology: Topology,
    connection_type: Text,
    selected: Seq<(EdgeIndex, Option<Text>)>,
    from: int,
)
    requires
        0 <= from <= selected.len(),
        selection_fault(topology, connection_type, selected, from) is None,
    ensures
        forall|i: int, j: int|
            0 <= i < j < selected.len() && from <= j ==> (#[trigger] selected[i]).0 != (
            #[trigger] selected[j]).0,
        forall|i: int|
            from <= i < selected.len() ==> topology.live((#[trigger] selected[i]).0)
                && topology.type_of(selected[i].0) == connection_type,
    decreases selected.len() - from,
{
    if from < selected.len() {
        faultless_from(topology, connection_type, selected, from + 1);
    }
}

/// A text that is sent is that of a selected relationship.
spec fn sent_from(selected: Seq<(EdgeIndex, Option<Text>)>, text: PendingModel) -> bool {
    exists|i: int|
        0 <= i < selected.len() && with_text(#[trigger] selected[i]) && text == sent(selected[i])
}

/// A relationship whose vector is taken away is a selected one without a text.
spec fn dropped_from(selected: Seq<(EdgeIndex, Option<Text>)>, edge: EdgeIndex) -> bool {
    exists|i: int|
        0 <= i < selected.len() && !with_text(#[trigger] selected[i]) && edge == selected[i].0
}

proof fn a_selected_relationship_is_reached(
    existing: Option<StoreModel>,
    selected: Seq<(EdgeIndex, Option<Text>)>,
    mode: EmbedMode,
)
    ensures
        forall|k: int|
            0 <= k < sent_in(existing, selected, mode).len() ==> sent_from(
                selected,
                #[trigger] sent_in(existing, selected, mode)[k],
            ),
        forall|k: int|
            0 <= k < dropped_in(existing, selected, mode).len() ==> dropped_from(
                selected,
                #[trigger] dropped_in(existing, selected, mode)[k],
            ),
{
    let all = |item: (EdgeIndex, Option<Text>)|
        if with_text(item) {
            Some(sent(item))
        } else {
            None
        };
    let missing = |item: (EdgeIndex, Option<Text>)|
        if with_text(item) && !owned(existing, item.0.slot) {
            Some(sent(item))
        } else {
            None
        };
    let changed = |item: (EdgeIndex, Option<Text>)|
        if with_text(item) && !owned_for(existing, item.0.slot, item.1->0) {
            Some(sent(item))
        } else {
            None
        };
    let gone = |item: (EdgeIndex, Option<Text>)|
        if !with_text(item) && owned(existing, item.0.slot) {
            Some(item.0)
        } else {
            None
        };
    assert forall|k: int| 0 <= k < sent_in(existing, selected, mode).len() implies sent_from(
        selected,
        #[trigger] sent_in(existing, selected, mode)[k],
    ) by {
        let at = match mode {
            EmbedMode::All => nothing_sent_is_foreign(selected, all, k),
            EmbedMode::Missing => nothing_sent_is_foreign(selected, missing, k),
            EmbedMode::Changed => nothing_sent_is_foreign(selected, changed, k),
        };
        assert(with_text(selected[at]));
    }
    assert forall|k: int| 0 <= k < dropped_in(existing, selected, mode).len() implies dropped_from(
        selected,
        #[trigger] dropped_in(existing, selected, mode)[k],
    ) by {
        let at = nothing_sent_is_foreign(selected, gone, k);
        assert(!with_text(selected[at]));
    }
}

/// What a pass that succeeded leaves. A vector that the selection does not reach
/// stays with its hash in every mode. In a pass for what is missing every vector
/// that was there stays with its hash, selected or not. After a pass for what
/// changed or over all, every selected text has a vector that was made from just
/// that text; after one for what is missing it has one. A selected relationship
/// without a text keeps what it had, but in a pass over all it has none after.
pub proof fn what_a_pass_leaves(
    before: DirGraph,
    after: DirGraph,
    request: RequestModel,
    model_id: Option<Text>,
    dimension: usize,
    generated: Seq<(EdgeIndex, Seq<u32>, u64)>,
    report: ReportModel,
)
    requires
        ({
            let name = store_name_of(request.text_property);
            let existing = lookup(before.edge_embeddings@, request.connection_type, name);
            &&& existing is Some ==> coherent(existing->0)
            &&& pass_done(before, after, request, model_id, dimension, generated, report)
            &&& made_for(
                generated,
                plan_of(existing, request.selected, request.mode, request.selected.len()).pending,
                dimension,
            )
        }),
    ensures
        ({
            let name = store_name_of(request.text_property);
            let existing = lookup(before.edge_embeddings@, request.connection_type, name);
            let stored = lookup(after.edge_embeddings@, request.connection_type, name);
            &&& stored is Some
            &&& stored->0.dimension == dimension
            &&& stored->0.metric == match request.metric {
                Some(metric) => Some(metric),
                None => if existing is Some {
                    existing->0.metric
                } else {
                    None
                },
            }
            &&& forall|slot: usize|
                #![trigger vector_of(stored->0, slot)]
                owned(existing, slot) && !reached(request.selected, slot) ==> vector_of(
                    stored->0,
                    slot,
                ) == vector_of(existing->0, slot) && hash_of(stored->0, slot) == hash_of(
                    existing->0,
                    slot,
                )
            &&& forall|slot: usize|
                #![trigger vector_of(stored->0, slot)]
                request.mode is Missing && owned(existing, slot) ==> vector_of(stored->0, slot)
                    == vector_of(existing->0, slot) && hash_of(stored->0, slot) == hash_of(
                    existing->0,
                    slot,
                )
            &&& forall|i: int|
                0 <= i < request.selected.len() && with_text(#[trigger] request.selected[i])
                    ==> owned(stored, request.selected[i].0.slot) && (!(request.mode is Missing)
                    ==> owned_for(
                    stored,
                    request.selected[i].0.slot,
                    request.selected[i].1->0,
                ))
            &&& forall|i: int|
                0 <= i < request.selected.len() && !with_text(#[trigger] request.selected[i])
                    ==> if request.mode is All {
                    !owned(stored, request.selected[i].0.slot)
                } else {
                    owned(existing, request.selected[i].0.slot) ==> vector_of(
                        stored->0,
                        request.selected[i].0.slot,
                    ) == vector_of(existing->0, request.selected[i].0.slot)
                }
            &&& report.embedded == sent_in(existing, request.selected, request.mode).len()
            &&& report.skipped == textless_count(request.selected)
            &&& report.removed == dropped_in(existing, request.selected, request.mode).len()
            &&& report.embedded + report.skipped + report.skipped_existing
                == request.selected.len()
            &&& report.dimension == dimension
            &&& report.stored == (stored->0.nodes.len() as usize) as nat
            &&& report.model_id == stored->0.model_id
        }),
{
    let selected = request.selected;
    let mode = request.mode;
    let name = store_name_of(request.text_property);
    let existing = lookup(before.edge_embeddings@, request.connection_type, name);
    let stored = lookup(after.edge_embeddings@, request.connection_type, name);
    let write = write_of(existing, request, model_id, dimension, generated);
    let plan = plan_of(existing, selected, mode, selected.len());
    let made = choose|made: EdgeEmbeddingWriteReport|
        #[trigger] install_done(
            before,
            after,
            request.connection_type,
            request.text_property,
            write,
            made,
        ) && report == crate::generation::report_of(plan, write, made);
    what_was_made_is_stored(
        before,
        after,
        request.connection_type,
        request.text_property,
        write,
        made,
    );
    a_faultless_selection_is_of_the_type(before.topology, request.connection_type, selected);
    a_plan_follows_its_mode(existing, selected, mode);
    a_selected_relationship_is_reached(existing, selected, mode);
    crate::generation_plan::every_relationship_is_counted_once(
        existing,
        selected,
        mode,
        selected.len(),
    );
    // Only what the selection reaches is made or taken away.
    assert forall|slot: usize| #[trigger]
        generated_edges(generated).contains(EdgeIndex { slot }) implies exists|i: int|
        0 <= i < selected.len() && with_text(#[trigger] selected[i]) && selected[i].0.slot == slot
            && plan.pending.contains(sent(selected[i])) by {
        let edge = EdgeIndex { slot };
        let k = generated_edges(generated).index_of(edge);
        assert(generated[k].0 == edge);
        assert(plan.pending[k].edge == edge);
        assert(sent_from(selected, plan.pending[k]));
        assert(plan.pending.contains(plan.pending[k]));
    }
    assert forall|slot: usize| #[trigger]
        write.removed.contains(EdgeIndex { slot }) implies exists|i: int|
        0 <= i < selected.len() && !with_text(#[trigger] selected[i]) && selected[i].0.slot
            == slot by {
        let k = write.removed.index_of(EdgeIndex { slot });
        assert(plan.removed[k] == EdgeIndex { slot });
        assert(dropped_from(selected, plan.removed[k]));
    }
    assert forall|slot: usize| owned(existing, slot) && existing->0.dimension != dimension implies {
        mode is All && #[trigger] reached(selected, slot)
    } by {
        assert(!unselected_remain(existing, selected));
        let edges = selected_edges(selected);
        let p = existing->0.nodes.index_of(slot);
        assert(existing->0.nodes[p] == slot);
        let i = choose|i: int| 0 <= i < edges.len() && (#[trigger] edges[i]).slot == slot;
        assert(selected[i].0.slot == slot);
    }
    assert forall|slot: usize| owned(existing, slot) && !reached(selected, slot) implies {
        &&& #[trigger] vector_of(stored->0, slot) == vector_of(existing->0, slot)
        &&& hash_of(stored->0, slot) == hash_of(existing->0, slot)
    } by {
        assert(!generated_edges(generated).contains(EdgeIndex { slot }));
        assert(!write.removed.contains(EdgeIndex { slot }));
    }
    if mode is Missing {
        a_missing_plan_leaves_every_vector_alone(existing, selected);
        assert forall|slot: usize| owned(existing, slot) implies {
            &&& #[trigger] vector_of(stored->0, slot) == vector_of(existing->0, slot)
            &&& hash_of(stored->0, slot) == hash_of(existing->0, slot)
        } by {
            if generated_edges(generated).contains(EdgeIndex { slot }) {
                let k = generated_edges(generated).index_of(EdgeIndex { slot });
                assert(generated[k].0.slot == slot);
                assert(plan.pending[k].edge.slot == slot);
            }
            assert(write.removed.len() == 0);
        }
    }
    if mode is Changed {
        a_changed_plan_sends_what_differs(existing, selected);
    }
    if mode is All {
        a_full_plan_sends_every_text(existing, selected);
    }
    assert forall|i: int| 0 <= i < selected.len() && with_text(#[trigger] selected[i]) implies {
        &&& owned(stored, selected[i].0.slot)
        &&& !(mode is Missing) ==> owned_for(stored, selected[i].0.slot, selected[i].1->0)
    } by {
        let slot = selected[i].0.slot;
        if plan.pending.contains(sent(selected[i])) {
            let k = plan.pending.index_of(sent(selected[i]));
            assert(generated[k].0 == plan.pending[k].edge);
            assert(vector_of(stored->0, write.generated[k].0.slot) is Some);
        } else {
            assert(vector_of(stored->0, slot) == vector_of(existing->0, slot)) by {
                if generated_edges(generated).contains(EdgeIndex { slot }) {
                    let j = choose|j: int|
                        0 <= j < selected.len() && with_text(#[trigger] selected[j])
                            && selected[j].0.slot == slot && plan.pending.contains(
                            sent(selected[j]),
                        );
                    assert(selected[j].0 == selected[i].0);
                    assert(i == j);
                }
                if write.removed.contains(EdgeIndex { slot }) {
                    let j = choose|j: int|
                        0 <= j < selected.len() && !with_text(#[trigger] selected[j])
                            && selected[j].0.slot == slot;
                    assert(selected[j].0 == selected[i].0);
                    assert(i == j);
                }
                assert(existing->0.dimension == dimension);
            }
        }
    }
    assert forall|i: int| 0 <= i < selected.len() && !with_text(#[trigger] selected[i]) implies {
        if mode is All {
            !owned(stored, selected[i].0.slot)
        } else {
            owned(existing, selected[i].0.slot) ==> vector_of(stored->0, selected[i].0.slot)
                == vector_of(existing->0, selected[i].0.slot)
        }
    } by {
        let slot = selected[i].0.slot;
        if generated_edges(generated).contains(EdgeIndex { slot }) {
            let j = choose|j: int|
                0 <= j < selected.len() && with_text(#[trigger] selected[j]) && selected[j].0.slot
                    == slot && plan.pending.contains(sent(selected[j]));
            assert(selected[j].0 == selected[i].0);
            assert(i == j);
        }
        if mode is All {
            if owned(existing, slot) {
                assert(plan.removed.contains(selected[i].0));
                let k = plan.removed.index_of(selected[i].0);
                assert(!stored->0.nodes.contains(write.removed[k].slot));
            } else {
                nothing_else_appears(before, after, request, write, made, slot);
            }
        } else {
            assert(write.removed.len() == 0);
        }
    }
}

/// No relationship gets a vector for which none was made.
proof fn nothing_else_appears(
    before: DirGraph,
    after: DirGraph,
    request: RequestModel,
    write: WriteModel,
    made: EdgeEmbeddingWriteReport,
    slot: usize,
)
    requires
        ({
            let name = store_name_of(request.text_property);
            let existing = lookup(before.edge_embeddings@, request.connection_type, name);
            &&& existing is Some ==> coherent(existing->0)
            &&& install_fault(before.topology, request.connection_type, existing, write) is None
            &&& install_done(
                before,
                after,
                request.connection_type,
                request.text_property,
                write,
                made,
            )
            &&& !owned(existing, slot)
            &&& !generated_edges(write.generated).contains(EdgeIndex { slot })
        }),
    ensures
        !owned(
            lookup(
                after.edge_embeddings@,
                request.connection_type,
                store_name_of(request.text_property),
            ),
            slot,
        ),
{
    let name = store_name_of(request.text_property);
    let existing = lookup(before.edge_embeddings@, request.connection_type, name);
    let successor = generated_successor(existing, write);
    a_kept_store_is_found(before.edge_embeddings@, request.connection_type, name, successor);
    let base = if existing is Some && !dimension_changes(existing, write) {
        existing->0
    } else {
        crate::store::empty_store(write.dimension, write.metric)
    };
    let declared = StoreModel {
        dimension: write.dimension,
        metric: write.metric,
        model_id: write.model_id,
        ..base
    };
    faultless_write_is_sound(before.topology, request.connection_type, write);
    crate::write_laws::only_what_was_made_appears(declared, write, slot);
}

/// However a pass was answered, where it succeeded no vector that its selection
/// does not reach changed, and a pass for what is missing changed no vector at
/// all that was there. Every selected text has a vector after it, one made from
/// just that text unless the pass was for what is missing. No other store and no
/// node or relationship changed.
pub proof fn a_pass_keeps_what_it_should<M: Embedder, I: Interrupt, C: EmbedCalls>(
    before: DirGraph,
    after: DirGraph,
    request: RequestModel,
    service: Option<(&M, I)>,
    hooks: Option<&EmbedHooks<C>>,
    calls: Seq<ModelCall>,
    report: ReportModel,
)
    requires
        ({
            let existing = lookup(
                before.edge_embeddings@,
                request.connection_type,
                store_name_of(request.text_property),
            );
            &&& existing is Some ==> coherent(existing->0)
            &&& pass_outcome(before, after, request, service, hooks, calls, Ok(report))
        }),
    ensures
        ({
            let name = store_name_of(request.text_property);
            let existing = lookup(before.edge_embeddings@, request.connection_type, name);
            let stored = lookup(after.edge_embeddings@, request.connection_type, name);
            &&& forall|slot: usize|
                #![trigger vector_of(stored->0, slot)]
                owned(existing, slot) && (request.mode is Missing || !reached(
                    request.selected,
                    slot,
                )) ==> stored is Some && vector_of(stored->0, slot) == vector_of(existing->0, slot)
                    && hash_of(stored->0, slot) == hash_of(existing->0, slot)
            &&& forall|i: int|
                0 <= i < request.selected.len() && with_text(#[trigger] request.selected[i])
                    ==> owned(stored, request.selected[i].0.slot) && (!(request.mode is Missing)
                    ==> owned_for(
                    stored,
                    request.selected[i].0.slot,
                    request.selected[i].1->0,
                ))
            &&& request.mode is All ==> forall|i: int|
                0 <= i < request.selected.len() && !with_text(#[trigger] request.selected[i])
                    ==> !owned(stored, request.selected[i].0.slot)
            &&& forall|t: Text, n: Text|
                !(t == request.connection_type && n == name) ==> #[trigger] lookup(
                    after.edge_embeddings@,
                    t,
                    n,
                ) == lookup(before.edge_embeddings@, t, n)
            &&& after.topology == before.topology
            &&& after.embeddings@ == before.embeddings@
            &&& report.embedded == sent_in(existing, request.selected, request.mode).len()
            &&& report.skipped == textless_count(request.selected)
            &&& report.removed == dropped_in(existing, request.selected, request.mode).len()
            &&& report.embedded + report.skipped + report.skipped_existing
                == request.selected.len()
            &&& report.reembedded == if request.mode is Changed {
                sent_in(existing, request.selected, request.mode).filter_map(
                    |p: PendingModel|
                        if owned(existing, p.edge.slot) {
                            Some(p.edge)
                        } else {
                            None
                        },
                ).len()
            } else {
                0
            }
            &&& report.stored == if stored is Some {
                (stored->0.nodes.len() as usize) as nat
            } else {
                0
            }
        }),
{
    let name = store_name_of(request.text_property);
    let existing = lookup(before.edge_embeddings@, request.connection_type, name);
    a_plan_follows_its_mode(existing, request.selected, request.mode);
    if request.selected.len() > 0 {
        let (model, interrupt) = service->0;
        let (model_id, dimension, generated) = choose|
            model_id: Option<String>,
            dimension: usize,
            generated: Seq<(EdgeIndex, Seq<u32>, u64)>,
        | #[trigger]
            pass_taken(
                model,
                interrupt,
                hooks,
                before,
                after,
                request,
                model_id,
                dimension,
                generated,
                calls,
                report,
            );
        let named = crate::text::text_option(model_id);
        let plan = plan_of(existing, request.selected, request.mode, request.selected.len());
        let write = write_of(existing, request, named, dimension, generated);
        let width = choose|width: usize| width > 0 && #[trigger] made_for(
            generated,
            plan.pending,
            width,
        );
        faultless_write_is_sound(before.topology, request.connection_type, write);
        assert(made_for(generated, plan.pending, dimension)) by {
            assert forall|i: int| 0 <= i < generated.len() implies {
                &&& (#[trigger] generated[i]).0 == plan.pending[i].edge
                &&& generated[i].1.len() == dimension
                &&& crate::coordinate::fault_of(generated[i].1) is None
                &&& generated[i].2 == plan.pending[i].text_hash
            } by {
                assert(write.generated[i] == generated[i]);
            }
        }
        what_a_pass_leaves(before, after, request, named, dimension, generated, report);
        let made = choose|made: EdgeEmbeddingWriteReport|
            #[trigger] install_done(
                before,
                after,
                request.connection_type,
                request.text_property,
                write,
                made,
            ) && report == crate::generation::report_of(plan, write, made);
        what_was_made_is_stored(
            before,
            after,
            request.connection_type,
            request.text_property,
            write,
            made,
        );
    } else {
        assert(sent_in(existing, request.selected, request.mode).len() == 0);
        assert(textless_count(request.selected) == 0);
    }
}

/// A store names a model after a pass only where that model made every vector in
/// it: it named that model before, or it had no vectors, or a pass over all
/// reached them all. In those cases it does name the model that was asked.
pub proof fn a_store_names_a_model_that_made_it_all(
    existing: Option<StoreModel>,
    request: RequestModel,
    model_id: Option<Text>,
    dimension: usize,
    generated: Seq<(EdgeIndex, Seq<u32>, u64)>,
)
    ensures
        ({
            let named = write_of(existing, request, model_id, dimension, generated).model_id;
            let alone = existing is None || existing->0.nodes.len() == 0;
            let before = existing is Some && existing->0.model_id is Some && existing->0.model_id
                == model_id;
            let all = request.mode is All && forall|slot: usize|
                owned(existing, slot) ==> #[trigger] reached(request.selected, slot);
            named == if alone || before || all {
                model_id
            } else {
                None
            }
        }),
{
    let edges = selected_edges(request.selected);
    if existing is Some {
        let store = existing->0;
        let all = forall|slot: usize|
            owned(existing, slot) ==> #[trigger] reached(request.selected, slot);
        if !unselected_remain(existing, request.selected) {
            assert forall|slot: usize| owned(existing, slot) implies #[trigger] reached(
                request.selected,
                slot,
            ) by {
                let p = store.nodes.index_of(slot);
                assert(store.nodes[p] == slot);
                let i = choose|i: int| 0 <= i < edges.len() && (#[trigger] edges[i]).slot == slot;
                assert(request.selected[i].0.slot == slot);
            }
        }
        if all {
            assert forall|p: int| 0 <= p < store.nodes.len() implies crate::edge_replace::edge_slots(
                edges,
                edges.len() as int,
            ).contains(#[trigger] store.nodes[p]) by {
                let slot = store.nodes[p];
                assert(owned(existing, slot));
                assert(reached(request.selected, slot));
                let i = choose|i: int|
                    0 <= i < request.selected.len() && (#[trigger] request.selected[i]).0.slot
                        == slot;
                assert(edges[i].slot == slot);
            }
        }
    }
}

} // verus!
