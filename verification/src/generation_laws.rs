//! What holds of passes one after the other.

use crate::edge_generated::{all_installed, generated_successor};
use crate::edge_replace::all_removed;
use crate::embed::EmbedMode;
use crate::generation::{made_for, model_fault, write_of, RequestModel};
use crate::generation_plan::{a_current_store_needs_no_model, has_vector, plan_of, takes};
use crate::store::{hash_of, holds, with_hash, with_vector, StoreModel};
use crate::text::Text;
use crate::text_hash::hash_of_text;
use crate::value::EdgeIndex;
use vstd::prelude::*;

verus! {

/// A selection that lists each relationship once.
pub open spec fn listed_once(selected: Seq<(EdgeIndex, Option<Text>)>) -> bool {
    forall|i: int, j: int|
        0 <= i < j < selected.len() ==> (#[trigger] selected[i]).0 != (#[trigger] selected[j]).0
}

/// A relationship has a text.
pub open spec fn has_text(item: (EdgeIndex, Option<Text>)) -> bool {
    item.1 is Some && item.1->0.len() > 0
}

proof fn pending_is_selected(
    existing: Option<StoreModel>,
    selected: Seq<(EdgeIndex, Option<Text>)>,
    mode: EmbedMode,
    count: nat,
)
    requires
        count <= selected.len(),
    ensures
        forall|k: int|
            0 <= k < plan_of(existing, selected, mode, count).pending.len() ==> exists|i: int|
                0 <= i < count && {
                    let p = #[trigger] plan_of(existing, selected, mode, count).pending[k];
                    &&& (#[trigger] selected[i]).0 == p.edge
                    &&& has_text(selected[i])
                    &&& p.text_hash == hash_of_text(selected[i].1->0)
                    &&& takes(existing, p.edge, p.text_hash, mode)
                },
    decreases count,
{
    if count > 0 {
        pending_is_selected(existing, selected, mode, (count - 1) as nat);
        let before = plan_of(existing, selected, mode, (count - 1) as nat).pending;
        let all = plan_of(existing, selected, mode, count).pending;
        assert forall|k: int| 0 <= k < all.len() implies exists|i: int|
            0 <= i < count && {
                let p = #[trigger] all[k];
                &&& (#[trigger] selected[i]).0 == p.edge
                &&& has_text(selected[i])
                &&& p.text_hash == hash_of_text(selected[i].1->0)
                &&& takes(existing, p.edge, p.text_hash, mode)
            } by {
            if k < before.len() {
                assert(before[k] == all[k]);
                let i = choose|i: int|
                    0 <= i < count - 1 && {
                        let p = before[k];
                        &&& (#[trigger] selected[i]).0 == p.edge
                        &&& has_text(selected[i])
                        &&& p.text_hash == hash_of_text(selected[i].1->0)
                        &&& takes(existing, p.edge, p.text_hash, mode)
                    };
                assert(selected[i].0 == all[k].edge);
            } else {
                assert(selected[count - 1].0 == all[k].edge);
            }
        }
    }
}

proof fn taken_is_pending(
    existing: Option<StoreModel>,
    selected: Seq<(EdgeIndex, Option<Text>)>,
    mode: EmbedMode,
    count: nat,
    at: int,
)
    requires
        0 <= at < count <= selected.len(),
        has_text(selected[at]),
        takes(existing, selected[at].0, hash_of_text(selected[at].1->0), mode),
    ensures
        exists|k: int|
            0 <= k < plan_of(existing, selected, mode, count).pending.len() && {
                let p = #[trigger] plan_of(existing, selected, mode, count).pending[k];
                p.edge == selected[at].0 && p.text_hash == hash_of_text(selected[at].1->0)
            },
    decreases count,
{
    let before = plan_of(existing, selected, mode, (count - 1) as nat).pending;
    let all = plan_of(existing, selected, mode, count).pending;
    if at == count - 1 {
        assert(all[before.len() as int].edge == selected[at].0);
    } else {
        taken_is_pending(existing, selected, mode, (count - 1) as nat, at);
        let k = choose|k: int|
            0 <= k < before.len() && {
                let p = #[trigger] before[k];
                p.edge == selected[at].0 && p.text_hash == hash_of_text(selected[at].1->0)
            };
        assert(all[k] == before[k]);
    }
}

proof fn pending_is_listed_once(
    existing: Option<StoreModel>,
    selected: Seq<(EdgeIndex, Option<Text>)>,
    mode: EmbedMode,
    count: nat,
)
    requires
        count <= selected.len(),
        listed_once(selected),
    ensures
        forall|i: int, j: int|
            0 <= i < j < plan_of(existing, selected, mode, count).pending.len() ==> (
            #[trigger] plan_of(existing, selected, mode, count).pending[i]).edge != (
            #[trigger] plan_of(existing, selected, mode, count).pending[j]).edge,
    decreases count,
{
    if count > 0 {
        pending_is_listed_once(existing, selected, mode, (count - 1) as nat);
        pending_is_selected(existing, selected, mode, (count - 1) as nat);
        let before = plan_of(existing, selected, mode, (count - 1) as nat).pending;
        let all = plan_of(existing, selected, mode, count).pending;
        assert forall|i: int, j: int| 0 <= i < j < all.len() implies (#[trigger] all[i]).edge != (
        #[trigger] all[j]).edge by {
            assert(before[i] == all[i]);
            if j < before.len() {
                assert(before[j] == all[j]);
            } else {
                let n = choose|n: int|
                    0 <= n < count - 1 && {
                        let p = before[i];
                        &&& (#[trigger] selected[n]).0 == p.edge
                        &&& has_text(selected[n])
                        &&& p.text_hash == hash_of_text(selected[n].1->0)
                        &&& takes(existing, p.edge, p.text_hash, mode)
                    };
                assert(selected[n].0 != selected[count - 1].0);
            }
        }
    }
}

proof fn installs_stay(
    store: StoreModel,
    generated: Seq<(EdgeIndex, Seq<u32>, u64)>,
    count: nat,
    at: int,
)
    requires
        0 <= at < count <= generated.len(),
        forall|i: int, j: int|
            0 <= i < j < generated.len() ==> (#[trigger] generated[i]).0 != (
            #[trigger] generated[j]).0,
    ensures
        holds(all_installed(store, generated, count), generated[at].0.slot),
        hash_of(all_installed(store, generated, count), generated[at].0.slot) == Some(
            generated[at].2,
        ),
    decreases count,
{
    let before = all_installed(store, generated, (count - 1) as nat);
    let last = generated[count - 1];
    written_is_held(before, last.0.slot, last.1, last.2);
    if at < count - 1 {
        installs_stay(store, generated, (count - 1) as nat, at);
        assert(generated[at].0 != generated[count - 1].0);
        assert(generated[at].0 == EdgeIndex { slot: generated[at].0.slot });
        assert(generated[count - 1].0 == EdgeIndex { slot: generated[count - 1].0.slot });
    }
}

proof fn written_is_held(store: StoreModel, slot: usize, vector: Seq<u32>, hash: u64)
    ensures
        ({
            let after = with_hash(with_vector(store, slot, vector), slot, Some(hash));
            &&& holds(after, slot)
            &&& hash_of(after, slot) == Some(hash)
            &&& forall|other: usize| #[trigger] holds(store, other) ==> holds(after, other)
            &&& forall|other: usize|
                other != slot ==> #[trigger] hash_of(after, other) == hash_of(store, other)
        }),
{
    let after = with_hash(with_vector(store, slot, vector), slot, Some(hash));
    if !holds(store, slot) {
        assert(after.nodes == store.nodes.push(slot));
        assert(after.nodes[store.nodes.len() as int] == slot);
        assert forall|other: usize| #[trigger] holds(store, other) implies holds(after, other) by {
            let k = store.nodes.index_of(other);
            assert(after.nodes[k] == other);
        }
    }
}

proof fn others_stay(
    store: StoreModel,
    generated: Seq<(EdgeIndex, Seq<u32>, u64)>,
    count: nat,
    slot: usize,
)
    requires
        count <= generated.len(),
        holds(store, slot),
        forall|i: int| 0 <= i < generated.len() ==> (#[trigger] generated[i]).0.slot != slot,
    ensures
        holds(all_installed(store, generated, count), slot),
        hash_of(all_installed(store, generated, count), slot) == hash_of(store, slot),
    decreases count,
{
    if count > 0 {
        others_stay(store, generated, (count - 1) as nat, slot);
        let before = all_installed(store, generated, (count - 1) as nat);
        let last = generated[count - 1];
        written_is_held(before, last.0.slot, last.1, last.2);
        assert(generated[count - 1].0.slot != slot);
    }
}

proof fn nothing_is_removed(
    existing: Option<StoreModel>,
    selected: Seq<(EdgeIndex, Option<Text>)>,
    mode: EmbedMode,
    count: nat,
)
    requires
        mode != EmbedMode::All,
        count <= selected.len(),
    ensures
        plan_of(existing, selected, mode, count).removed.len() == 0,
    decreases count,
{
    if count > 0 {
        nothing_is_removed(existing, selected, mode, (count - 1) as nat);
    }
}

/// A pass over what changed sends nothing to the model right after a pass over
/// the same relationships and texts, and changes nothing: every text has a
/// vector made from it. A pass over what was missing alone does not promise
/// that.
pub proof fn a_second_pass_sends_nothing(
    existing: Option<StoreModel>,
    request: RequestModel,
    model_id: Option<Text>,
    dimension: usize,
    generated: Seq<(EdgeIndex, Seq<u32>, u64)>,
)
    requires
        request.mode != EmbedMode::Missing,
        listed_once(request.selected),
        model_fault(existing, request, model_id, dimension) is None,
        made_for(
            generated,
            plan_of(existing, request.selected, request.mode, request.selected.len()).pending,
            dimension,
        ),
    ensures
        ({
            let after = generated_successor(
                existing,
                write_of(existing, request, model_id, dimension, generated),
            );
            let again = plan_of(
                Some(after),
                request.selected,
                EmbedMode::Changed,
                request.selected.len(),
            );
            &&& again.pending.len() == 0
            &&& again.removed.len() == 0
            &&& again.affected.len() == 0
        }),
{
    let selected = request.selected;
    let count = selected.len();
    let plan = plan_of(existing, selected, request.mode, count);
    let write = write_of(existing, request, model_id, dimension, generated);
    let after = generated_successor(existing, write);
    pending_is_listed_once(existing, selected, request.mode, count);
    pending_is_selected(existing, selected, request.mode, count);
    assert forall|i: int, j: int| 0 <= i < j < generated.len() implies (
    #[trigger] generated[i]).0 != (#[trigger] generated[j]).0 by {
        assert(plan.pending[i].edge != plan.pending[j].edge);
    }
    assert forall|i: int|
        0 <= i < selected.len() && (#[trigger] selected[i]).1 is Some && selected[i].1->0.len()
            > 0 implies has_vector(Some(after), selected[i].0) && hash_of(
        after,
        selected[i].0.slot,
    ) == Some(hash_of_text(selected[i].1->0)) by {
        let edge = selected[i].0;
        let hash = hash_of_text(selected[i].1->0);
        let base = if existing is Some && existing->0.dimension == dimension {
            existing->0
        } else {
            crate::store::empty_store(dimension, write.metric)
        };
        let declared = StoreModel {
            dimension: write.dimension,
            metric: write.metric,
            model_id: write.model_id,
            ..base
        };
        let thinned = all_removed(declared, write.removed, write.removed.len());
        assert(after == all_installed(thinned, generated, generated.len()));
        if takes(existing, edge, hash, request.mode) {
            taken_is_pending(existing, selected, request.mode, count, i);
            let k = choose|k: int|
                0 <= k < plan.pending.len() && {
                    let p = #[trigger] plan.pending[k];
                    p.edge == edge && p.text_hash == hash
                };
            assert(generated[k].0 == edge && generated[k].2 == hash);
            installs_stay(thinned, generated, generated.len(), k);
        } else {
            assert(request.mode == EmbedMode::Changed);
            nothing_is_removed(existing, selected, request.mode, count);
            assert(thinned == declared);
            assert forall|k: int| 0 <= k < generated.len() implies (
            #[trigger] generated[k]).0.slot != edge.slot by {
                let p = plan.pending[k];
                assert(generated[k].0 == p.edge);
                let n = choose|n: int|
                    0 <= n < count && {
                        &&& (#[trigger] selected[n]).0 == p.edge
                        &&& has_text(selected[n])
                        &&& p.text_hash == hash_of_text(selected[n].1->0)
                        &&& takes(existing, p.edge, p.text_hash, request.mode)
                    };
                if p.edge == edge {
                    if n < i {
                        assert(selected[n].0 != selected[i].0);
                    }
                    if i < n {
                        assert(selected[i].0 != selected[n].0);
                    }
                }
                assert(p.edge == EdgeIndex { slot: p.edge.slot });
                assert(edge == EdgeIndex { slot: edge.slot });
            }
            others_stay(declared, generated, generated.len(), edge.slot);
        }
    }
    a_current_store_needs_no_model(Some(after), selected, EmbedMode::Changed, count);
}

} // verus!
