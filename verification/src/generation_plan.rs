//! Deciding what a pass over selected relationships sends to the model.

use crate::edge_store::EdgeEmbeddingStore;
use crate::embed::EmbedMode;
use crate::graph::DirGraph;
use crate::store::{hash_of, holds, StoreModel};
use crate::text::{decimal, push_number, text_eq, text_option, Text};
use crate::text_hash::{hash_of_text, text_hash};
use crate::topology::Topology;
use crate::value::EdgeIndex;
use std::collections::HashSet;
use vstd::prelude::*;

verus! {

/// A selected relationship and its text. No text, a value that is no text and
/// an empty text are all `None`.
#[derive(Debug, Clone)]
pub struct SelectedEdgeText {
    /// The relationship.
    pub edge: EdgeIndex,
    /// Its text.
    pub text: Option<String>,
}

/// What the selected relationships are.
pub open spec fn selection_of(selected: Seq<SelectedEdgeText>) -> Seq<(EdgeIndex, Option<Text>)> {
    Seq::new(selected.len(), |i: int| (selected[i].edge, text_option(selected[i].text)))
}

/// A text that is to be embedded.
#[derive(Debug, Clone)]
pub struct Pending {
    /// The relationship.
    pub edge: EdgeIndex,
    /// Its text.
    pub text: String,
    /// The text's hash.
    pub text_hash: u64,
}

/// What a text to embed says.
#[verifier::ext_equal]
pub struct PendingModel {
    pub edge: EdgeIndex,
    pub text: Text,
    pub text_hash: u64,
}

impl View for Pending {
    type V = PendingModel;

    open spec fn view(&self) -> PendingModel {
        PendingModel { edge: self.edge, text: self.text@, text_hash: self.text_hash }
    }
}

/// What texts to embed say.
pub open spec fn pending_models(pending: Seq<Pending>) -> Seq<PendingModel> {
    Seq::new(pending.len(), |i: int| pending[i]@)
}

/// What a pass decided before the model is asked.
#[derive(Debug, Clone)]
pub struct SelectionPlan {
    /// The texts to embed.
    pub pending: Vec<Pending>,
    /// The relationships whose vectors go.
    pub remove_selected: Vec<EdgeIndex>,
    /// Every relationship that is written.
    pub affected: Vec<EdgeIndex>,
    /// Relationships without a text.
    pub skipped: usize,
    /// Relationships whose vector is current.
    pub skipped_existing: usize,
    /// Relationships with a vector whose text changed.
    pub reembedded_changed: usize,
    /// Vectors that go because the text is gone.
    pub removed_missing: usize,
}

/// What a plan says.
#[verifier::ext_equal]
pub struct PlanModel {
    pub pending: Seq<PendingModel>,
    pub removed: Seq<EdgeIndex>,
    pub affected: Seq<EdgeIndex>,
    pub skipped: nat,
    pub skipped_existing: nat,
    pub reembedded: nat,
}

impl View for SelectionPlan {
    type V = PlanModel;

    open spec fn view(&self) -> PlanModel {
        PlanModel {
            pending: pending_models(self.pending@),
            removed: self.remove_selected@,
            affected: self.affected@,
            skipped: self.skipped as nat,
            skipped_existing: self.skipped_existing as nat,
            reembedded: self.reembedded_changed as nat,
        }
    }
}

/// Whether a store has a vector of a relationship.
pub open spec fn has_vector(existing: Option<StoreModel>, edge: EdgeIndex) -> bool {
    existing is Some && holds(existing->0, edge.slot)
}

/// Whether a text goes to the model.
pub open spec fn takes(existing: Option<StoreModel>, edge: EdgeIndex, hash: u64, mode: EmbedMode) -> bool {
    match mode {
        EmbedMode::All => true,
        EmbedMode::Missing => !has_vector(existing, edge),
        EmbedMode::Changed => !has_vector(existing, edge) || hash_of(existing->0, edge.slot)
            != Some(hash),
    }
}

/// The plan with one more relationship.
pub open spec fn plan_step(
    plan: PlanModel,
    existing: Option<StoreModel>,
    item: (EdgeIndex, Option<Text>),
    mode: EmbedMode,
) -> PlanModel {
    let edge = item.0;
    if item.1 is None || item.1->0.len() == 0 {
        if mode == EmbedMode::All && has_vector(existing, edge) {
            PlanModel {
                removed: plan.removed.push(edge),
                affected: plan.affected.push(edge),
                skipped: plan.skipped + 1,
                ..plan
            }
        } else {
            PlanModel { skipped: plan.skipped + 1, ..plan }
        }
    } else {
        let hash = hash_of_text(item.1->0);
        if takes(existing, edge, hash, mode) {
            PlanModel {
                pending: plan.pending.push(
                    PendingModel { edge, text: item.1->0, text_hash: hash },
                ),
                affected: plan.affected.push(edge),
                reembedded: plan.reembedded + if mode == EmbedMode::Changed && has_vector(
                    existing,
                    edge,
                ) {
                    1nat
                } else {
                    0nat
                },
                ..plan
            }
        } else {
            PlanModel { skipped_existing: plan.skipped_existing + 1, ..plan }
        }
    }
}

/// No plan yet.
pub open spec fn empty_plan() -> PlanModel {
    PlanModel {
        pending: Seq::empty(),
        removed: Seq::empty(),
        affected: Seq::empty(),
        skipped: 0,
        skipped_existing: 0,
        reembedded: 0,
    }
}

/// The plan for the first `count` relationships.
pub open spec fn plan_of(
    existing: Option<StoreModel>,
    selected: Seq<(EdgeIndex, Option<Text>)>,
    mode: EmbedMode,
    count: nat,
) -> PlanModel
    decreases count,
{
    if count == 0 {
        empty_plan()
    } else {
        plan_step(
            plan_of(existing, selected, mode, (count - 1) as nat),
            existing,
            selected[count - 1],
            mode,
        )
    }
}

/// A store that may be there.
pub open spec fn existing_model(existing: Option<&EdgeEmbeddingStore>) -> Option<StoreModel> {
    match existing {
        Some(store) => Some(store@),
        None => None,
    }
}

/// Every relationship is counted once: as pending, as skipped, or as current.
/// What is re-embedded is pending, and what is removed is skipped.
pub proof fn every_relationship_is_counted_once(
    existing: Option<StoreModel>,
    selected: Seq<(EdgeIndex, Option<Text>)>,
    mode: EmbedMode,
    count: nat,
)
    requires
        count <= selected.len(),
    ensures
        ({
            let plan = plan_of(existing, selected, mode, count);
            &&& plan.pending.len() + plan.skipped + plan.skipped_existing == count
            &&& plan.reembedded <= plan.pending.len()
            &&& plan.removed.len() <= plan.skipped
            &&& plan.affected.len() == plan.pending.len() + plan.removed.len()
        }),
    decreases count,
{
    if count > 0 {
        every_relationship_is_counted_once(existing, selected, mode, (count - 1) as nat);
    }
}

/// A pass that leaves current vectors alone sends nothing to the model where
/// every text has a vector made from it, and removes nothing.
pub proof fn a_current_store_needs_no_model(
    existing: Option<StoreModel>,
    selected: Seq<(EdgeIndex, Option<Text>)>,
    mode: EmbedMode,
    count: nat,
)
    requires
        mode != EmbedMode::All,
        count <= selected.len(),
        forall|i: int|
            0 <= i < selected.len() && (#[trigger] selected[i]).1 is Some && selected[i].1->0.len()
                > 0 ==> has_vector(existing, selected[i].0) && hash_of(
                existing->0,
                selected[i].0.slot,
            ) == Some(hash_of_text(selected[i].1->0)),
    ensures
        plan_of(existing, selected, mode, count).pending.len() == 0,
        plan_of(existing, selected, mode, count).removed.len() == 0,
        plan_of(existing, selected, mode, count).affected.len() == 0,
    decreases count,
{
    if count > 0 {
        a_current_store_needs_no_model(existing, selected, mode, (count - 1) as nat);
        assert(selected[count - 1] == selected[count - 1]);
    }
}

/// Decides what a pass sends to the model, what it removes and what it leaves.
pub fn plan_selection(
    existing: Option<&EdgeEmbeddingStore>,
    selected: &Vec<SelectedEdgeText>,
    mode: EmbedMode,
) -> (plan: SelectionPlan)
    requires
        existing is Some ==> existing->0.well_formed(),
    ensures
        plan@ == plan_of(
            existing_model(existing),
            selection_of(selected@),
            mode,
            selected@.len(),
        ),
        plan.removed_missing == plan@.removed.len(),
{
    let ghost store = existing_model(existing);
    let ghost items = selection_of(selected@);
    let mut plan = SelectionPlan {
        pending: Vec::new(),
        remove_selected: Vec::new(),
        affected: Vec::new(),
        skipped: 0,
        skipped_existing: 0,
        reembedded_changed: 0,
        removed_missing: 0,
    };
    assert(plan@ =~= empty_plan());
    let mut i: usize = 0;
    while i < selected.len()
        invariant
            i <= selected@.len(),
            store == existing_model(existing),
            items == selection_of(selected@),
            existing is Some ==> existing->0.well_formed(),
            plan@ == plan_of(store, items, mode, i as nat),
            plan.removed_missing == plan@.removed.len(),
        decreases selected@.len() - i,
    {
        let item = &selected[i];
        let ghost before = plan@;
        let ghost pendings = plan.pending@;
        proof {
            assert(items[i as int] == (item.edge, text_option(item.text)));
            every_relationship_is_counted_once(store, items, mode, i as nat);
        }
        let vector_exists = match existing {
            Some(held) => held.numeric.contains(item.edge.slot),
            None => false,
        };
        assert(vector_exists == has_vector(store, item.edge));
        let text: Option<&str> = match &item.text {
            Some(text) => if text.as_str().is_empty() {
                None
            } else {
                Some(text.as_str())
            },
            None => None,
        };
        match text {
            None => {
                plan.skipped = plan.skipped + 1;
                if mode == EmbedMode::All && vector_exists {
                    plan.remove_selected.push(item.edge);
                    plan.affected.push(item.edge);
                    plan.removed_missing = plan.removed_missing + 1;
                }
            },
            Some(text) => {
                let hash: u64 = text_hash(text);
                let take = match mode {
                    EmbedMode::All => true,
                    EmbedMode::Missing => !vector_exists,
                    EmbedMode::Changed => !vector_exists || match existing {
                        Some(held) => match held.text_hash(item.edge) {
                            Some(made_from) => made_from != hash,
                            None => true,
                        },
                        None => true,
                    },
                };
                assert(take == takes(store, item.edge, hash, mode));
                if take {
                    if mode == EmbedMode::Changed && vector_exists {
                        plan.reembedded_changed = plan.reembedded_changed + 1;
                    }
                    let one = Pending { edge: item.edge, text: text.to_owned(), text_hash: hash };
                    plan.pending.push(one);
                    plan.affected.push(item.edge);
                    assert(pending_models(plan.pending@) =~= pending_models(pendings).push(one@));
                } else {
                    plan.skipped_existing = plan.skipped_existing + 1;
                }
            },
        }
        assert(plan@ =~= plan_step(before, store, items[i as int], mode));
        i = i + 1;
    }
    plan
}

/// The first relationship of a selection, from `position`, that is listed twice,
/// does not live, or is of another type.
pub open spec fn selection_fault(
    topology: Topology,
    connection_type: Text,
    selected: Seq<(EdgeIndex, Option<Text>)>,
    position: int,
) -> Option<Text>
    decreases selected.len() - position,
{
    if position < 0 || position >= selected.len() {
        None
    } else {
        let edge = selected[position].0;
        let slot = "relationship slot "@ + decimal(edge.slot as nat);
        if exists|i: int| 0 <= i < position && (#[trigger] selected[i]).0 == edge {
            Some(slot + " appears more than once in the selection"@)
        } else if !topology.live(edge) {
            Some(slot + " is not live"@)
        } else if topology.type_of(edge) != connection_type {
            Some(
                slot + " has type '"@ + topology.type_of(edge) + "', not '"@ + connection_type
                    + "'"@,
            )
        } else {
            selection_fault(topology, connection_type, selected, position + 1)
        }
    }
}

fn slot_message(edge: EdgeIndex) -> (message: String)
    ensures
        message@ == "relationship slot "@ + decimal(edge.slot as nat),
{
    let mut message = "relationship slot ".to_owned();
    push_number(&mut message, edge.slot);
    message
}

/// Checks that the selected relationships live, are of the type, and are listed
/// once.
pub fn validate_selection(
    graph: &DirGraph,
    connection_type: &str,
    selected: &Vec<SelectedEdgeText>,
) -> (result: Result<(), String>)
    ensures
        match result {
            Ok(_) => selection_fault(
                graph.topology,
                connection_type@,
                selection_of(selected@),
                0,
            ) is None,
            Err(message) => selection_fault(
                graph.topology,
                connection_type@,
                selection_of(selected@),
                0,
            ) == Some(message@),
        },
{
    broadcast use vstd::std_specs::hash::group_hash_axioms;

    let ghost items = selection_of(selected@);
    let mut seen: HashSet<usize> = HashSet::new();
    let mut i: usize = 0;
    while i < selected.len()
        invariant
            i <= selected@.len(),
            items == selection_of(selected@),
            forall|s: usize|
                #[trigger] seen@.contains(s) <==> exists|k: int|
                    0 <= k < i && (#[trigger] items[k]).0 == (EdgeIndex { slot: s }),
            selection_fault(graph.topology, connection_type@, items, 0) == selection_fault(
                graph.topology,
                connection_type@,
                items,
                i as int,
            ),
        decreases selected@.len() - i,
    {
        let edge = selected[i].edge;
        assert(items[i as int].0 == edge);
        assert(edge == EdgeIndex { slot: edge.slot });
        if seen.contains(&edge.slot) {
            let mut message = slot_message(edge);
            message.append(" appears more than once in the selection");
            return Err(message);
        }
        let ghost before = seen@;
        seen.insert(edge.slot);
        proof {
            assert forall|s: usize| #[trigger] seen@.contains(s) <==> exists|k: int|
                0 <= k < i + 1 && (#[trigger] items[k]).0 == (EdgeIndex { slot: s }) by {
                if before.contains(s) {
                    let k = choose|k: int|
                        0 <= k < i && (#[trigger] items[k]).0 == (EdgeIndex { slot: s });
                    assert(items[k].0 == EdgeIndex { slot: s });
                }
                if exists|k: int|
                    0 <= k < i + 1 && (#[trigger] items[k]).0 == (EdgeIndex { slot: s }) {
                    let k = choose|k: int|
                        0 <= k < i + 1 && (#[trigger] items[k]).0 == (EdgeIndex { slot: s });
                    if k < i {
                        assert(before.contains(s));
                    }
                }
            }
        }
        match graph.topology.edge_weight(edge) {
            None => {
                let mut message = slot_message(edge);
                message.append(" is not live");
                return Err(message);
            },
            Some(data) => {
                if !text_eq(data.connection_type.as_str(), connection_type) {
                    let mut message = slot_message(edge);
                    message.append(" has type '");
                    message.append(data.connection_type.as_str());
                    message.append("', not '");
                    message.append(connection_type);
                    message.append("'");
                    return Err(message);
                }
            },
        }
        i = i + 1;
    }
    Ok(())
}

} // verus!
