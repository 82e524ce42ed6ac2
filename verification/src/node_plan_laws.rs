//! What a pass over nodes sends to the model, and what it leaves.

use crate::catalog::lookup;
use crate::embed::{EmbedCalls, EmbedHooks, EmbedMode, EmbedOutcome, Embedder, ErrorModel};
use crate::graph::{members_or_none, DirGraph};
use crate::model_calls::ModelCall;
use crate::names::store_name_of;
use crate::node_embed::{
    candidates_of, field_of, kept_store, node_text, property_candidates, property_embedded,
    property_outcome, property_pass, property_run, read_field,
};
use crate::node_embed_laws::{an_embedded_node_holds_its_vector, last_text, node_sent};
use crate::plan_laws::{owned, owned_for};
use crate::store::{hash_of, vector_of, StoreModel};
use crate::text::Text;
use crate::text_hash::hash_of_text;
use crate::topology::{property_in, NodeData, Topology};
use crate::value::{NodeIndex, ValueModel};
use vstd::prelude::*;

verus! {

/// A node's id and title are read under those names, before any property. Every
/// other field is the property of that name where the node has one; where it has
/// none, the name is the title, and the type, in its three names, is the node's
/// type. No other field has a value.
pub proof fn a_field_is_read_from_the_node(node: NodeData, field: Text)
    ensures
        field == "id"@ ==> field_of(node, field) == Some(node.id@),
        field == "title"@ ==> field_of(node, field) == Some(node.title@),
        field != "id"@ && field != "title"@ ==> {
            &&& property_in(node.properties@, field) is Some ==> field_of(node, field)
                == property_in(node.properties@, field)
            &&& property_in(node.properties@, field) is None ==> {
                &&& field == "name"@ ==> field_of(node, field) == Some(node.title@)
                &&& field == "type"@ || field == "node_type"@ || field == "label"@ ==> field_of(
                    node,
                    field,
                ) == Some(ValueModel::String(node.node_type@))
                &&& field != "name"@ && field != "type"@ && field != "node_type"@ && field
                    != "label"@ ==> field_of(node, field) is None
            }
        },
{
    reveal_strlit("id");
    reveal_strlit("title");
    reveal_strlit("name");
    reveal_strlit("type");
    reveal_strlit("node_type");
    reveal_strlit("label");
    assert("name"@[0] == 'n' && "type"@[0] == 't' && "label"@[0] == 'l' && "title"@[1] == 'i'
        && "type"@[1] == 'y' && "id"@.len() == 2 && "node_type"@.len() == 9);
}

/// A node has a text in a field exactly where the field is a text that is not
/// empty, and it is the whole of it.
pub proof fn a_node_text_is_the_whole_field(node: NodeData, field: Text)
    ensures
        forall|text: Text|
            field_of(node, field) == Some(ValueModel::String(text)) && text.len() > 0 ==> node_text(
                node,
                field,
            ) == Some(text),
        node_text(node, field) is Some ==> node_text(node, field)->0.len() > 0 && field_of(
            node,
            field,
        ) == Some(ValueModel::String(node_text(node, field)->0)),
{
}

/// A node that lives and has something to embed in a field.
pub open spec fn speaks(topology: Topology, node: NodeIndex, field: Text) -> bool {
    &&& node.slot < topology.nodes@.len()
    &&& topology.nodes@[node.slot as int] is Some
    &&& field_of(topology.nodes@[node.slot as int]->0, field) is Some
    &&& field_of(topology.nodes@[node.slot as int]->0, field)->0 is String
    &&& field_of(topology.nodes@[node.slot as int]->0, field)->0->String_0 != Seq::<char>::empty()
}

/// What a node says in a field.
pub open spec fn spoken(topology: Topology, node: NodeIndex, field: Text) -> Text {
    field_of(topology.nodes@[node.slot as int]->0, field)->0->String_0
}

/// A node's text as it goes to the model.
pub open spec fn node_sending(topology: Topology, node: NodeIndex, field: Text) -> (usize, Text, u64) {
    (node.slot, spoken(topology, node, field), hash_of_text(spoken(topology, node, field)))
}

/// What a pass in a mode sends for the members of a type, in their order.
pub open spec fn node_texts_in(
    topology: Topology,
    members: Seq<NodeIndex>,
    field: Text,
    existing: Option<StoreModel>,
    mode: EmbedMode,
) -> Seq<(usize, Text, u64)> {
    match mode {
        EmbedMode::All => members.filter_map(
            |node: NodeIndex|
                if speaks(topology, node, field) {
                    Some(node_sending(topology, node, field))
                } else {
                    None
                },
        ),
        EmbedMode::Missing => members.filter_map(
            |node: NodeIndex|
                if speaks(topology, node, field) && !owned(existing, node.slot) {
                    Some(node_sending(topology, node, field))
                } else {
                    None
                },
        ),
        EmbedMode::Changed => members.filter_map(
            |node: NodeIndex|
                if speaks(topology, node, field) && !owned_for(
                    existing,
                    node.slot,
                    spoken(topology, node, field),
                ) {
                    Some(node_sending(topology, node, field))
                } else {
                    None
                },
        ),
    }
}

/// How many of the members live.
pub open spec fn alive_count(topology: Topology, members: Seq<NodeIndex>) -> nat {
    members.filter_map(
        |node: NodeIndex|
            if topology.node_lives(node) {
                Some(node)
            } else {
                None
            },
    ).len()
}

/// How many of the members live and have nothing to embed.
pub open spec fn silent_count(topology: Topology, members: Seq<NodeIndex>, field: Text) -> nat {
    members.filter_map(
        |node: NodeIndex|
            if topology.node_lives(node) && !speaks(topology, node, field) {
                Some(node)
            } else {
                None
            },
    ).len()
}

/// A pass over nodes sends just what its mode says, counts the living members
/// without a text as skipped, and the other living ones as kept.
pub proof fn a_node_pass_follows_its_mode(
    topology: Topology,
    members: Seq<NodeIndex>,
    field: Text,
    existing: Option<StoreModel>,
    mode: EmbedMode,
)
    ensures
        ({
            let found = candidates_of(topology, members, field, existing, mode, members.len());
            &&& found.texts == node_texts_in(topology, members, field, existing, mode)
            &&& found.skipped == silent_count(topology, members, field)
            &&& found.skipped + found.skipped_existing + found.texts.len() == alive_count(
                topology,
                members,
            )
            &&& found.reembedded == if mode is Changed {
                found.texts.filter_map(
                    |text: (usize, Text, u64)|
                        if owned(existing, text.0) {
                            Some(text.0)
                        } else {
                            None
                        },
                ).len()
            } else {
                0
            }
        }),
    decreases members.len(),
{
    if members.len() > 0 {
        let rest = members.drop_last();
        let node = members.last();
        a_node_pass_follows_its_mode(topology, rest, field, existing, mode);
        shorter_passes_agree(topology, members, field, existing, mode, rest.len());
        assert(node == members[members.len() - 1]);
        let found = candidates_of(topology, members, field, existing, mode, members.len());
        let less = candidates_of(topology, rest, field, existing, mode, rest.len());
        if topology.node_lives(node) {
            assert(node_text(topology.node(node), field) is Some <==> speaks(topology, node, field))
                by {
                if let Some(ValueModel::String(text)) = field_of(topology.node(node), field) {
                    assert(text.len() == 0 <==> text =~= Seq::<char>::empty());
                }
            }
        }
        if found.texts.len() > less.texts.len() {
            assert(found.texts.drop_last() =~= less.texts);
        } else {
            assert(found.texts =~= less.texts);
        }
    }
}

proof fn shorter_passes_agree(
    topology: Topology,
    members: Seq<NodeIndex>,
    field: Text,
    existing: Option<StoreModel>,
    mode: EmbedMode,
    count: nat,
)
    requires
        count < members.len(),
    ensures
        candidates_of(topology, members, field, existing, mode, count) == candidates_of(
            topology,
            members.drop_last(),
            field,
            existing,
            mode,
            count,
        ),
    decreases count,
{
    if count > 0 {
        shorter_passes_agree(topology, members, field, existing, mode, (count - 1) as nat);
    }
}

proof fn no_text_is_foreign<B>(
    members: Seq<NodeIndex>,
    f: spec_fn(NodeIndex) -> Option<B>,
    k: int,
) -> (at: int)
    requires
        0 <= k < members.filter_map(f).len(),
    ensures
        0 <= at < members.len(),
        f(members[at]) == Some(members.filter_map(f)[k]),
    decreases members.len(),
{
    let rest = members.drop_last();
    if k < rest.filter_map(f).len() {
        no_text_is_foreign(rest, f, k)
    } else {
        members.len() - 1
    }
}

proof fn no_text_is_left<B>(members: Seq<NodeIndex>, f: spec_fn(NodeIndex) -> Option<B>, at: int)
    requires
        0 <= at < members.len(),
        f(members[at]) is Some,
    ensures
        members.filter_map(f).contains(f(members[at])->0),
    decreases members.len(),
{
    let rest = members.drop_last();
    if at < rest.len() {
        no_text_is_left(rest, f, at);
        let k = rest.filter_map(f).index_of(f(members[at])->0);
        assert(members.filter_map(f)[k] == rest.filter_map(f)[k]);
    } else {
        let all = members.filter_map(f);
        assert(all[all.len() - 1] == f(members[at])->0);
    }
}

/// A pass for what is missing sends no text of a node that has a vector, whether
/// or not it is known what the vector was made from, and the text of every other
/// living member that has one.
pub proof fn a_missing_node_pass_leaves_every_vector_alone(
    topology: Topology,
    members: Seq<NodeIndex>,
    field: Text,
    existing: Option<StoreModel>,
)
    ensures
        ({
            let texts = candidates_of(
                topology,
                members,
                field,
                existing,
                EmbedMode::Missing,
                members.len(),
            ).texts;
            &&& forall|k: int|
                0 <= k < texts.len() ==> !owned(existing, (#[trigger] texts[k]).0)
            &&& forall|i: int|
                0 <= i < members.len() && speaks(topology, #[trigger] members[i], field) && !owned(
                    existing,
                    members[i].slot,
                ) ==> texts.contains(node_sending(topology, members[i], field))
        }),
{
    a_node_pass_follows_its_mode(topology, members, field, existing, EmbedMode::Missing);
    let texts = node_texts_in(topology, members, field, existing, EmbedMode::Missing);
    let f = |node: NodeIndex|
        if speaks(topology, node, field) && !owned(existing, node.slot) {
            Some(node_sending(topology, node, field))
        } else {
            None
        };
    assert(texts == members.filter_map(f));
    assert forall|k: int| 0 <= k < texts.len() implies !owned(
        existing,
        (#[trigger] texts[k]).0,
    ) by {
        let at = no_text_is_foreign(members, f, k);
    }
    assert forall|i: int|
        0 <= i < members.len() && speaks(topology, #[trigger] members[i], field) && !owned(
            existing,
            members[i].slot,
        ) implies texts.contains(node_sending(topology, members[i], field)) by {
        no_text_is_left(members, f, i);
    }
}

/// A pass for what changed sends the text of every living member whose vector
/// was not made from that very text, and no other.
pub proof fn a_changed_node_pass_sends_what_differs(
    topology: Topology,
    members: Seq<NodeIndex>,
    field: Text,
    existing: Option<StoreModel>,
)
    ensures
        ({
            let texts = candidates_of(
                topology,
                members,
                field,
                existing,
                EmbedMode::Changed,
                members.len(),
            ).texts;
            &&& forall|k: int|
                0 <= k < texts.len() ==> !owned_for(
                    existing,
                    (#[trigger] texts[k]).0,
                    texts[k].1,
                )
            &&& forall|i: int|
                0 <= i < members.len() && speaks(topology, #[trigger] members[i], field)
                    && !owned_for(
                    existing,
                    members[i].slot,
                    spoken(topology, members[i], field),
                ) ==> texts.contains(node_sending(topology, members[i], field))
        }),
{
    a_node_pass_follows_its_mode(topology, members, field, existing, EmbedMode::Changed);
    let texts = node_texts_in(topology, members, field, existing, EmbedMode::Changed);
    let f = |node: NodeIndex|
        if speaks(topology, node, field) && !owned_for(
            existing,
            node.slot,
            spoken(topology, node, field),
        ) {
            Some(node_sending(topology, node, field))
        } else {
            None
        };
    assert(texts == members.filter_map(f));
    assert forall|k: int| 0 <= k < texts.len() implies !owned_for(
        existing,
        (#[trigger] texts[k]).0,
        texts[k].1,
    ) by {
        let at = no_text_is_foreign(members, f, k);
    }
    assert forall|i: int|
        0 <= i < members.len() && speaks(topology, #[trigger] members[i], field) && !owned_for(
            existing,
            members[i].slot,
            spoken(topology, members[i], field),
        ) implies texts.contains(node_sending(topology, members[i], field)) by {
        no_text_is_left(members, f, i);
    }
}

proof fn every_text_is_of_a_member(
    topology: Topology,
    members: Seq<NodeIndex>,
    field: Text,
    existing: Option<StoreModel>,
    mode: EmbedMode,
    k: int,
) -> (at: int)
    requires
        0 <= k < node_texts_in(topology, members, field, existing, mode).len(),
    ensures
        0 <= at < members.len(),
        speaks(topology, members[at], field),
        node_texts_in(topology, members, field, existing, mode)[k] == node_sending(
            topology,
            members[at],
            field,
        ),
{
    let all = |node: NodeIndex|
        if speaks(topology, node, field) {
            Some(node_sending(topology, node, field))
        } else {
            None
        };
    let missing = |node: NodeIndex|
        if speaks(topology, node, field) && !owned(existing, node.slot) {
            Some(node_sending(topology, node, field))
        } else {
            None
        };
    let changed = |node: NodeIndex|
        if speaks(topology, node, field) && !owned_for(
            existing,
            node.slot,
            spoken(topology, node, field),
        ) {
            Some(node_sending(topology, node, field))
        } else {
            None
        };
    match mode {
        EmbedMode::All => no_text_is_foreign(members, all, k),
        EmbedMode::Missing => no_text_is_foreign(members, missing, k),
        EmbedMode::Changed => no_text_is_foreign(members, changed, k),
    }
}

proof fn the_last_text_of_a_node(texts: Seq<(usize, Text, u64)>, count: int, slot: usize) -> (at:
    int)
    requires
        0 <= count <= texts.len(),
        exists|i: int| 0 <= i < count && (#[trigger] texts[i]).0 == slot,
    ensures
        0 <= at < count,
        texts[at].0 == slot,
        last_text(texts, count, at),
    decreases count,
{
    if texts[count - 1].0 == slot {
        count - 1
    } else {
        let i = choose|i: int| 0 <= i < count && (#[trigger] texts[i]).0 == slot;
        assert(i < count - 1);
        the_last_text_of_a_node(texts, count - 1, slot)
    }
}

/// What a pass over the nodes of a type that wrote vectors leaves. A pass for
/// what is missing changes no vector that was there and no hash; every living
/// member with a text has a vector after it. After a pass for what changed or
/// over all, each of those vectors was made from just the member's text. A node
/// that is no such member keeps what it had, unless the store was built anew.
pub proof fn what_a_node_pass_leaves(
    before: DirGraph,
    after: DirGraph,
    node_type: Text,
    text_column: Text,
    mode: EmbedMode,
    model_id: Option<Text>,
    dimension: usize,
    vectors: Seq<Seq<u32>>,
)
    requires
        before.well_formed(),
        property_embedded(
            before,
            after,
            node_type,
            text_column,
            mode,
            model_id,
            dimension,
            vectors,
        ),
    ensures
        ({
            let existing = lookup(before.embeddings@, node_type, store_name_of(text_column));
            let stored = lookup(after.embeddings@, node_type, store_name_of(text_column));
            let members = members_or_none(before.node_types@, node_type);
            let field = read_field(before, node_type, text_column);
            &&& stored is Some
            &&& stored->0.dimension == dimension
            &&& forall|slot: usize|
                #![trigger vector_of(stored->0, slot)]
                mode is Missing && owned(existing, slot) ==> vector_of(stored->0, slot)
                    == vector_of(existing->0, slot) && hash_of(stored->0, slot) == hash_of(
                    existing->0,
                    slot,
                )
            &&& forall|i: int|
                0 <= i < members.len() && speaks(before.topology, #[trigger] members[i], field)
                    ==> owned(stored, members[i].slot) && (!(mode is Missing) ==> owned_for(
                    stored,
                    members[i].slot,
                    spoken(before.topology, members[i], field),
                ))
            &&& forall|slot: usize|
                #![trigger vector_of(stored->0, slot)]
                (forall|i: int|
                    0 <= i < members.len() && speaks(before.topology, #[trigger] members[i], field)
                        ==> members[i].slot != slot) ==> if mode is All {
                    !owned(stored, slot)
                } else {
                    owned(existing, slot) ==> vector_of(stored->0, slot) == vector_of(
                        existing->0,
                        slot,
                    )
                }
        }),
{
    let existing = lookup(before.embeddings@, node_type, store_name_of(text_column));
    let stored = lookup(after.embeddings@, node_type, store_name_of(text_column));
    let kept = kept_store(before, node_type, text_column, mode);
    let members = members_or_none(before.node_types@, node_type);
    let field = read_field(before, node_type, text_column);
    let topology = before.topology;
    let texts = property_candidates(before, node_type, text_column, mode).texts;
    an_embedded_node_holds_its_vector(
        before,
        after,
        node_type,
        text_column,
        mode,
        model_id,
        dimension,
        vectors,
    );
    a_node_pass_follows_its_mode(topology, members, field, kept, mode);
    assert(texts == node_texts_in(topology, members, field, kept, mode));
    if mode is Missing {
        a_missing_node_pass_leaves_every_vector_alone(topology, members, field, kept);
        assert forall|slot: usize| owned(existing, slot) implies {
            &&& #[trigger] vector_of(stored->0, slot) == vector_of(existing->0, slot)
            &&& hash_of(stored->0, slot) == hash_of(existing->0, slot)
        } by {
            assert(!node_sent(texts, slot));
        }
    }
    if mode is Changed {
        a_changed_node_pass_sends_what_differs(topology, members, field, kept);
    }
    assert forall|i: int|
        0 <= i < members.len() && speaks(topology, #[trigger] members[i], field) implies {
        &&& owned(stored, members[i].slot)
        &&& !(mode is Missing) ==> owned_for(
            stored,
            members[i].slot,
            spoken(topology, members[i], field),
        )
    } by {
        let slot = members[i].slot;
        let sending = node_sending(topology, members[i], field);
        if mode is All {
            let all = |node: NodeIndex|
                if speaks(topology, node, field) {
                    Some(node_sending(topology, node, field))
                } else {
                    None
                };
            no_text_is_left(members, all, i);
            assert(texts.contains(sending));
        }
        if texts.contains(sending) {
            let k = texts.index_of(sending);
            assert(texts[k].0 == slot);
            let at = the_last_text_of_a_node(texts, texts.len() as int, slot);
            assert(vector_of(stored->0, texts[at].0) == Some(vectors[at]));
            let m = every_text_is_of_a_member(topology, members, field, kept, mode, at);
            assert(members[m].slot == slot);
            assert(members[m] == members[i]);
        } else if node_sent(texts, slot) {
            let k = choose|k: int| 0 <= k < texts.len() && (#[trigger] texts[k]).0 == slot;
            let m = every_text_is_of_a_member(topology, members, field, kept, mode, k);
            assert(members[m] == members[i]);
            assert(texts.contains(texts[k]));
        } else {
            assert(vector_of(stored->0, slot) == vector_of(kept->0, slot));
        }
    }
    assert forall|slot: usize|
        (forall|i: int|
            0 <= i < members.len() && speaks(topology, #[trigger] members[i], field)
                ==> members[i].slot != slot) implies {
        if mode is All {
            !owned(stored, slot)
        } else {
            owned(existing, slot) ==> #[trigger] vector_of(stored->0, slot) == vector_of(
                existing->0,
                slot,
            )
        }
    } by {
        assert(!node_sent(texts, slot)) by {
            if node_sent(texts, slot) {
                let k = choose|k: int| 0 <= k < texts.len() && (#[trigger] texts[k]).0 == slot;
                let m = every_text_is_of_a_member(topology, members, field, kept, mode, k);
                assert(members[m].slot == slot);
            }
        }
        assert(vector_of(stored->0, slot) == match kept {
            Some(store) => vector_of(store, slot),
            None => None,
        });
    }
}

/// However a pass over nodes was answered, where it was for what is missing every
/// vector that was there is there with its hash, and where it succeeded every
/// living member with a text has a vector, or there was none to make. A pass that
/// failed changed nothing.
pub proof fn a_node_pass_keeps_what_it_should<M: Embedder, C: EmbedCalls>(
    before: DirGraph,
    after: DirGraph,
    node_type: Text,
    text_column: Text,
    mode: EmbedMode,
    model: &M,
    hooks: &EmbedHooks<C>,
    calls: Seq<ModelCall>,
    result: Result<EmbedOutcome, ErrorModel>,
)
    requires
        before.well_formed(),
        property_outcome(
            before,
            after,
            node_type,
            text_column,
            mode,
            model,
            hooks,
            calls,
            result,
        ),
    ensures
        result is Err ==> after == before,
        ({
            let existing = lookup(before.embeddings@, node_type, store_name_of(text_column));
            let stored = lookup(after.embeddings@, node_type, store_name_of(text_column));
            let members = members_or_none(before.node_types@, node_type);
            let field = read_field(before, node_type, text_column);
            &&& forall|slot: usize|
                #![trigger vector_of(stored->0, slot)]
                mode is Missing && owned(existing, slot) ==> stored is Some && vector_of(
                    stored->0,
                    slot,
                ) == vector_of(existing->0, slot) && hash_of(stored->0, slot) == hash_of(
                    existing->0,
                    slot,
                )
            &&& result is Ok ==> forall|i: int|
                0 <= i < members.len() && speaks(before.topology, #[trigger] members[i], field)
                    ==> owned(stored, members[i].slot) && (!(mode is Missing) ==> owned_for(
                    stored,
                    members[i].slot,
                    spoken(before.topology, members[i], field),
                ))
            &&& result is Ok ==> result->Ok_0.embedded == node_texts_in(
                before.topology,
                members,
                field,
                existing,
                mode,
            ).len() && result->Ok_0.skipped == silent_count(before.topology, members, field)
        }),
{
    let existing = lookup(before.embeddings@, node_type, store_name_of(text_column));
    let kept = kept_store(before, node_type, text_column, mode);
    let members = members_or_none(before.node_types@, node_type);
    let field = read_field(before, node_type, text_column);
    let topology = before.topology;
    let found = property_candidates(before, node_type, text_column, mode);
    a_node_pass_follows_its_mode(topology, members, field, kept, mode);
    assert(mode is All ==> node_texts_in(topology, members, field, existing, mode)
        == node_texts_in(topology, members, field, kept, mode));
    let model_id = choose|model_id: Option<String>| #[trigger]
        property_pass(
            before,
            after,
            node_type,
            text_column,
            mode,
            model,
            hooks,
            model_id,
            calls,
            result,
        );
    if after != before {
        let named = crate::text::text_option(model_id);
        let (dimension, run) = choose|dimension: usize, run: Seq<ModelCall>|
            crate::model_calls::around(calls, run) && #[trigger] property_run(
                before,
                after,
                node_type,
                text_column,
                mode,
                model,
                hooks,
                named,
                dimension,
                run,
                result,
            );
        let vectors = choose|vectors: Seq<Seq<u32>>| #[trigger]
            property_embedded(
                before,
                after,
                node_type,
                text_column,
                mode,
                named,
                dimension,
                vectors,
            );
        what_a_node_pass_leaves(
            before,
            after,
            node_type,
            text_column,
            mode,
            named,
            dimension,
            vectors,
        );
    } else if result is Ok {
        if found.texts.len() > 0 {
            let named = crate::text::text_option(model_id);
            let (dimension, run) = choose|dimension: usize, run: Seq<ModelCall>|
                crate::model_calls::around(calls, run) && #[trigger] property_run(
                    before,
                    after,
                    node_type,
                    text_column,
                    mode,
                    model,
                    hooks,
                    named,
                    dimension,
                    run,
                    result,
                );
            let vectors = choose|vectors: Seq<Seq<u32>>| #[trigger]
                property_embedded(
                    before,
                    after,
                    node_type,
                    text_column,
                    mode,
                    named,
                    dimension,
                    vectors,
                );
            what_a_node_pass_leaves(
                before,
                after,
                node_type,
                text_column,
                mode,
                named,
                dimension,
                vectors,
            );
        } else {
            assert forall|i: int|
                0 <= i < members.len() && speaks(topology, #[trigger] members[i], field) implies {
                &&& owned(existing, members[i].slot)
                &&& !(mode is Missing) ==> owned_for(
                    existing,
                    members[i].slot,
                    spoken(topology, members[i], field),
                )
            } by {
                let all = |node: NodeIndex|
                    if speaks(topology, node, field) {
                        Some(node_sending(topology, node, field))
                    } else {
                        None
                    };
                match mode {
                    EmbedMode::All => {
                        no_text_is_left(members, all, i);
                    },
                    EmbedMode::Missing => {
                        a_missing_node_pass_leaves_every_vector_alone(
                            topology,
                            members,
                            field,
                            kept,
                        );
                    },
                    EmbedMode::Changed => {
                        a_changed_node_pass_sends_what_differs(topology, members, field, kept);
                    },
                }
            }
        }
    }
}

} // verus!
