//! What holds of passes over a node column one after the other.

use crate::catalog::{a_kept_store_is_found, entry_place, lookup, place_is_first};
use crate::embed::EmbedMode;
use crate::graph::DirGraph;
use crate::names::store_name_of;
use crate::node_embed::{
    candidates_of, embedded_into, kept_store, node_takes, node_text, property_candidates,
    property_embedded, read_field,
};
use crate::graph::members_or_none;
use crate::store::{
    a_written_vector_reads_back, hash_of, holds, place_of, vector_of, with_hash, with_vector,
    StoreModel,
};
use crate::text::Text;
use crate::text_hash::hash_of_text;
use crate::topology::Topology;
use crate::value::NodeIndex;
use crate::write_laws::{lined, writing_keeps_lined};
use vstd::prelude::*;

verus! {

/// The hash of the text in a node's column.
spec fn wanted(topology: Topology, field: Text, slot: usize) -> u64 {
    hash_of_text(node_text(topology.node(NodeIndex { slot }), field)->0)
}

proof fn candidates_carry_their_hash(
    topology: Topology,
    members: Seq<NodeIndex>,
    field: Text,
    existing: Option<StoreModel>,
    mode: EmbedMode,
    count: nat,
)
    requires
        count <= members.len(),
    ensures
        ({
            let texts = candidates_of(topology, members, field, existing, mode, count).texts;
            forall|i: int|
                0 <= i < texts.len() ==> (#[trigger] texts[i]).2 == wanted(
                    topology,
                    field,
                    texts[i].0,
                )
        }),
    decreases count,
{
    if count > 0 {
        candidates_carry_their_hash(topology, members, field, existing, mode, (count - 1) as nat);
        let before = candidates_of(topology, members, field, existing, mode, (count - 1) as nat);
        let texts = candidates_of(topology, members, field, existing, mode, count).texts;
        let node = members[count - 1];
        assert(node == NodeIndex { slot: node.slot });
        assert forall|i: int| 0 <= i < texts.len() implies (#[trigger] texts[i]).2 == wanted(
            topology,
            field,
            texts[i].0,
        ) by {
            if i < before.texts.len() {
                assert(texts[i] == before.texts[i]);
            }
        }
    }
}

proof fn a_taken_node_is_a_candidate(
    topology: Topology,
    members: Seq<NodeIndex>,
    field: Text,
    existing: Option<StoreModel>,
    mode: EmbedMode,
    count: nat,
    at: int,
)
    requires
        0 <= at < count <= members.len(),
        topology.node_lives(members[at]),
        node_text(topology.node(members[at]), field) is Some,
        node_takes(
            existing,
            members[at].slot,
            hash_of_text(node_text(topology.node(members[at]), field)->0),
            mode,
        ),
    ensures
        ({
            let texts = candidates_of(topology, members, field, existing, mode, count).texts;
            exists|i: int| 0 <= i < texts.len() && (#[trigger] texts[i]).0 == members[at].slot
        }),
    decreases count,
{
    let before = candidates_of(topology, members, field, existing, mode, (count - 1) as nat);
    let texts = candidates_of(topology, members, field, existing, mode, count).texts;
    if at == count - 1 {
        assert(texts[before.texts.len() as int].0 == members[at].slot);
    } else {
        a_taken_node_is_a_candidate(
            topology,
            members,
            field,
            existing,
            mode,
            (count - 1) as nat,
            at,
        );
        let i = choose|i: int|
            0 <= i < before.texts.len() && (#[trigger] before.texts[i]).0 == members[at].slot;
        assert(texts[i] == before.texts[i]);
    }
}

/// Whether a node is among the first `count` texts.
spec fn sent(texts: Seq<(usize, Text, u64)>, count: int, slot: usize) -> bool {
    exists|i: int| 0 <= i < count && (#[trigger] texts[i]).0 == slot
}

proof fn embedded_hashes(
    store: StoreModel,
    topology: Topology,
    field: Text,
    texts: Seq<(usize, Text, u64)>,
    vectors: Seq<Seq<u32>>,
    count: nat,
)
    requires
        count <= texts.len(),
        forall|i: int|
            0 <= i < texts.len() ==> (#[trigger] texts[i]).2 == wanted(topology, field, texts[i].0),
    ensures
        forall|slot: usize| #[trigger]
            sent(texts, count as int, slot) ==> hash_of(
                embedded_into(store, texts, vectors, count),
                slot,
            ) == Some(wanted(topology, field, slot)) && holds(
                embedded_into(store, texts, vectors, count),
                slot,
            ),
        forall|slot: usize|
            !(#[trigger] sent(texts, count as int, slot)) ==> hash_of(
                embedded_into(store, texts, vectors, count),
                slot,
            ) == hash_of(store, slot) && (holds(
                embedded_into(store, texts, vectors, count),
                slot,
            ) <==> holds(store, slot)),
    decreases count,
{
    if count > 0 {
        let prior = (count - 1) as nat;
        embedded_hashes(store, topology, field, texts, vectors, prior);
        let so_far = embedded_into(store, texts, vectors, prior);
        let after = embedded_into(store, texts, vectors, count);
        let last = texts[count - 1];
        let with = with_vector(so_far, last.0, vectors[count - 1]);
        assert(after == with_hash(with, last.0, Some(last.2)));
        assert forall|slot: usize| #[trigger] holds(after, slot) <==> (slot == last.0 || holds(
            so_far,
            slot,
        )) by {
            if holds(so_far, last.0) {
                assert(so_far.nodes[place_of(so_far, last.0)] == last.0);
            } else {
                assert(after.nodes == so_far.nodes.push(last.0));
                assert(after.nodes[so_far.nodes.len() as int] == last.0);
                if holds(so_far, slot) {
                    assert(after.nodes[place_of(so_far, slot)] == slot);
                }
                if holds(after, slot) && slot != last.0 {
                    assert(so_far.nodes[place_of(after, slot)] == slot);
                }
            }
        }
        assert forall|slot: usize| #[trigger] sent(texts, count as int, slot) implies hash_of(
            after,
            slot,
        ) == Some(wanted(topology, field, slot)) && holds(after, slot) by {
            if slot != last.0 {
                let i = choose|i: int| 0 <= i < count && (#[trigger] texts[i]).0 == slot;
                assert(texts[i].0 == slot);
                assert(sent(texts, prior as int, slot));
            }
        }
        assert forall|slot: usize| !(#[trigger] sent(texts, count as int, slot)) implies hash_of(
            after,
            slot,
        ) == hash_of(store, slot) && (holds(after, slot) <==> holds(store, slot)) by {
            assert(texts[count - 1].0 == last.0);
            assert(slot != last.0);
            if sent(texts, prior as int, slot) {
                let i = choose|i: int| 0 <= i < prior && (#[trigger] texts[i]).0 == slot;
                assert(texts[i].0 == slot);
            }
            assert(!sent(texts, prior as int, slot));
        }
    } else {
        assert forall|slot: usize| !(#[trigger] sent(texts, 0, slot)) by {}
    }
}

proof fn current_texts_are_not_sent(
    topology: Topology,
    members: Seq<NodeIndex>,
    field: Text,
    existing: Option<StoreModel>,
    count: nat,
)
    requires
        count <= members.len(),
        forall|i: int|
            0 <= i < members.len() && topology.node_lives(#[trigger] members[i]) && node_text(
                topology.node(members[i]),
                field,
            ) is Some ==> !node_takes(
                existing,
                members[i].slot,
                hash_of_text(node_text(topology.node(members[i]), field)->0),
                EmbedMode::Changed,
            ),
    ensures
        candidates_of(topology, members, field, existing, EmbedMode::Changed, count).texts.len()
            == 0,
    decreases count,
{
    if count > 0 {
        current_texts_are_not_sent(topology, members, field, existing, (count - 1) as nat);
        let node = members[count - 1];
        assert(topology.node_lives(node) ==> true);
    }
}

/// After a pass that embeds every text, or every text that changed, a pass over
/// the texts that changed has nothing to send.
pub proof fn a_second_node_pass_sends_nothing(
    before: DirGraph,
    after: DirGraph,
    node_type: Text,
    text_column: Text,
    mode: EmbedMode,
    model_id: Option<Text>,
    dimension: usize,
    vectors: Seq<Seq<u32>>,
)
    requires
        mode == EmbedMode::All || mode == EmbedMode::Changed,
        property_embedded(
            before,
            after,
            node_type,
            text_column,
            mode,
            model_id,
            dimension,
            vectors,
        ),
    ensures
        property_candidates(after, node_type, text_column, EmbedMode::Changed).texts.len() == 0,
{
    let existing = kept_store(before, node_type, text_column, mode);
    let members = members_or_none(before.node_types@, node_type);
    let field = read_field(before, node_type, text_column);
    let topology = before.topology;
    let texts = property_candidates(before, node_type, text_column, mode).texts;
    let base = match existing {
        Some(store) => store,
        None => crate::store::empty_store(dimension, None),
    };
    let made = embedded_into(base, texts, vectors, texts.len());
    let store = StoreModel {
        model_id: if existing is None {
            model_id
        } else {
            made.model_id
        },
        ..made
    };
    a_kept_store_is_found(before.embeddings@, node_type, store_name_of(text_column), store);
    assert(kept_store(after, node_type, text_column, EmbedMode::Changed) == Some(store));
    assert(read_field(after, node_type, text_column) == field);
    candidates_carry_their_hash(topology, members, field, existing, mode, members.len());
    embedded_hashes(base, topology, field, texts, vectors, texts.len());
    assert forall|i: int|
        0 <= i < members.len() && topology.node_lives(#[trigger] members[i]) && node_text(
            topology.node(members[i]),
            field,
        ) is Some implies !node_takes(
        Some(store),
        members[i].slot,
        hash_of_text(node_text(topology.node(members[i]), field)->0),
        EmbedMode::Changed,
    ) by {
        let slot = members[i].slot;
        let hash = hash_of_text(node_text(topology.node(members[i]), field)->0);
        assert(members[i] == NodeIndex { slot });
        assert(hash == wanted(topology, field, slot));
        if node_takes(existing, slot, hash, mode) {
            a_taken_node_is_a_candidate(
                topology,
                members,
                field,
                existing,
                mode,
                members.len(),
                i,
            );
            let k = choose|k: int| 0 <= k < texts.len() && (#[trigger] texts[k]).0 == slot;
            assert(texts[k].0 == slot);
            assert(sent(texts, texts.len() as int, slot));
        } else if !sent(texts, texts.len() as int, slot) {
            assert(hash_of(made, slot) == hash_of(base, slot));
        }
        assert(hash_of(store, slot) == hash_of(made, slot));
        assert(holds(store, slot) == holds(made, slot));
    }
    current_texts_are_not_sent(topology, members, field, Some(store), members.len());
}

/// Whether the text at `at` is the last of the first `count` for its node.
pub open spec fn last_text(texts: Seq<(usize, Text, u64)>, count: int, at: int) -> bool {
    forall|j: int| at < j < count ==> (#[trigger] texts[j]).0 != texts[at].0
}

/// Whether a node has a text among those that went to the model.
pub open spec fn node_sent(texts: Seq<(usize, Text, u64)>, slot: usize) -> bool {
    exists|i: int| 0 <= i < texts.len() && (#[trigger] texts[i]).0 == slot
}

proof fn embedded_vectors(
    store: StoreModel,
    texts: Seq<(usize, Text, u64)>,
    vectors: Seq<Seq<u32>>,
    count: nat,
)
    requires
        lined(store),
        count <= texts.len(),
    ensures
        lined(embedded_into(store, texts, vectors, count)),
        embedded_into(store, texts, vectors, count).dimension == store.dimension,
        embedded_into(store, texts, vectors, count).model_id == store.model_id,
        forall|i: int|
            0 <= i < count && last_text(texts, count as int, i) ==> vector_of(
                embedded_into(store, texts, vectors, count),
                (#[trigger] texts[i]).0,
            ) == Some(vectors[i]) && hash_of(
                embedded_into(store, texts, vectors, count),
                texts[i].0,
            ) == Some(texts[i].2),
        forall|slot: usize|
            !node_sent(texts, slot) ==> #[trigger] vector_of(
                embedded_into(store, texts, vectors, count),
                slot,
            ) == vector_of(store, slot) && hash_of(
                embedded_into(store, texts, vectors, count),
                slot,
            ) == hash_of(store, slot),
    decreases count,
{
    if count > 0 {
        let prior = (count - 1) as nat;
        embedded_vectors(store, texts, vectors, prior);
        let so_far = embedded_into(store, texts, vectors, prior);
        let after = embedded_into(store, texts, vectors, count);
        let last = texts[count - 1];
        let with = with_vector(so_far, last.0, vectors[count - 1]);
        writing_keeps_lined(so_far, last.0, vectors[count - 1]);
        a_written_vector_reads_back(so_far, last.0, vectors[count - 1]);
        assert(after == with_hash(with, last.0, Some(last.2)));
        assert forall|s: usize| #[trigger] vector_of(after, s) == vector_of(with, s) by {}
        assert forall|i: int| 0 <= i < count && last_text(texts, count as int, i) implies vector_of(
            after,
            (#[trigger] texts[i]).0,
        ) == Some(vectors[i]) && hash_of(after, texts[i].0) == Some(texts[i].2) by {
            if i < count - 1 {
                assert(texts[count - 1].0 != texts[i].0);
                assert(last_text(texts, prior as int, i));
                assert(vector_of(so_far, texts[i].0) == Some(vectors[i]));
            }
        }
        assert forall|slot: usize| !node_sent(texts, slot) implies #[trigger] vector_of(after, slot)
            == vector_of(store, slot) && hash_of(after, slot) == hash_of(store, slot) by {
            assert(texts[count - 1].0 == last.0);
            assert(slot != last.0);
            assert(vector_of(so_far, slot) == vector_of(store, slot));
        }
    }
}

/// After a pass over a type, each node whose text went to the model holds the
/// vector that the model gave for it and the hash of the text; every other node
/// has what the kept store had of it, and nothing where the store was rebuilt.
/// The store has the model's dimension. It names the model where it was built
/// anew, and else the model it named before.
pub proof fn an_embedded_node_holds_its_vector(
    before: DirGraph,
    after: DirGraph,
    node_type: Text,
    text_column: Text,
    mode: EmbedMode,
    model_id: Option<Text>,
    dimension: usize,
    vectors: Seq<Seq<u32>>,
)
    requires
        before.well_formed(),
        property_embedded(
            before,
            after,
            node_type,
            text_column,
            mode,
            model_id,
            dimension,
            vectors,
        ),
    ensures
        ({
            let texts = property_candidates(before, node_type, text_column, mode).texts;
            let existing = kept_store(before, node_type, text_column, mode);
            let found = lookup(after.embeddings@, node_type, store_name_of(text_column));
            &&& found is Some
            &&& found->0.dimension == dimension
            &&& found->0.model_id == match existing {
                Some(store) => store.model_id,
                None => model_id,
            }
            &&& forall|i: int|
                0 <= i < texts.len() && last_text(texts, texts.len() as int, i) ==> vector_of(
                    found->0,
                    (#[trigger] texts[i]).0,
                ) == Some(vectors[i]) && hash_of(found->0, texts[i].0) == Some(texts[i].2)
            &&& forall|slot: usize|
                !node_sent(texts, slot) ==> #[trigger] vector_of(found->0, slot) == match existing {
                    Some(store) => vector_of(store, slot),
                    None => None,
                } && hash_of(found->0, slot) == match existing {
                    Some(store) => hash_of(store, slot),
                    None => None,
                }
        }),
{
    let existing = kept_store(before, node_type, text_column, mode);
    let texts = property_candidates(before, node_type, text_column, mode).texts;
    let name = store_name_of(text_column);
    let base = match existing {
        Some(store) => store,
        None => crate::store::empty_store(dimension, None),
    };
    let made = embedded_into(base, texts, vectors, texts.len());
    let store = StoreModel {
        model_id: if existing is None {
            model_id
        } else {
            made.model_id
        },
        ..made
    };
    if existing is Some {
        place_is_first(before.embeddings@, node_type, name);
        let place = entry_place(before.embeddings@, node_type, name);
        before.embeddings.entries@[place].store.is_coherent();
        assert(before.embeddings@[place].store == before.embeddings.entries@[place].store@);
    }
    embedded_vectors(base, texts, vectors, texts.len());
    a_kept_store_is_found(before.embeddings@, node_type, name, store);
    assert forall|s: usize| #[trigger] vector_of(store, s) == vector_of(made, s) by {}
    assert forall|s: usize| #[trigger] hash_of(store, s) == hash_of(made, s) by {}
}

} // verus!
