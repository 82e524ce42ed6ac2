//! What the documents of relationships are, and the words in them.

use crate::catalog::lookup;
use crate::edge_text_indexes::{delta_slots, text_built};
use crate::freshness::{covering_model, outstanding, touched, FreshnessModel};
use crate::graph::DirGraph;
use crate::text::{joined, Text};
use crate::text_documents::{
    document_of, documents_upto, in_word, list_document, members_upto, slot_document, terms_upto,
    textless_upto, texts_among, words_of, words_upto,
};
use crate::topology::{property_in, typed_edges, EdgeRecord};
use crate::value::{EdgeIndex, ValueModel};
use vstd::prelude::*;

verus! {

/// A relationship of a type lives in a slot.
pub open spec fn typed_at(edges: Seq<Option<EdgeRecord>>, slot: int, rel_type: Text) -> bool {
    0 <= slot < edges.len() && edges[slot] is Some && edges[slot]->0.data.connection_type@
        == rel_type
}

/// What a relationship has in a property.
pub open spec fn value_at(edges: Seq<Option<EdgeRecord>>, slot: int, field: Text) -> Option<
    ValueModel,
> {
    property_in(edges[slot]->0.data.properties@, field)
}

/// The texts of a list, in order.
pub open spec fn texts_in(items: Seq<ValueModel>) -> Seq<Text> {
    items.filter_map(
        |item: ValueModel|
            if item is String {
                Some(item->String_0)
            } else {
                None
            },
    )
}

/// A list holds texts and nothings alone.
pub open spec fn of_texts(items: Seq<ValueModel>) -> bool {
    forall|i: int| 0 <= i < items.len() ==> (#[trigger] items[i]) is String || items[i] is Null
}

proof fn texts_are_those_of_the_list(items: Seq<ValueModel>, count: nat)
    requires
        count <= items.len(),
    ensures
        texts_among(items, count) == if of_texts(items.take(count as int)) {
            Some(texts_in(items.take(count as int)))
        } else {
            None
        },
    decreases count,
{
    let head = items.take(count as int);
    if count > 0 {
        let k = (count - 1) as nat;
        texts_are_those_of_the_list(items, k);
        assert(head.drop_last() =~= items.take(k as int));
        assert(head.last() == items[k as int]);
        if of_texts(head) {
            assert forall|i: int| 0 <= i < k implies (#[trigger] items.take(k as int)[i]) is String
                || items.take(k as int)[i] is Null by {
                assert(head[i] == items[i]);
            }
            assert(head[k as int] == items[k as int]);
        } else if of_texts(items.take(k as int)) {
            let i = choose|i: int|
                0 <= i < head.len() && !((#[trigger] head[i]) is String || head[i] is Null);
            if i < k {
                assert(items.take(k as int)[i] == head[i]);
            }
            assert(i == k);
        }
        assert(texts_in(head) =~= match items[k as int] {
            ValueModel::String(text) => texts_in(items.take(k as int)).push(text),
            _ => texts_in(items.take(k as int)),
        });
    }
}

/// The document of a live relationship of the type is its property, the whole of
/// it whatever its length, where that is a text. A list of texts and nothings is
/// its texts with a space between them, where it has one. Nothing else is a
/// document.
pub proof fn a_document_is_the_whole_property(
    edges: Seq<Option<EdgeRecord>>,
    slot: int,
    rel_type: Text,
    field: Text,
)
    ensures
        forall|text: Text|
            typed_at(edges, slot, rel_type) && value_at(edges, slot, field) == Some(
                ValueModel::String(text),
            ) ==> slot_document(edges, slot, rel_type, field) == Some(text),
        forall|items: Seq<ValueModel>|
            typed_at(edges, slot, rel_type) && value_at(edges, slot, field) == Some(
                ValueModel::List(items),
            ) ==> slot_document(edges, slot, rel_type, field) == if of_texts(items) && texts_in(
                items,
            ).len() > 0 {
                Some(joined(texts_in(items), " "@))
            } else {
                None
            },
        typed_at(edges, slot, rel_type) && (value_at(edges, slot, field) is None || !(value_at(
            edges,
            slot,
            field,
        )->0 is String || value_at(edges, slot, field)->0 is List)) ==> slot_document(
            edges,
            slot,
            rel_type,
            field,
        ) is None,
        !typed_at(edges, slot, rel_type) ==> slot_document(edges, slot, rel_type, field) is None,
{
    assert forall|items: Seq<ValueModel>|
        typed_at(edges, slot, rel_type) && value_at(edges, slot, field) == Some(
            ValueModel::List(items),
        ) implies slot_document(edges, slot, rel_type, field) == if of_texts(items) && texts_in(
        items,
    ).len() > 0 {
        Some(joined(texts_in(items), " "@))
    } else {
        None
    } by {
        texts_are_those_of_the_list(items, items.len());
        assert(items.take(items.len() as int) =~= items);
        assert(slot_document(edges, slot, rel_type, field) == document_of(
            edges[slot]->0.data,
            field,
        ));
        assert(document_of(edges[slot]->0.data, field) == list_document(items));
    }
}

/// A built index has just the live relationships of the type that have a
/// document, each with the whole of it: a property that is a text is found as it
/// stands.
pub proof fn a_built_index_has_every_document(
    graph: DirGraph,
    rel_type: Text,
    property: Text,
    given: Option<usize>,
    slot: usize,
)
    ensures
        ({
            let edges = graph.topology.edges@;
            let docs = text_built(graph, rel_type, property, given).docs;
            &&& forall|text: Text|
                typed_at(edges, slot as int, rel_type) && value_at(edges, slot as int, property)
                    == Some(ValueModel::String(text)) ==> docs.contains_key(slot) && docs[slot]
                    == text
            &&& forall|items: Seq<ValueModel>|
                typed_at(edges, slot as int, rel_type) && value_at(edges, slot as int, property)
                    == Some(ValueModel::List(items)) && of_texts(items) && texts_in(items).len() > 0
                    ==> docs.contains_key(slot) && docs[slot] == joined(texts_in(items), " "@)
            &&& docs.contains_key(slot) ==> typed_at(edges, slot as int, rel_type) && value_at(
                edges,
                slot as int,
                property,
            ) is Some && (value_at(edges, slot as int, property)->0 is String || value_at(
                edges,
                slot as int,
                property,
            )->0 is List)
        }),
{
    a_document_is_the_whole_property(graph.topology.edges@, slot as int, rel_type, property);
}

pub(crate) proof fn documents_are_counted_upto(
    edges: Seq<Option<EdgeRecord>>,
    rel_type: Text,
    field: Text,
    count: nat,
)
    requires
        count <= edges.len(),
        edges.len() <= usize::MAX,
    ensures
        documents_upto(edges, rel_type, field, count as int).dom().finite(),
        documents_upto(edges, rel_type, field, count as int).dom().len() + textless_upto(
            edges,
            rel_type,
            field,
            count,
        ) == members_upto(edges, rel_type, count),
        members_upto(edges, rel_type, count) == typed_edges(
            edges.take(count as int),
            rel_type,
        ).len(),
    decreases count,
{
    let docs = documents_upto(edges, rel_type, field, count as int).dom();
    if count == 0 {
        assert(docs =~= Set::empty());
    } else {
        let k = (count - 1) as nat;
        documents_are_counted_upto(edges, rel_type, field, k);
        let less = documents_upto(edges, rel_type, field, k as int).dom();
        assert(edges.take(count as int).drop_last() =~= edges.take(k as int));
        assert(edges.take(count as int).last() == edges[k as int]);
        if slot_document(edges, k as int, rel_type, field) is Some {
            assert(docs =~= less.insert(k as usize));
            assert(!less.contains(k as usize));
        } else {
            assert(docs =~= less);
        }
    }
}

/// Every relationship of the type is indexed or counted as skipped, and none both.
pub proof fn every_relationship_is_indexed_or_skipped(
    graph: DirGraph,
    rel_type: Text,
    property: Text,
    given: Option<usize>,
)
    requires
        graph.topology.edges@.len() <= usize::MAX,
    ensures
        ({
            let built = text_built(graph, rel_type, property, given);
            built.docs.dom().len() + built.skipped == typed_edges(
                graph.topology.edges@,
                rel_type,
            ).len()
        }),
{
    let edges = graph.topology.edges@;
    documents_are_counted_upto(edges, rel_type, property, edges.len());
    assert(edges.take(edges.len() as int) =~= edges);
    members_fit(edges, rel_type, property, edges.len());
}

proof fn members_fit(edges: Seq<Option<EdgeRecord>>, rel_type: Text, field: Text, count: nat)
    ensures
        members_upto(edges, rel_type, count) <= count,
        textless_upto(edges, rel_type, field, count) <= count,
    decreases count,
{
    if count > 0 {
        members_fit(edges, rel_type, field, (count - 1) as nat);
    }
}

/// The relationships of a type come in slot order, each once, and they are just
/// the live ones of the type.
pub proof fn the_relationships_of_a_type_are_listed(
    edges: Seq<Option<EdgeRecord>>,
    rel_type: Text,
)
    requires
        edges.len() <= usize::MAX,
    ensures
        forall|i: int, j: int|
            0 <= i < j < typed_edges(edges, rel_type).len() ==> (#[trigger] typed_edges(
                edges,
                rel_type,
            )[i]).slot < (#[trigger] typed_edges(edges, rel_type)[j]).slot,
        forall|i: int|
            0 <= i < typed_edges(edges, rel_type).len() ==> typed_at(
                edges,
                (#[trigger] typed_edges(edges, rel_type)[i]).slot as int,
                rel_type,
            ),
        forall|slot: usize| #[trigger]
            typed_at(edges, slot as int, rel_type) ==> typed_edges(edges, rel_type).contains(
                EdgeIndex { slot },
            ),
    decreases edges.len(),
{
    if edges.len() > 0 {
        let rest = edges.drop_last();
        the_relationships_of_a_type_are_listed(rest, rel_type);
        let less = typed_edges(rest, rel_type);
        let all = typed_edges(edges, rel_type);
        let end = EdgeIndex { slot: (edges.len() - 1) as usize };
        assert forall|i: int| 0 <= i < all.len() implies typed_at(
            edges,
            (#[trigger] all[i]).slot as int,
            rel_type,
        ) by {
            if i < less.len() {
                assert(all[i] == less[i]);
                assert(typed_at(rest, less[i].slot as int, rel_type));
            } else {
                assert(all[i] == end);
            }
        }
        assert forall|i: int, j: int| 0 <= i < j < all.len() implies (#[trigger] all[i]).slot < (
        #[trigger] all[j]).slot by {
            assert(all[i] == less[i]);
            assert(typed_at(rest, less[i].slot as int, rel_type));
            if j < less.len() {
                assert(all[j] == less[j]);
            } else {
                assert(all[j] == end);
            }
        }
        assert forall|slot: usize| #[trigger]
            typed_at(edges, slot as int, rel_type) implies all.contains(EdgeIndex { slot }) by {
            if slot < rest.len() {
                assert(typed_at(rest, slot as int, rel_type));
                let i = less.index_of(EdgeIndex { slot });
                assert(all[i] == EdgeIndex { slot });
            } else {
                assert(all[less.len() as int] == EdgeIndex { slot });
            }
        }
    }
}

/// Letters and digits of the Latin alphabet make up words, and so does every
/// character beyond it; nothing else does.
pub proof fn letters_and_digits_make_words(c: char)
    ensures
        in_word(c) <==> {
            ||| 48 <= c as u32 <= 57
            ||| 65 <= c as u32 <= 90
            ||| 97 <= c as u32 <= 122
            ||| c as u32 >= 128
        },
{
}

/// A text of letters alone is one word, and an empty text has none.
pub proof fn letters_alone_are_one_word(text: Text)
    requires
        forall|i: int| 0 <= i < text.len() ==> in_word(#[trigger] text[i]),
    ensures
        words_of(text) == if text.len() > 0 {
            seq![text]
        } else {
            Seq::empty()
        },
{
    letters_gather(text, text.len());
    assert(text.take(text.len() as int) =~= text);
    if text.len() > 0 {
        assert(words_of(text) =~= seq![text]);
    }
}

proof fn letters_gather(text: Text, count: nat)
    requires
        count <= text.len(),
        forall|i: int| 0 <= i < text.len() ==> in_word(#[trigger] text[i]),
    ensures
        words_upto(text, count) == (Seq::<Text>::empty(), text.take(count as int)),
    decreases count,
{
    if count > 0 {
        letters_gather(text, (count - 1) as nat);
        assert(text.take(count as int - 1).push(text[count - 1]) =~= text.take(count as int));
    } else {
        assert(text.take(0) =~= Seq::<char>::empty());
    }
}

proof fn words_need_only_what_came(a: Text, b: Text, count: nat)
    requires
        count <= a.len(),
        count <= b.len(),
        forall|i: int| 0 <= i < count ==> a[i] == b[i],
    ensures
        words_upto(a, count) == words_upto(b, count),
    decreases count,
{
    if count > 0 {
        words_need_only_what_came(a, b, (count - 1) as nat);
    }
}

proof fn words_after_a_gap(a: Text, gap: char, b: Text, count: nat)
    requires
        !in_word(gap),
        count <= b.len(),
    ensures
        ({
            let whole = a + seq![gap] + b;
            let (words, word) = words_upto(b, count);
            words_upto(whole, a.len() + 1 + count) == (words_of(a) + words, word)
        }),
    decreases count,
{
    let whole = a + seq![gap] + b;
    if count == 0 {
        words_need_only_what_came(whole, a, a.len());
        assert(whole[a.len() as int] == gap);
        let (words, word) = words_upto(a, a.len());
        assert(words_upto(whole, a.len()) == (words, word));
        assert(words_of(a) + Seq::<Text>::empty() =~= words_of(a));
        assert(word.len() == 0 ==> word =~= Seq::<char>::empty());
    } else {
        words_after_a_gap(a, gap, b, (count - 1) as nat);
        assert(whole[(a.len() + count) as int] == b[count - 1]);
        let (words, word) = words_upto(b, (count - 1) as nat);
        assert((words_of(a) + words).push(word) =~= words_of(a) + words.push(word));
    }
}

/// What is no letter ends a word: the words of two texts with such a character
/// between them are those of the first and then those of the second.
pub proof fn a_gap_ends_a_word(a: Text, gap: char, b: Text)
    requires
        !in_word(gap),
    ensures
        words_of(a + seq![gap] + b) == words_of(a) + words_of(b),
{
    words_after_a_gap(a, gap, b, b.len());
    let (words, word) = words_upto(b, b.len());
    assert((words_of(a) + words).push(word) =~= words_of(a) + words.push(word));
}

/// The words of the first `count` slots are those of the documents in them.
pub proof fn terms_are_the_words_of_documents(
    edges: Seq<Option<EdgeRecord>>,
    rel_type: Text,
    field: Text,
    count: nat,
    term: Text,
)
    ensures
        terms_upto(edges, rel_type, field, count).contains(term) <==> exists|slot: int|
            0 <= slot < count && (#[trigger] slot_document(edges, slot, rel_type, field)) is Some
                && words_of(slot_document(edges, slot, rel_type, field)->0).contains(term),
    decreases count,
{
    if count > 0 {
        terms_are_the_words_of_documents(edges, rel_type, field, (count - 1) as nat, term);
        let document = slot_document(edges, count - 1, rel_type, field);
        if terms_upto(edges, rel_type, field, count).contains(term) {
            if !terms_upto(edges, rel_type, field, (count - 1) as nat).contains(term) {
                assert(document is Some && words_of(document->0).contains(term));
            }
        }
    }
}

/// A query may fold in as many slots as were asked for when the index was built,
/// else as many as the index that stood there before, else the default.
pub proof fn the_limit_of_an_index_stays(
    graph: DirGraph,
    rel_type: Text,
    property: Text,
    limit: usize,
)
    ensures
        text_built(graph, rel_type, property, Some(limit)).freshness.limit == limit,
        lookup(graph.edge_text_indexes@, rel_type, property) is Some ==> text_built(
            graph,
            rel_type,
            property,
            None,
        ).freshness.limit == lookup(graph.edge_text_indexes@, rel_type, property)->0.freshness.limit,
{
}

/// What is outstanding is the number of slots that are to be read again: those
/// that changed, and those that came after the index was built.
pub proof fn outstanding_slots_are_those_to_read(freshness: FreshnessModel, bound: usize)
    requires
        freshness.changed.finite(),
        forall|s: usize| #[trigger] freshness.changed.contains(s) ==> s < freshness.covered,
    ensures
        delta_slots(freshness, bound as nat).finite(),
        outstanding(freshness, bound as nat) == delta_slots(freshness, bound as nat).len(),
    decreases bound,
{
    if bound <= freshness.covered {
        assert(delta_slots(freshness, bound as nat) =~= freshness.changed);
    } else {
        let less = (bound - 1) as usize;
        outstanding_slots_are_those_to_read(freshness, less);
        assert(delta_slots(freshness, bound as nat) =~= delta_slots(
            freshness,
            less as nat,
        ).insert(less));
        assert(!delta_slots(freshness, less as nat).contains(less));
    }
}

/// A slot that was touched is to be read again, and touching one leaves what was
/// to be read. After everything was read nothing is.
pub proof fn a_touched_slot_is_read_again(freshness: FreshnessModel, slot: usize, bound: usize)
    ensures
        slot < bound ==> delta_slots(touched(freshness, slot), bound as nat).contains(slot),
        forall|s: usize|
            s != slot ==> (#[trigger] delta_slots(touched(freshness, slot), bound as nat).contains(
                s,
            ) <==> delta_slots(freshness, bound as nat).contains(s)),
        touched(freshness, slot).limit == freshness.limit,
        delta_slots(covering_model(bound, freshness.limit), bound as nat)
            == Set::<usize>::empty(),
        covering_model(bound, freshness.limit).limit == freshness.limit,
{
    assert(delta_slots(covering_model(bound, freshness.limit), bound as nat) =~= Set::empty());
}

} // verus!
