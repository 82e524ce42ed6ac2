//! What a relationship text index reads: the document of each relationship.

use crate::graph::DirGraph;
use crate::text::{chars_of, join, joined, text_eq, texts, Text};
use crate::text_index::TextIndex;
use crate::topology::{property_in, EdgeData, EdgeRecord};
use crate::value::{models, EdgeIndex, Value, ValueModel};
use vstd::hash_set::StringHashSet;
use vstd::prelude::*;

verus! {

/// The texts among the first `count` items of a list, or `None` where an item
/// is neither a text nor null.
pub open spec fn texts_among(items: Seq<ValueModel>, count: nat) -> Option<Seq<Text>>
    decreases count,
{
    if count == 0 {
        Some(Seq::empty())
    } else {
        match texts_among(items, (count - 1) as nat) {
            None => None,
            Some(before) => match items[count - 1] {
                ValueModel::String(text) => Some(before.push(text)),
                ValueModel::Null => Some(before),
                _ => None,
            },
        }
    }
}

/// A list as a document: its texts with a space between them.
pub open spec fn list_document(items: Seq<ValueModel>) -> Option<Text> {
    match texts_among(items, items.len()) {
        Some(found) => if found.len() > 0 {
            Some(joined(found, " "@))
        } else {
            None
        },
        None => None,
    }
}

/// A value as a document: a text, or a list of texts and nulls.
pub open spec fn value_document(value: ValueModel) -> Option<Text> {
    match value {
        ValueModel::String(text) => Some(text),
        ValueModel::List(items) => list_document(items),
        _ => None,
    }
}

proof fn no_texts_stays(items: Seq<ValueModel>, count: nat, upto: nat)
    requires
        count <= upto,
        texts_among(items, count) is None,
    ensures
        texts_among(items, upto) is None,
    decreases upto - count,
{
    if count < upto {
        no_texts_stays(items, count, (upto - 1) as nat);
    }
}

/// A list as a document.
pub fn join_text_list(items: &Vec<Value>) -> (document: Option<String>)
    ensures
        match document {
            Some(text) => list_document(models(items@)) == Some(text@),
            None => list_document(models(items@)) is None,
        },
{
    let ghost values = models(items@);
    let mut found: Vec<String> = Vec::new();
    assert(texts(found@) =~= Seq::<Text>::empty());
    let mut i: usize = 0;
    while i < items.len()
        invariant
            i <= items@.len(),
            values == models(items@),
            texts_among(values, i as nat) == Some(texts(found@)),
        decreases items@.len() - i,
    {
        let ghost before = found@;
        assert(values[i as int] == items@[i as int]@);
        match &items[i] {
            Value::String(text) => {
                found.push(text.as_str().to_owned());
                assert(texts(found@) =~= texts(before).push(text@));
            },
            Value::Null => {},
            _ => {
                proof {
                    assert(texts_among(values, (i + 1) as nat) is None);
                    no_texts_stays(values, (i + 1) as nat, values.len());
                }
                return None;
            },
        }
        i = i + 1;
    }
    assert(texts(found@).len() == found@.len());
    if found.len() == 0 {
        return None;
    }
    Some(join(&found, " "))
}

/// A relationship's document in a property.
pub open spec fn document_of(data: EdgeData, field: Text) -> Option<Text> {
    match property_in(data.properties@, field) {
        Some(value) => value_document(value),
        None => None,
    }
}

/// A relationship's document in a property.
pub fn edge_document(data: &EdgeData, field: &str) -> (document: Option<String>)
    ensures
        match document {
            Some(text) => document_of(*data, field@) == Some(text@),
            None => document_of(*data, field@) is None,
        },
{
    match data.get_property(field) {
        Some(Value::String(text)) => Some(text.as_str().to_owned()),
        Some(Value::List(items)) => {
            assert(Value::List(*items)@ == ValueModel::List(models(items@))) by {
                assert(Value::List(*items)@->List_0 =~= models(items@));
            }
            join_text_list(items)
        },
        _ => None,
    }
}

/// The document in a slot, for an index over a type and a property: none where
/// the slot is vacant or holds another type.
pub open spec fn slot_document(
    edges: Seq<Option<EdgeRecord>>,
    slot: int,
    rel_type: Text,
    field: Text,
) -> Option<Text> {
    if 0 <= slot < edges.len() && edges[slot] is Some
        && edges[slot]->0.data.connection_type@ == rel_type {
        document_of(edges[slot]->0.data, field)
    } else {
        None
    }
}

/// The document in a slot.
pub fn read_slot(graph: &DirGraph, slot: usize, rel_type: &str, field: &str) -> (document: Option<
    String,
>)
    ensures
        match document {
            Some(text) => slot_document(
                graph.topology.edges@,
                slot as int,
                rel_type@,
                field@,
            ) == Some(text@),
            None => slot_document(
                graph.topology.edges@,
                slot as int,
                rel_type@,
                field@,
            ) is None,
        },
{
    match graph.topology.edge_weight(EdgeIndex::new(slot)) {
        Some(data) => if text_eq(data.connection_type.as_str(), rel_type) {
            edge_document(data, field)
        } else {
            None
        },
        None => None,
    }
}

/// The documents in the first `count` slots.
pub open spec fn documents_upto(
    edges: Seq<Option<EdgeRecord>>,
    rel_type: Text,
    field: Text,
    count: int,
) -> Map<usize, Text> {
    Map::new(
        |s: usize| s < count && slot_document(edges, s as int, rel_type, field) is Some,
        |s: usize| slot_document(edges, s as int, rel_type, field)->0,
    )
}

/// Every document of a type and a property.
pub open spec fn all_documents(edges: Seq<Option<EdgeRecord>>, rel_type: Text, field: Text) -> Map<
    usize,
    Text,
> {
    documents_upto(edges, rel_type, field, edges.len() as int)
}

/// The relationships of a type among the first `count` slots.
pub open spec fn members_upto(edges: Seq<Option<EdgeRecord>>, rel_type: Text, count: nat) -> nat
    decreases count,
{
    if count == 0 {
        0
    } else {
        members_upto(edges, rel_type, (count - 1) as nat) + if edges[count - 1] is Some
            && edges[count - 1]->0.data.connection_type@ == rel_type {
            1nat
        } else {
            0nat
        }
    }
}

/// The relationships of a type without a document among the first `count`
/// slots.
pub open spec fn textless_upto(
    edges: Seq<Option<EdgeRecord>>,
    rel_type: Text,
    field: Text,
    count: nat,
) -> nat
    decreases count,
{
    if count == 0 {
        0
    } else {
        textless_upto(edges, rel_type, field, (count - 1) as nat) + if edges[count - 1] is Some
            && edges[count - 1]->0.data.connection_type@ == rel_type && slot_document(
            edges,
            count - 1,
            rel_type,
            field,
        ) is None {
            1nat
        } else {
            0nat
        }
    }
}

/// A letter of a word.
pub open spec fn in_word(c: char) -> bool {
    ('0' <= c && c <= '9') || ('A' <= c && c <= 'Z') || ('a' <= c && c <= 'z') || c >= '\u{80}'
}

/// The words that end within the first `count` letters, and the word that does
/// not end yet.
pub open spec fn words_upto(text: Text, count: nat) -> (Seq<Text>, Text)
    decreases count,
{
    if count == 0 {
        (Seq::empty(), Seq::empty())
    } else {
        let (words, word) = words_upto(text, (count - 1) as nat);
        if in_word(text[count - 1]) {
            (words, word.push(text[count - 1]))
        } else if word.len() > 0 {
            (words.push(word), Seq::empty())
        } else {
            (words, word)
        }
    }
}

/// The words of a text, in order.
pub open spec fn words_of(text: Text) -> Seq<Text> {
    let (words, word) = words_upto(text, text.len());
    if word.len() > 0 {
        words.push(word)
    } else {
        words
    }
}

/// The words of the documents in the first `count` slots.
pub open spec fn terms_upto(
    edges: Seq<Option<EdgeRecord>>,
    rel_type: Text,
    field: Text,
    count: nat,
) -> Set<Text>
    decreases count,
{
    if count == 0 {
        Set::empty()
    } else {
        let before = terms_upto(edges, rel_type, field, (count - 1) as nat);
        match slot_document(edges, count - 1, rel_type, field) {
            Some(text) => before.union(words_of(text).to_set()),
            None => before,
        }
    }
}

/// The words of a text, in order.
pub fn words(text: &str) -> (found: Vec<String>)
    ensures
        texts(found@) == words_of(text@),
{
    let letters = chars_of(text);
    let mut found: Vec<String> = Vec::new();
    let mut word = String::new();
    let mut i: usize = 0;
    assert(texts(found@) =~= Seq::<Text>::empty());
    assert(word@ =~= Seq::<char>::empty());
    while i < letters.len()
        invariant
            i <= letters@.len(),
            letters@ == text@,
            word@ == words_upto(text@, i as nat).1,
            texts(found@) == words_upto(text@, i as nat).0,
        decreases letters@.len() - i,
    {
        let c: char = letters[i];
        let ghost (ended, part) = words_upto(text@, i as nat);
        if ('0' <= c && c <= '9') || ('A' <= c && c <= 'Z') || ('a' <= c && c <= 'z') || c
            >= '\u{80}' {
            word.push(c);
            assert(word@ =~= part.push(c));
        } else if !word.as_str().is_empty() {
            found.push(word);
            word = String::new();
            assert(word@ =~= Seq::<char>::empty());
            assert(texts(found@) =~= ended.push(part));
        }
        i = i + 1;
    }
    let ghost (ended, part) = words_upto(text@, text@.len());
    if !word.as_str().is_empty() {
        found.push(word);
        assert(texts(found@) =~= ended.push(part));
    }
    found
}

fn add_words(terms: &mut StringHashSet, text: &str)
    ensures
        final(terms)@ == old(terms)@.union(words_of(text@).to_set()),
{
    let mut left = words(text);
    let ghost before = terms@;
    let ghost all = words_of(text@);
    assert(all.take(all.len() as int) =~= all);
    assert(before.union(all.skip(all.len() as int).to_set()) =~= before);
    while left.len() > 0
        invariant
            left@.len() <= all.len(),
            texts(left@) == all.take(left@.len() as int),
            terms@ == before.union(all.skip(left@.len() as int).to_set()),
        decreases left@.len(),
    {
        let ghost count = left@.len();
        if let Some(word) = left.pop() {
            let ghost kept = all.skip(count as int);
            let ghost more = all.skip(count - 1);
            assert(texts(left@) =~= all.take(count - 1));
            assert(word@ == all[count - 1]) by {
                assert(all.take(count as int)[count - 1] == all[count - 1]);
            }
            terms.insert(word);
            assert(more =~= seq![all[count - 1]] + kept);
            assert(more.to_set() =~= kept.to_set().insert(all[count - 1])) by {
                assert forall|w: Text| more.contains(w) <==> kept.to_set().insert(
                    all[count - 1],
                ).contains(w) by {
                    if more.contains(w) {
                        let k = more.index_of(w);
                        assert(k == 0 || kept[k - 1] == w);
                    }
                    if kept.contains(w) {
                        let k = kept.index_of(w);
                        assert(more[k + 1] == w);
                    }
                    assert(more[0] == all[count - 1]);
                }
            }
            assert(terms@ =~= before.union(more.to_set()));
        }
    }
    assert(all.skip(0) =~= all);
}

/// A built index, the relationships of the type, those without a document, and
/// the words of all documents.
pub struct BuiltIndex {
    /// The documents.
    pub index: TextIndex,
    /// The relationships of the type.
    pub members: usize,
    /// The relationships without a document.
    pub skipped: usize,
    /// The distinct words.
    pub terms: usize,
}

/// Reads every document of a type and a property.
pub fn build_over_type(graph: &DirGraph, rel_type: &str, field: &str) -> (built: BuiltIndex)
    ensures
        built.index@ == all_documents(graph.topology.edges@, rel_type@, field@),
        built.members == members_upto(
            graph.topology.edges@,
            rel_type@,
            graph.topology.edges@.len(),
        ),
        built.skipped == textless_upto(
            graph.topology.edges@,
            rel_type@,
            field@,
            graph.topology.edges@.len(),
        ),
        built.terms == terms_upto(
            graph.topology.edges@,
            rel_type@,
            field@,
            graph.topology.edges@.len(),
        ).len(),
{
    let ghost edges = graph.topology.edges@;
    let bound: usize = graph.topology.edges.len();
    let mut index = TextIndex::new();
    let mut members: usize = 0;
    let mut skipped: usize = 0;
    let mut terms = StringHashSet::new();
    let mut slot: usize = 0;
    assert(index@ =~= documents_upto(edges, rel_type@, field@, 0));
    assert(terms@ =~= terms_upto(edges, rel_type@, field@, 0));
    while slot < bound
        invariant
            slot <= bound,
            bound == edges.len(),
            edges == graph.topology.edges@,
            members <= slot,
            skipped <= slot,
            index@ == documents_upto(edges, rel_type@, field@, slot as int),
            members == members_upto(edges, rel_type@, slot as nat),
            skipped == textless_upto(edges, rel_type@, field@, slot as nat),
            terms@ == terms_upto(edges, rel_type@, field@, slot as nat),
        decreases bound - slot,
    {
        if let Some(data) = graph.topology.edge_weight(EdgeIndex::new(slot)) {
            if text_eq(data.connection_type.as_str(), rel_type) {
                members = members + 1;
                match edge_document(data, field) {
                    Some(text) => {
                        index.add_doc(slot, text.as_str());
                        add_words(&mut terms, text.as_str());
                    },
                    None => {
                        skipped = skipped + 1;
                    },
                }
            }
        }
        assert(index@ =~= documents_upto(edges, rel_type@, field@, slot + 1));
        slot = slot + 1;
    }
    BuiltIndex { index, members, skipped, terms: terms.len() }
}

} // verus!
