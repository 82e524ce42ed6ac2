//! Pairs of names — a type and a column — in order.

use crate::catalog::{kept, place_is_first, Catalog, EntryModel};
use crate::names::{
    column_of, column_or_name, listed_column, read_columns_make_the_store, store_name_of,
};
use crate::order::{ascending, ascending_of_items, ascends, ascends_with, is_order};
use crate::text::{
    lex_le, lex_le_antisymmetric, lex_le_total, lex_le_transitive, text_eq, text_le, Text,
};
use vstd::prelude::*;

verus! {

/// A type and a column.
pub type NamePair = (String, String);

/// What pairs say.
pub open spec fn pair_texts(pairs: Seq<NamePair>) -> Seq<(Text, Text)> {
    Seq::new(pairs.len(), |i: int| (pairs[i].0@, pairs[i].1@))
}

/// Whether a pair comes no later than another: by type, then by column.
pub open spec fn names_le(a: (Text, Text), b: (Text, Text)) -> bool {
    if a.0 == b.0 {
        lex_le(a.1, b.1)
    } else {
        lex_le(a.0, b.0)
    }
}

/// The order of pairs.
pub open spec fn name_order() -> spec_fn((Text, Text), (Text, Text)) -> bool {
    |a: (Text, Text), b: (Text, Text)| names_le(a, b)
}

/// The order of pairs orders every two pairs one way.
pub proof fn name_order_is_order()
    ensures
        is_order(name_order()),
{
    let le = name_order();
    assert forall|a: (Text, Text), b: (Text, Text)| #![trigger le(a, b)] le(a, b) || le(b, a) by {
        lex_le_total(a.0, b.0);
        lex_le_total(a.1, b.1);
    }
    assert forall|a: (Text, Text), b: (Text, Text)|
        #![trigger le(a, b), le(b, a)]
        le(a, b) && le(b, a) implies a == b by {
        if a.0 == b.0 {
            lex_le_antisymmetric(a.1, b.1);
        } else {
            lex_le_antisymmetric(a.0, b.0);
        }
    }
    assert forall|a: (Text, Text), b: (Text, Text), c: (Text, Text)|
        #![trigger le(a, b), le(b, c)]
        le(a, b) && le(b, c) implies le(a, c) by {
        if a.0 == b.0 && b.0 == c.0 {
            lex_le_transitive(a.1, b.1, c.1);
        } else if a.0 != b.0 && b.0 != c.0 {
            lex_le_transitive(a.0, b.0, c.0);
            if a.0 == c.0 {
                lex_le_antisymmetric(a.0, b.0);
            }
        }
    }
}

/// Whether a pair comes no later than another.
pub fn pair_le(left: (&str, &str), right: (&str, &str)) -> (le: bool)
    ensures
        le == names_le((left.0@, left.1@), (right.0@, right.1@)),
{
    if text_eq(left.0, right.0) {
        text_le(left.1, right.1)
    } else {
        text_le(left.0, right.0)
    }
}

/// Puts a pair into an ascending list, once.
pub fn insert_names(items: &mut Vec<NamePair>, first: &str, second: &str)
    requires
        ascends(pair_texts(old(items)@), name_order()),
    ensures
        ascends(pair_texts(final(items)@), name_order()),
        pair_texts(final(items)@).to_set() == pair_texts(old(items)@).to_set().insert(
            (first@, second@),
        ),
{
    let mut at: usize = 0;
    while at < items.len() && !pair_le(
        (first, second),
        (items[at].0.as_str(), items[at].1.as_str()),
    )
        invariant
            at <= items@.len(),
            items@ == old(items)@,
            forall|k: int|
                0 <= k < at ==> !names_le(
                    (first@, second@),
                    #[trigger] pair_texts(items@)[k],
                ),
        decreases items@.len() - at,
    {
        at = at + 1;
    }
    let ghost before = pair_texts(items@);
    if at < items.len() && text_eq(items[at].0.as_str(), first) && text_eq(
        items[at].1.as_str(),
        second,
    ) {
        assert(before[at as int] == (first@, second@));
        assert(before.contains((first@, second@)));
        assert(before.to_set() =~= before.to_set().insert((first@, second@)));
        return ;
    }
    items.insert(at, (first.to_owned(), second.to_owned()));
    proof {
        name_order_is_order();
        ascends_with(before, at as int, (first@, second@), name_order());
        assert(pair_texts(items@) =~= before.insert(at as int, (first@, second@)));
    }
}

/// The types and text columns of the first `count` stores.
pub open spec fn pairs_kept<V>(entries: Seq<EntryModel<V>>, count: int) -> Set<(Text, Text)> {
    Set::new(
        |p: (Text, Text)|
            exists|i: int|
                0 <= i < count && (#[trigger] entries[i]).owner_type == p.0 && listed_column(
                    entries[i].name,
                ) == p.1,
    )
}

/// The types and text columns that have a store, in order.
pub open spec fn stores_on<V>(entries: Seq<EntryModel<V>>) -> Seq<(Text, Text)> {
    ascending(pairs_kept(entries, entries.len() as int), name_order())
}

/// The types and text columns that have a store, in order.
pub fn listed_stores<S: View>(catalog: &Catalog<S>) -> (pairs: Vec<NamePair>)
    ensures
        pair_texts(pairs@) == stores_on(catalog@),
        ascends(pair_texts(pairs@), name_order()),
        pair_texts(pairs@).to_set() == pairs_kept(catalog@, catalog@.len() as int),
{
    let mut pairs: Vec<NamePair> = Vec::new();
    assert(pair_texts(pairs@).to_set() =~= pairs_kept(catalog@, 0));
    let mut i: usize = 0;
    while i < catalog.entries.len()
        invariant
            i <= catalog.entries@.len(),
            ascends(pair_texts(pairs@), name_order()),
            pair_texts(pairs@).to_set() == pairs_kept(catalog@, i as int),
        decreases catalog.entries@.len() - i,
    {
        let column = column_or_name(catalog.entries[i].name.as_str());
        insert_names(&mut pairs, catalog.entries[i].owner_type.as_str(), column.as_str());
        proof {
            let entry = catalog@[i as int];
            let pair = (entry.owner_type, listed_column(entry.name));
            assert(pairs_kept(catalog@, i + 1) =~= pairs_kept(catalog@, i as int).insert(pair)) by {
                assert forall|p: (Text, Text)|
                    pairs_kept(catalog@, i + 1).contains(p) <==> pairs_kept(
                        catalog@,
                        i as int,
                    ).insert(pair).contains(p) by {
                    if p == pair {
                        assert(catalog@[i as int].owner_type == p.0);
                    }
                }
            }
        }
        i = i + 1;
    }
    proof {
        name_order_is_order();
        ascending_of_items(pair_texts(pairs@), name_order());
    }
    pairs
}

/// The columns of a type, as they come.
pub open spec fn columns_under(pairs: Seq<(Text, Text)>, owner_type: Text, count: nat) -> Seq<Text>
    decreases count,
{
    if count == 0 {
        Seq::empty()
    } else {
        let before = columns_under(pairs, owner_type, (count - 1) as nat);
        if pairs[count - 1].0 == owner_type {
            before.push(pairs[count - 1].1)
        } else {
            before
        }
    }
}

/// The types of a column, as they come.
pub open spec fn types_over(pairs: Seq<(Text, Text)>, column: Text, count: nat) -> Seq<Text>
    decreases count,
{
    if count == 0 {
        Seq::empty()
    } else {
        let before = types_over(pairs, column, (count - 1) as nat);
        if pairs[count - 1].1 == column {
            before.push(pairs[count - 1].0)
        } else {
            before
        }
    }
}

/// The columns of a type, as they come.
pub fn columns_of_pairs(pairs: &Vec<NamePair>, owner_type: &str) -> (columns: Vec<String>)
    ensures
        crate::text::texts(columns@) == columns_under(
            pair_texts(pairs@),
            owner_type@,
            pairs@.len(),
        ),
{
    let mut columns: Vec<String> = Vec::new();
    let mut i: usize = 0;
    while i < pairs.len()
        invariant
            i <= pairs@.len(),
            crate::text::texts(columns@) == columns_under(
                pair_texts(pairs@),
                owner_type@,
                i as nat,
            ),
        decreases pairs@.len() - i,
    {
        if text_eq(pairs[i].0.as_str(), owner_type) {
            let ghost before = columns@;
            let column = pairs[i].1.as_str().to_owned();
            columns.push(column);
            assert(crate::text::texts(columns@) =~= crate::text::texts(before).push(column@));
        }
        i = i + 1;
    }
    columns
}

/// The types of a column, as they come.
pub fn types_of_pairs(pairs: &Vec<NamePair>, column: &str) -> (types: Vec<String>)
    ensures
        crate::text::texts(types@) == types_over(pair_texts(pairs@), column@, pairs@.len()),
{
    let mut types: Vec<String> = Vec::new();
    let mut i: usize = 0;
    while i < pairs.len()
        invariant
            i <= pairs@.len(),
            crate::text::texts(types@) == types_over(pair_texts(pairs@), column@, i as nat),
        decreases pairs@.len() - i,
    {
        if text_eq(pairs[i].1.as_str(), column) {
            let ghost before = types@;
            let name = pairs[i].0.as_str().to_owned();
            types.push(name);
            assert(crate::text::texts(types@) =~= crate::text::texts(before).push(name@));
        }
        i = i + 1;
    }
    types
}

/// Whether a list holds a pair.
pub fn holds_pair(pairs: &Vec<NamePair>, first: &str, second: &str) -> (holds: bool)
    ensures
        holds == pair_texts(pairs@).contains((first@, second@)),
{
    let mut i: usize = 0;
    while i < pairs.len()
        invariant
            i <= pairs@.len(),
            forall|k: int|
                0 <= k < i ==> #[trigger] pair_texts(pairs@)[k] != (first@, second@),
        decreases pairs@.len() - i,
    {
        if text_eq(pairs[i].0.as_str(), first) && text_eq(pairs[i].1.as_str(), second) {
            assert(pair_texts(pairs@)[i as int] == (first@, second@));
            return true;
        }
        i = i + 1;
    }
    false
}

/// The types and store names of the first `count` stores.
pub open spec fn keys_kept<V>(entries: Seq<EntryModel<V>>, count: int) -> Set<(Text, Text)> {
    Set::new(
        |p: (Text, Text)|
            exists|i: int|
                0 <= i < count && (#[trigger] entries[i]).owner_type == p.0 && entries[i].name
                    == p.1,
    )
}

/// The types and store names that have a store, in order.
pub open spec fn keys_on<V>(entries: Seq<EntryModel<V>>) -> Seq<(Text, Text)> {
    ascending(keys_kept(entries, entries.len() as int), name_order())
}

/// The types and store names that have a store, in order.
pub fn listed_keys<S: View>(catalog: &Catalog<S>) -> (keys: Vec<NamePair>)
    ensures
        pair_texts(keys@) == keys_on(catalog@),
        ascends(pair_texts(keys@), name_order()),
        pair_texts(keys@).to_set() == keys_kept(catalog@, catalog@.len() as int),
{
    let mut keys: Vec<NamePair> = Vec::new();
    assert(pair_texts(keys@).to_set() =~= keys_kept(catalog@, 0));
    let mut i: usize = 0;
    while i < catalog.entries.len()
        invariant
            i <= catalog.entries@.len(),
            ascends(pair_texts(keys@), name_order()),
            pair_texts(keys@).to_set() == keys_kept(catalog@, i as int),
        decreases catalog.entries@.len() - i,
    {
        insert_names(
            &mut keys,
            catalog.entries[i].owner_type.as_str(),
            catalog.entries[i].name.as_str(),
        );
        proof {
            let entry = catalog@[i as int];
            let key = (entry.owner_type, entry.name);
            assert(keys_kept(catalog@, i + 1) =~= keys_kept(catalog@, i as int).insert(key)) by {
                assert forall|p: (Text, Text)|
                    keys_kept(catalog@, i + 1).contains(p) <==> keys_kept(
                        catalog@,
                        i as int,
                    ).insert(key).contains(p) by {
                    if p == key {
                        assert(catalog@[i as int].owner_type == p.0);
                    }
                }
            }
        }
        i = i + 1;
    }
    proof {
        name_order_is_order();
        ascending_of_items(pair_texts(keys@), name_order());
    }
    keys
}

/// An entry's key has a store.
pub proof fn entries_are_kept<V>(entries: Seq<EntryModel<V>>, at: int)
    requires
        0 <= at < entries.len(),
    ensures
        kept(entries, entries[at].owner_type, entries[at].name),
{
    place_is_first(entries, entries[at].owner_type, entries[at].name);
}

/// A listed key has a store.
pub proof fn listed_keys_are_kept<V>(entries: Seq<EntryModel<V>>, pair: (Text, Text))
    requires
        keys_kept(entries, entries.len() as int).contains(pair),
    ensures
        kept(entries, pair.0, pair.1),
{
    let i = choose|i: int|
        0 <= i < entries.len() && (#[trigger] entries[i]).owner_type == pair.0 && entries[i].name
            == pair.1;
    entries_are_kept(entries, i);
}

/// A listed pair has a store, where every store is named for its text column.
pub proof fn listed_pairs_are_kept<V>(entries: Seq<EntryModel<V>>, pair: (Text, Text))
    requires
        forall|i: int| 0 <= i < entries.len() ==> column_of((#[trigger] entries[i]).name) is Some,
    ensures
        pairs_kept(entries, entries.len() as int).contains(pair) <==> kept(
            entries,
            pair.0,
            store_name_of(pair.1),
        ),
{
    if pairs_kept(entries, entries.len() as int).contains(pair) {
        let i = choose|i: int|
            0 <= i < entries.len() && (#[trigger] entries[i]).owner_type == pair.0
                && listed_column(entries[i].name) == pair.1;
        read_columns_make_the_store(entries[i].name);
        entries_are_kept(entries, i);
    }
    if kept(entries, pair.0, store_name_of(pair.1)) {
        place_is_first(entries, pair.0, store_name_of(pair.1));
        let i = crate::catalog::entry_place(entries, pair.0, store_name_of(pair.1));
        crate::names::store_names_read_back(pair.1);
        assert(entries[i].owner_type == pair.0 && listed_column(entries[i].name) == pair.1);
    }
}

} // verus!
