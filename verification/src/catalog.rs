//! Stores by the type and the name they are kept under.
use vstd::prelude::*;
use crate::text::{text_eq, Text};

verus! {

/// One kept store.
#[derive(Debug, Clone)]
pub struct Entry<S> {
    /// The type it is kept for.
    pub owner_type: String,
    /// The name it is kept under.
    pub name: String,
    /// The store.
    pub store: S,
}

/// Stores by type and name, in the order they were first kept.
#[derive(Debug, Clone)]
pub struct Catalog<S> {
    /// The stores.
    pub entries: Vec<Entry<S>>,
}

/// What is kept of one store.
pub struct EntryModel<V> {
    pub owner_type: Text,
    pub name: Text,
    pub store: V,
}

/// The place of the entry for a type and a name; the length where there is none.
pub open spec fn entry_place<V>(entries: Seq<EntryModel<V>>, owner_type: Text, name: Text) -> int
    decreases entries.len(),
{
    if entries.len() == 0 {
        0
    } else if entries[0].owner_type == owner_type && entries[0].name == name {
        0
    } else {
        1 + entry_place(entries.drop_first(), owner_type, name)
    }
}

/// A store is kept for the type and the name.
pub open spec fn kept<V>(entries: Seq<EntryModel<V>>, owner_type: Text, name: Text) -> bool {
    entry_place(entries, owner_type, name) < entries.len()
}

/// The store kept for a type and a name.
pub open spec fn lookup<V>(entries: Seq<EntryModel<V>>, owner_type: Text, name: Text) -> Option<V> {
    if kept(entries, owner_type, name) {
        Some(entries[entry_place(entries, owner_type, name)].store)
    } else {
        None
    }
}

/// The entries with a store kept for the type and the name: in the place of
/// the one that was, or after the others.
pub open spec fn with_entry<V>(
    entries: Seq<EntryModel<V>>,
    owner_type: Text,
    name: Text,
    store: V,
) -> Seq<EntryModel<V>> {
    let entry = EntryModel { owner_type, name, store };
    if kept(entries, owner_type, name) {
        entries.update(entry_place(entries, owner_type, name), entry)
    } else {
        entries.push(entry)
    }
}

/// The entries without the one for the type and the name.
pub open spec fn without_entry<V>(
    entries: Seq<EntryModel<V>>,
    owner_type: Text,
    name: Text,
) -> Seq<EntryModel<V>> {
    if kept(entries, owner_type, name) {
        entries.remove(entry_place(entries, owner_type, name))
    } else {
        entries
    }
}

/// The entries with the kept store set, or none kept.
pub open spec fn with_optional_entry<V>(
    entries: Seq<EntryModel<V>>,
    owner_type: Text,
    name: Text,
    store: Option<V>,
) -> Seq<EntryModel<V>> {
    match store {
        Some(s) => with_entry(entries, owner_type, name, s),
        None => without_entry(entries, owner_type, name),
    }
}

/// No type and name have two entries.
pub open spec fn keys_distinct<V>(entries: Seq<EntryModel<V>>) -> bool {
    forall|i: int, j: int|
        0 <= i < j < entries.len() ==> !((#[trigger] entries[i]).owner_type == (
        #[trigger] entries[j]).owner_type && entries[i].name == entries[j].name)
}

/// The place of an entry is that of the first one with its type and name.
pub proof fn place_is_first<V>(entries: Seq<EntryModel<V>>, owner_type: Text, name: Text)
    ensures
        0 <= entry_place(entries, owner_type, name) <= entries.len(),
        kept(entries, owner_type, name) ==> entries[entry_place(entries, owner_type, name)].owner_type
            == owner_type && entries[entry_place(entries, owner_type, name)].name == name,
        forall|k: int|
            0 <= k < entry_place(entries, owner_type, name) ==> !((#[trigger] entries[k]).owner_type
                == owner_type && entries[k].name == name),
    decreases entries.len(),
{
    if entries.len() > 0 && !(entries[0].owner_type == owner_type && entries[0].name == name) {
        let rest = entries.drop_first();
        place_is_first(rest, owner_type, name);
        let place = entry_place(entries, owner_type, name);
        assert forall|k: int| 0 <= k < place implies !((#[trigger] entries[k]).owner_type
            == owner_type && entries[k].name == name) by {
            if k > 0 {
                assert(rest[k - 1] == entries[k]);
            }
        }
        if place < entries.len() {
            assert(rest[place - 1] == entries[place]);
        }
    }
}

/// An entry with the type and the name is the kept one, where keys are distinct.
pub proof fn place_of_entry<V>(entries: Seq<EntryModel<V>>, at: int)
    requires
        keys_distinct(entries),
        0 <= at < entries.len(),
    ensures
        entry_place(entries, entries[at].owner_type, entries[at].name) == at,
{
    place_is_first(entries, entries[at].owner_type, entries[at].name);
}

/// A kept store is found, and every other one is found as before.
pub proof fn a_kept_store_is_found<V>(
    entries: Seq<EntryModel<V>>,
    owner_type: Text,
    name: Text,
    store: V,
)
    ensures
        lookup(with_entry(entries, owner_type, name, store), owner_type, name) == Some(store),
        forall|t: Text, n: Text|
            !(t == owner_type && n == name) ==> #[trigger] lookup(
                with_entry(entries, owner_type, name, store),
                t,
                n,
            ) == lookup(entries, t, n),
        keys_distinct(entries) ==> keys_distinct(with_entry(entries, owner_type, name, store)),
{
    let after = with_entry(entries, owner_type, name, store);
    place_is_first(entries, owner_type, name);
    place_is_first(after, owner_type, name);
    let place = entry_place(entries, owner_type, name);
    assert(after[place].store == store);
    assert forall|t: Text, n: Text| !(t == owner_type && n == name) implies #[trigger] lookup(
        after,
        t,
        n,
    ) == lookup(entries, t, n) by {
        place_is_first(entries, t, n);
        place_is_first(after, t, n);
        let p = entry_place(entries, t, n);
        let q = entry_place(after, t, n);
        if p < entries.len() {
            assert(after[p].owner_type == t && after[p].name == n);
            assert(q <= p);
        }
        if q < after.len() {
            assert(q != place);
            assert(entries[q].owner_type == t && entries[q].name == n);
            assert(p <= q);
        }
    }
}

/// A dropped store is not found, and every other one is found as before.
pub proof fn a_dropped_store_is_gone<V>(
    entries: Seq<EntryModel<V>>,
    owner_type: Text,
    name: Text,
)
    requires
        keys_distinct(entries),
    ensures
        lookup(without_entry(entries, owner_type, name), owner_type, name) is None,
        forall|t: Text, n: Text|
            !(t == owner_type && n == name) ==> #[trigger] lookup(
                without_entry(entries, owner_type, name),
                t,
                n,
            ) == lookup(entries, t, n),
        keys_distinct(without_entry(entries, owner_type, name)),
{
    let after = without_entry(entries, owner_type, name);
    place_is_first(entries, owner_type, name);
    place_is_first(after, owner_type, name);
    let place = entry_place(entries, owner_type, name);
    let shift = |k: int| if k < place { k } else { k + 1 };
    if place < entries.len() {
        assert(after.len() == entries.len() - 1);
        assert forall|k: int| 0 <= k < after.len() implies #[trigger] after[k] == entries[shift(k)] by {}
        let found = entry_place(after, owner_type, name);
        if found < after.len() {
            assert(after[found] == entries[shift(found)]);
            assert(entries[shift(found)].owner_type == entries[place].owner_type);
        }
        assert(keys_distinct(after)) by {
            assert forall|i: int, j: int| 0 <= i < j < after.len() implies !((
            #[trigger] after[i]).owner_type == (#[trigger] after[j]).owner_type && after[i].name
                == after[j].name) by {
                assert(after[i] == entries[shift(i)]);
                assert(after[j] == entries[shift(j)]);
            }
        }
    }
    assert forall|t: Text, n: Text| !(t == owner_type && n == name) implies #[trigger] lookup(
        after,
        t,
        n,
    ) == lookup(entries, t, n) by {
        if place < entries.len() {
            place_is_first(entries, t, n);
            place_is_first(after, t, n);
            let p = entry_place(entries, t, n);
            let q = entry_place(after, t, n);
            if p < entries.len() {
                assert(p != place);
                let k = if p < place { p } else { p - 1 };
                assert(after[k] == entries[p]);
                assert(q <= k);
            }
            if q < after.len() {
                assert(after[q] == entries[shift(q)]);
                assert(p <= shift(q));
            }
        }
    }
}

/// Dropping the entry that was just added after the others gives them back.
pub proof fn dropping_a_fresh_entry<V>(
    entries: Seq<EntryModel<V>>,
    owner_type: Text,
    name: Text,
    store: V,
)
    requires
        !kept(entries, owner_type, name),
    ensures
        without_entry(with_entry(entries, owner_type, name, store), owner_type, name) == entries,
{
    let after = with_entry(entries, owner_type, name, store);
    place_is_first(entries, owner_type, name);
    place_is_first(after, owner_type, name);
    let p = entry_place(after, owner_type, name);
    assert(after[entries.len() as int].owner_type == owner_type);
    if p < entries.len() {
        assert(after[p] == entries[p]);
    }
    assert(after.remove(p) =~= entries);
}

impl<S: View> View for Catalog<S> {
    type V = Seq<EntryModel<S::V>>;

    open spec fn view(&self) -> Seq<EntryModel<S::V>> {
        Seq::new(
            self.entries@.len(),
            |i: int|
                EntryModel {
                    owner_type: self.entries@[i].owner_type@,
                    name: self.entries@[i].name@,
                    store: self.entries@[i].store@,
                },
        )
    }
}

impl<S: View> Catalog<S> {
    /// Nothing kept.
    pub fn new() -> (catalog: Catalog<S>)
        ensures
            catalog@ == Seq::<EntryModel<S::V>>::empty(),
            catalog.entries@.len() == 0,
    {
        let catalog = Catalog { entries: Vec::new() };
        assert(catalog@ =~= Seq::<EntryModel<S::V>>::empty());
        catalog
    }

    /// Whether nothing is kept.
    pub fn is_empty(&self) -> (empty: bool)
        ensures
            empty == (self@.len() == 0),
    {
        self.entries.len() == 0
    }

    /// How many stores are kept.
    pub fn len(&self) -> (count: usize)
        ensures
            count == self@.len(),
    {
        self.entries.len()
    }

    /// The place of the entry for a type and a name.
    pub fn position(&self, owner_type: &str, name: &str) -> (place: Option<usize>)
        ensures
            match place {
                Some(p) => kept(self@, owner_type@, name@) && p == entry_place(
                    self@,
                    owner_type@,
                    name@,
                ),
                None => !kept(self@, owner_type@, name@),
            },
    {
        let mut i: usize = 0;
        assert(self@.skip(0) =~= self@);
        while i < self.entries.len()
            invariant
                i <= self.entries.len(),
                entry_place(self@, owner_type@, name@) == i + entry_place(
                    self@.skip(i as int),
                    owner_type@,
                    name@,
                ),
            decreases self.entries.len() - i,
        {
            assert(self@.skip(i as int)[0] == self@[i as int]);
            if text_eq(self.entries[i].owner_type.as_str(), owner_type) && text_eq(
                self.entries[i].name.as_str(),
                name,
            ) {
                return Some(i);
            }
            assert(self@.skip(i as int).drop_first() =~= self@.skip(i + 1));
            i = i + 1;
        }
        None
    }

    /// The store kept for a type and a name.
    pub fn get(&self, owner_type: &str, name: &str) -> (store: Option<&S>)
        ensures
            match store {
                Some(s) => lookup(self@, owner_type@, name@) == Some(s@) && exists|i: int|
                    0 <= i < self.entries@.len() && #[trigger] self.entries@[i].store == *s,
                None => lookup(self@, owner_type@, name@) is None,
            },
    {
        match self.position(owner_type, name) {
            Some(p) => {
                proof {
                    place_is_first(self@, owner_type@, name@);
                }
                Some(&self.entries[p].store)
            },
            None => None,
        }
    }

    /// Whether a store is kept for a type and a name.
    pub fn contains(&self, owner_type: &str, name: &str) -> (has: bool)
        ensures
            has == kept(self@, owner_type@, name@),
    {
        self.position(owner_type, name).is_some()
    }

    /// The store in a place, to be changed there.
    pub fn at_mut(&mut self, place: usize) -> (store: &mut S)
        requires
            place < old(self).entries@.len(),
        ensures
            *store == old(self).entries@[place as int].store,
            final(self).entries@.len() == old(self).entries@.len(),
            forall|i: int|
                0 <= i < old(self).entries@.len() && i != place ==> final(self).entries@[i] == #[trigger] old(
                    self,
                ).entries@[i],
            final(self).entries@[place as int] == (Entry {
                store: *final(store),
                ..old(self).entries@[place as int]
            }),
    {
        &mut self.entries[place].store
    }

    /// Puts a store in a place, and gives back the one that was there.
    pub fn replace_at(&mut self, place: usize, store: S) -> (prior: S)
        requires
            place < old(self).entries@.len(),
        ensures
            prior == old(self).entries@[place as int].store,
            final(self).entries@ == old(self).entries@.update(
                place as int,
                Entry { store, ..old(self).entries@[place as int] },
            ),
            final(self)@ == old(self)@.update(
                place as int,
                EntryModel { store: store@, ..old(self)@[place as int] },
            ),
    {
        let mut prior = store;
        std::mem::swap(self.at_mut(place), &mut prior);
        assert(self.entries@ =~= old(self).entries@.update(
            place as int,
            Entry { store, ..old(self).entries@[place as int] },
        ));
        assert(self@ =~= old(self)@.update(
            place as int,
            EntryModel { store: store@, ..old(self)@[place as int] },
        ));
        prior
    }

    /// Keeps a store for a type and a name, and gives back the one that was.
    pub fn insert(&mut self, owner_type: &str, name: &str, store: S) -> (prior: Option<S>)
        ensures
            final(self)@ == with_entry(old(self)@, owner_type@, name@, store@),
            match prior {
                Some(p) => lookup(old(self)@, owner_type@, name@) == Some(p@) && exists|i: int|
                    0 <= i < old(self).entries@.len() && #[trigger] old(self).entries@[i].store
                        == p,
                None => lookup(old(self)@, owner_type@, name@) is None,
            },
            forall|i: int|
                0 <= i < final(self).entries@.len() ==> (#[trigger] final(self).entries@[i].store
                    == store || exists|j: int|
                    0 <= j < old(self).entries@.len() && #[trigger] old(self).entries@[j].store
                        == final(self).entries@[i].store),
    {
        let found = self.position(owner_type, name);
        proof {
            place_is_first(self@, owner_type@, name@);
        }
        match found {
            Some(p) => {
                let mut entry = Entry {
                    owner_type: owner_type.to_owned(),
                    name: name.to_owned(),
                    store,
                };
                self.entries.set_and_swap(p, &mut entry);
                assert(self@ =~= with_entry(old(self)@, owner_type@, name@, store@));
                Some(entry.store)
            },
            None => {
                self.entries.push(
                    Entry { owner_type: owner_type.to_owned(), name: name.to_owned(), store },
                );
                assert(self@ =~= with_entry(old(self)@, owner_type@, name@, store@));
                None
            },
        }
    }

    /// Stops keeping a store, and gives it back.
    pub fn remove(&mut self, owner_type: &str, name: &str) -> (prior: Option<S>)
        ensures
            final(self)@ == without_entry(old(self)@, owner_type@, name@),
            match prior {
                Some(p) => lookup(old(self)@, owner_type@, name@) == Some(p@) && exists|i: int|
                    0 <= i < old(self).entries@.len() && #[trigger] old(self).entries@[i].store
                        == p,
                None => lookup(old(self)@, owner_type@, name@) is None,
            },
            forall|i: int|
                0 <= i < final(self).entries@.len() ==> exists|j: int|
                    0 <= j < old(self).entries@.len() && #[trigger] old(self).entries@[j].store
                        == (#[trigger] final(self).entries@[i]).store,
    {
        let found = self.position(owner_type, name);
        proof {
            place_is_first(self@, owner_type@, name@);
        }
        match found {
            Some(p) => {
                let entry = self.entries.remove(p);
                assert(self@ =~= without_entry(old(self)@, owner_type@, name@));
                assert forall|i: int| 0 <= i < self.entries@.len() implies exists|j: int|
                    0 <= j < old(self).entries@.len() && #[trigger] old(self).entries@[j].store
                        == (#[trigger] self.entries@[i]).store by {
                    let j = if i < p { i } else { i + 1 };
                    assert(old(self).entries@[j].store == self.entries@[i].store);
                }
                Some(entry.store)
            },
            None => None,
        }
    }
}

} // verus!
