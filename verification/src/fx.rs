//! Sets and maps of slots, hashed by `rustc_hash`.
use rustc_hash::{FxBuildHasher, FxHashMap, FxHashSet};
use vstd::prelude::*;

verus! {

/// `rustc_hash::FxBuildHasher`, which makes the hashers of an `FxHashSet`.
#[verifier::external_type_specification]
#[verifier::external_body]
pub struct ExFxBuildHasher(FxBuildHasher);

/// `FxHashSet::default` of `rustc_hash`: a set that holds nothing.
#[verifier::external_body]
pub(crate) fn fx_set() -> (set: FxHashSet<usize>)
    ensures
        set@ == Set::<usize>::empty(),
{
    FxHashSet::default()
}

/// `FxHashSet::insert` of `rustc_hash`: adds a number, and says whether it was
/// not there.
#[verifier::external_body]
pub(crate) fn fx_insert(set: &mut FxHashSet<usize>, item: usize) -> (fresh: bool)
    ensures
        final(set)@ == old(set)@.insert(item),
        fresh == !old(set)@.contains(item),
{
    set.insert(item)
}

/// `FxHashSet::contains` of `rustc_hash`: whether a number is in the set.
#[verifier::external_body]
pub(crate) fn fx_contains(set: &FxHashSet<usize>, item: usize) -> (has: bool)
    ensures
        has == set@.contains(item),
{
    set.contains(&item)
}

/// `FxHashSet::len` of `rustc_hash`: how many numbers are in the set.
#[verifier::external_body]
pub(crate) fn fx_len(set: &FxHashSet<usize>) -> (count: usize)
    ensures
        count == set@.len(),
{
    set.len()
}

/// `FxHashMap::default` of `rustc_hash`: a map that holds nothing.
#[verifier::external_body]
pub(crate) fn fx_map() -> (table: FxHashMap<usize, usize>)
    ensures
        table@.dom() == Set::<usize>::empty(),
{
    FxHashMap::default()
}

/// `FxHashMap::insert` of `rustc_hash`: keeps a number under a key, and gives
/// back the one that was kept there.
#[verifier::external_body]
pub(crate) fn fx_keep(table: &mut FxHashMap<usize, usize>, key: usize, item: usize) -> (prior: Option<
    usize,
>)
    ensures
        final(table)@ == old(table)@.insert(key, item),
        match prior {
            Some(kept) => old(table)@.contains_key(key) && old(table)@[key] == kept,
            None => !old(table)@.contains_key(key),
        },
{
    table.insert(key, item)
}

} // verus!
