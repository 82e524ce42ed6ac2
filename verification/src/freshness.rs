//! Which slots an index still speaks for.
use vstd::prelude::*;

verus! {

/// The slots a query may fold into an index when nothing else is asked for.
pub const DEFAULT_AUTO_REFRESH_LIMIT: usize = 1000;

/// What an index has covered: the slots below `covered`, but for those that
/// changed since. The slots from `covered` on came later.
#[derive(Debug, Clone)]
pub struct IndexFreshness {
    /// The first slot that came after the index was last brought up to date.
    pub covered: usize,
    /// The covered slots that changed since, each once.
    pub changed: Vec<usize>,
    /// The slots a query may fold in by itself.
    pub limit: usize,
}

/// What a freshness holds.
#[verifier::ext_equal]
pub struct FreshnessModel {
    pub covered: usize,
    pub changed: Set<usize>,
    pub limit: usize,
}

/// The slots of `0..bound` that the index does not speak for.
pub open spec fn outstanding(freshness: FreshnessModel, bound: nat) -> nat {
    freshness.changed.len() + if bound > freshness.covered {
        (bound - freshness.covered) as nat
    } else {
        0
    }
}

/// Nothing is covered.
pub open spec fn uncovered(limit: usize) -> FreshnessModel {
    FreshnessModel { covered: 0, changed: Set::empty(), limit }
}

/// Everything below `bound` is covered.
pub open spec fn covering_model(bound: usize, limit: usize) -> FreshnessModel {
    FreshnessModel { covered: bound, changed: Set::empty(), limit }
}

/// A slot changed: it is outstanding if it was covered.
pub open spec fn touched(freshness: FreshnessModel, slot: usize) -> FreshnessModel {
    if slot < freshness.covered {
        FreshnessModel { changed: freshness.changed.insert(slot), ..freshness }
    } else {
        freshness
    }
}

impl View for IndexFreshness {
    type V = FreshnessModel;

    open spec fn view(&self) -> FreshnessModel {
        FreshnessModel { covered: self.covered, changed: self.changed@.to_set(), limit: self.limit }
    }
}

impl IndexFreshness {
    /// Only covered slots are listed as changed, and none twice.
    pub open spec fn well_formed(self) -> bool {
        &&& self.changed@.no_duplicates()
        &&& forall|i: int|
            0 <= i < self.changed.len() ==> (#[trigger] self.changed@[i]) < self.covered
    }

    /// Everything below `bound` covered.
    pub fn covering(bound: usize, limit: usize) -> (freshness: IndexFreshness)
        ensures
            freshness.well_formed(),
            freshness@ == covering_model(bound, limit),
    {
        let freshness = IndexFreshness { covered: bound, changed: Vec::new(), limit };
        assert(freshness@.changed =~= Set::empty());
        freshness
    }

    /// A copy.
    pub fn duplicate(&self) -> (copy: IndexFreshness)
        requires
            self.well_formed(),
        ensures
            copy.well_formed(),
            copy@ == self@,
    {
        let changed = self.changed.clone();
        assert(changed@ =~= self.changed@);
        IndexFreshness { covered: self.covered, changed, limit: self.limit }
    }

    /// How many slots of `0..bound` are outstanding.
    pub fn delta_size(&self, bound: usize) -> (delta: usize)
        requires
            self.well_formed(),
            self.covered <= bound,
        ensures
            delta == outstanding(self@, bound as nat),
    {
        proof {
            self.changed_fits();
        }
        self.changed.len() + (bound - self.covered)
    }

    /// No more slots changed than are covered.
    pub proof fn changed_fits(&self)
        requires
            self.well_formed(),
        ensures
            self.changed.len() == self@.changed.len(),
            self@.changed.finite(),
            self.changed.len() <= self.covered,
    {
        self.changed@.unique_seq_to_set();
        let bound = self.covered as int;
        let slots = vstd::set_lib::set_int_range(0, bound);
        vstd::set_lib::lemma_int_range(0, bound);
        let mapped = self@.changed.map(|s: usize| s as int);
        assert(mapped.subset_of(slots)) by {
            assert forall|x: int| mapped.contains(x) implies slots.contains(x) by {
                let s = choose|s: usize| self@.changed.contains(s) && x == s as int;
                assert(self.changed@.contains(s));
                let k = self.changed@.index_of(s);
                assert(self.changed@[k] < self.covered);
            }
        }
        vstd::set_lib::lemma_len_subset(mapped, slots);
        vstd::set_lib::lemma_map_size(self@.changed, mapped, |s: usize| s as int);
    }

    /// Whether `slot` is listed as changed.
    pub fn lists(&self, slot: usize) -> (listed: bool)
        ensures
            listed == self@.changed.contains(slot),
    {
        let mut i: usize = 0;
        while i < self.changed.len()
            invariant
                i <= self.changed.len(),
                forall|k: int| 0 <= k < i ==> self.changed@[k] != slot,
            decreases self.changed.len() - i,
        {
            if self.changed[i] == slot {
                assert(self.changed@.contains(slot));
                return true;
            }
            i = i + 1;
        }
        assert(!self.changed@.contains(slot));
        false
    }

    /// Records that `slot` changed.
    pub fn note_changed(&mut self, slot: usize)
        requires
            old(self).well_formed(),
        ensures
            final(self).well_formed(),
            final(self)@ == touched(old(self)@, slot),
    {
        if slot < self.covered && !self.lists(slot) {
            self.changed.push(slot);
            proof {
                let before = old(self).changed@;
                assert(self.changed@ == before.push(slot));
                assert(!before.contains(slot));
                assert(self.changed@.no_duplicates());
                assert(self@.changed =~= old(self)@.changed.insert(slot)) by {
                    assert forall|s: usize|
                        self@.changed.contains(s) <==> old(self)@.changed.insert(slot).contains(
                            s,
                        ) by {
                        if self.changed@.contains(s) {
                            let k = self.changed@.index_of(s);
                            if k < before.len() {
                                assert(before[k] == s);
                                assert(before.contains(s));
                            }
                        }
                        if before.contains(s) {
                            assert(self.changed@[before.index_of(s)] == s);
                        }
                        assert(self.changed@[before.len() as int] == slot);
                    }
                }
            }
        } else {
            assert(self@ =~= touched(old(self)@, slot)) by {
                if slot < self.covered {
                    assert(self@.changed =~= self@.changed.insert(slot));
                }
            }
        }
    }

    /// Records that `slot` is as the index has it.
    pub fn note_current(&mut self, slot: usize)
        requires
            old(self).well_formed(),
        ensures
            final(self).well_formed(),
            final(self)@ == (FreshnessModel {
                changed: old(self)@.changed.remove(slot),
                ..old(self)@
            }),
    {
        let mut i: usize = 0;
        while i < self.changed.len()
            invariant
                i <= self.changed.len(),
                *self == *old(self),
                self.well_formed(),
                forall|k: int| 0 <= k < i ==> self.changed@[k] != slot,
            decreases self.changed.len() - i,
        {
            if self.changed[i] == slot {
                let ghost before = self.changed@;
                self.changed.remove(i);
                proof {
                    assert(self.changed@ == before.remove(i as int));
                    assert forall|s: usize|
                        self@.changed.contains(s) <==> old(self)@.changed.remove(slot).contains(
                            s,
                        ) by {
                        if self.changed@.contains(s) {
                            let k = self.changed@.index_of(s);
                            if k < i {
                                assert(before[k] == s);
                            } else {
                                assert(before[k + 1] == s);
                            }
                            assert(before.contains(s));
                        }
                        if before.contains(s) && s != slot {
                            let k = before.index_of(s);
                            if k < i {
                                assert(self.changed@[k] == s);
                            } else {
                                assert(self.changed@[k - 1] == s);
                            }
                        }
                    }
                    assert(self@.changed =~= old(self)@.changed.remove(slot));
                }
                return ;
            }
            i = i + 1;
        }
        assert(!self.changed@.contains(slot));
        assert(self@.changed =~= old(self)@.changed.remove(slot));
    }
}

} // verus!
