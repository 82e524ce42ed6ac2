//! Sorting, and lists kept in order.
use vstd::prelude::*;
use vstd::relations::{sorted_by, total_ordering};

verus! {

/// A way to rank values: every two one way, and no two different ones both ways.
pub trait Ranking<T: Copy>: Sized {
    /// Whether values can be ranked.
    spec fn valid(self) -> bool;

    /// Whether `a` may stand before `b`.
    spec fn before(self, a: T, b: T) -> bool;

    /// Any two values are ranked.
    proof fn total(self, a: T, b: T)
        ensures
            self.before(a, b) || self.before(b, a),
    ;

    /// Ranking is transitive.
    proof fn transitive(self, a: T, b: T, c: T)
        requires
            self.before(a, b),
            self.before(b, c),
        ensures
            self.before(a, c),
    ;

    /// No two different values are ranked both ways.
    proof fn antisymmetric(self, a: T, b: T)
        requires
            self.before(a, b),
            self.before(b, a),
        ensures
            a == b,
    ;

    /// Whether `a` may stand before `b`.
    fn precedes(&self, a: T, b: T) -> (result: bool)
        requires
            self.valid(),
        ensures
            result == self.before(a, b),
    ;
}

/// The order of a ranking.
pub open spec fn rank_order<T: Copy, R: Ranking<T>>(ranking: R) -> spec_fn(T, T) -> bool {
    |a: T, b: T| ranking.before(a, b)
}

/// A ranking is a total order.
pub proof fn rank_order_is_total<T: Copy, R: Ranking<T>>(ranking: R)
    ensures
        total_ordering(rank_order::<T, R>(ranking)),
{
    let r = rank_order::<T, R>(ranking);
    assert forall|x: T| #[trigger] r(x, x) by {
        ranking.total(x, x);
    }
    assert forall|x: T, y: T| #[trigger] r(x, y) && #[trigger] r(y, x) implies x == y by {
        ranking.antisymmetric(x, y);
    }
    assert forall|x: T, y: T, z: T| #[trigger] r(x, y) && #[trigger] r(y, z) implies r(x, z) by {
        ranking.transitive(x, y, z);
    }
    assert forall|x: T, y: T| #[trigger] r(x, y) || #[trigger] r(y, x) by {
        ranking.total(x, y);
    }
}

/// The items of two ranked lists, ranked.
fn merged<T: Copy, R: Ranking<T>>(ranking: &R, a: &Vec<T>, b: &Vec<T>) -> (out: Vec<T>)
    requires
        ranking.valid(),
        sorted_by(a@, rank_order::<T, R>(*ranking)),
        sorted_by(b@, rank_order::<T, R>(*ranking)),
    ensures
        sorted_by(out@, rank_order::<T, R>(*ranking)),
        out@.to_multiset() == a@.to_multiset().add(b@.to_multiset()),
{
    broadcast use vstd::seq_lib::group_to_multiset_ensures;

    let ghost r = rank_order::<T, R>(*ranking);
    let mut out: Vec<T> = Vec::new();
    let mut i: usize = 0;
    let mut j: usize = 0;
    assert(a@.take(0) =~= Seq::<T>::empty());
    assert(b@.take(0) =~= Seq::<T>::empty());
    assert(out@ =~= Seq::<T>::empty());
    assert(out@.to_multiset() =~= a@.take(0).to_multiset().add(b@.take(0).to_multiset()));
    while i < a.len() || j < b.len()
        invariant
            i <= a@.len(),
            j <= b@.len(),
            ranking.valid(),
            r == rank_order::<T, R>(*ranking),
            sorted_by(a@, r),
            sorted_by(b@, r),
            sorted_by(out@, r),
            forall|k: int, l: int|
                0 <= k < out@.len() && i <= l < a@.len() ==> ranking.before(
                    #[trigger] out@[k],
                    #[trigger] a@[l],
                ),
            forall|k: int, l: int|
                0 <= k < out@.len() && j <= l < b@.len() ==> ranking.before(
                    #[trigger] out@[k],
                    #[trigger] b@[l],
                ),
            out@.to_multiset() == a@.take(i as int).to_multiset().add(
                b@.take(j as int).to_multiset(),
            ),
        decreases a@.len() - i + b@.len() - j,
    {
        broadcast use vstd::seq_lib::group_to_multiset_ensures;

        let ghost out_before = out@;
        let from_a = j >= b.len() || (i < a.len() && ranking.precedes(a[i], b[j]));
        if from_a {
            let item = a[i];
            out.push(item);
            proof {
                assert(a@.take(i + 1) =~= a@.take(i as int).push(item));
                assert(a@.take(i as int).to_multiset().insert(item).add(
                    b@.take(j as int).to_multiset(),
                ) =~= a@.take(i as int).to_multiset().add(
                    b@.take(j as int).to_multiset(),
                ).insert(item));
                assert forall|l: int| i + 1 <= l < a@.len() implies ranking.before(
                    item,
                    #[trigger] a@[l],
                ) by {
                    assert(r(a@[i as int], a@[l]));
                }
                assert forall|l: int| j <= l < b@.len() implies ranking.before(
                    item,
                    #[trigger] b@[l],
                ) by {
                    if l > j {
                        assert(r(b@[j as int], b@[l]));
                        ranking.transitive(item, b@[j as int], b@[l]);
                    }
                }
                assert forall|k: int, l: int| 0 <= k < l < out@.len() implies #[trigger] r(
                    out@[k],
                    out@[l],
                ) by {
                    if l == out_before.len() {
                        assert(ranking.before(out_before[k], a@[i as int]));
                    } else {
                        assert(r(out_before[k], out_before[l]));
                    }
                }
            }
            i = i + 1;
        } else {
            let item = b[j];
            proof {
                if i < a@.len() {
                    ranking.total(a@[i as int], item);
                }
            }
            out.push(item);
            proof {
                assert(b@.take(j + 1) =~= b@.take(j as int).push(item));
                assert(a@.take(i as int).to_multiset().add(
                    b@.take(j as int).to_multiset().insert(item),
                ) =~= a@.take(i as int).to_multiset().add(
                    b@.take(j as int).to_multiset(),
                ).insert(item));
                assert forall|l: int| j + 1 <= l < b@.len() implies ranking.before(
                    item,
                    #[trigger] b@[l],
                ) by {
                    assert(r(b@[j as int], b@[l]));
                }
                assert forall|l: int| i <= l < a@.len() implies ranking.before(
                    item,
                    #[trigger] a@[l],
                ) by {
                    if l > i {
                        assert(r(a@[i as int], a@[l]));
                        ranking.transitive(item, a@[i as int], a@[l]);
                    }
                }
                assert forall|k: int, l: int| 0 <= k < l < out@.len() implies #[trigger] r(
                    out@[k],
                    out@[l],
                ) by {
                    if l == out_before.len() {
                        assert(ranking.before(out_before[k], b@[j as int]));
                    } else {
                        assert(r(out_before[k], out_before[l]));
                    }
                }
            }
            j = j + 1;
        }
    }
    assert(a@.take(i as int) =~= a@);
    assert(b@.take(j as int) =~= b@);
    out
}

/// A stretch of the items, ranked.
fn sorted_stretch<T: Copy, R: Ranking<T>>(
    ranking: &R,
    items: &Vec<T>,
    from: usize,
    to: usize,
) -> (out: Vec<T>)
    requires
        ranking.valid(),
        from <= to <= items@.len(),
    ensures
        sorted_by(out@, rank_order::<T, R>(*ranking)),
        out@.to_multiset() == items@.subrange(from as int, to as int).to_multiset(),
    decreases to - from,
{
    if to - from <= 1 {
        let mut out: Vec<T> = Vec::new();
        if from < to {
            out.push(items[from]);
        }
        assert(out@ =~= items@.subrange(from as int, to as int));
        out
    } else {
        let middle: usize = from + (to - from) / 2;
        let left = sorted_stretch(ranking, items, from, middle);
        let right = sorted_stretch(ranking, items, middle, to);
        proof {
            let first = items@.subrange(from as int, middle as int);
            let second = items@.subrange(middle as int, to as int);
            assert(items@.subrange(from as int, to as int) =~= first + second);
            vstd::seq_lib::lemma_multiset_commutative(first, second);
        }
        merged(ranking, &left, &right)
    }
}

/// The items, ranked.
pub fn sorted<T: Copy, R: Ranking<T>>(ranking: &R, items: &Vec<T>) -> (out: Vec<T>)
    requires
        ranking.valid(),
    ensures
        out@ == items@.sort_by(rank_order::<T, R>(*ranking)),
        out@.len() == items@.len(),
{
    let total: usize = items.len();
    let out = sorted_stretch(ranking, items, 0, total);
    proof {
        broadcast use vstd::seq_lib::group_to_multiset_ensures;

        assert(items@.subrange(0, total as int) =~= items@);
        rank_order_is_total::<T, R>(*ranking);
        items@.lemma_sort_by_ensures(rank_order::<T, R>(*ranking));
        vstd::seq_lib::lemma_sorted_unique(
            out@,
            items@.sort_by(rank_order::<T, R>(*ranking)),
            rank_order::<T, R>(*ranking),
        );
        assert(out@.to_multiset().len() == items@.to_multiset().len());
    }
    out
}

/// `le` orders every two items one way, and no two different ones both ways.
pub open spec fn is_order<A>(le: spec_fn(A, A) -> bool) -> bool {
    &&& forall|a: A, b: A| #![trigger le(a, b)] le(a, b) || le(b, a)
    &&& forall|a: A, b: A| #![trigger le(a, b), le(b, a)] le(a, b) && le(b, a) ==> a == b
    &&& forall|a: A, b: A, c: A| #![trigger le(a, b), le(b, c)] le(a, b) && le(b, c) ==> le(a, c)
}

/// Each item comes before every later one, and differs from it.
pub open spec fn ascends<A>(items: Seq<A>, le: spec_fn(A, A) -> bool) -> bool {
    forall|i: int, j: int|
        0 <= i < j < items.len() ==> le(#[trigger] items[i], #[trigger] items[j]) && items[i]
            != items[j]
}

/// The items of a set, in ascending order.
pub open spec fn ascending<A>(items: Set<A>, le: spec_fn(A, A) -> bool) -> Seq<A> {
    choose|s: Seq<A>| ascends(s, le) && s.to_set() == items
}

/// Two ascending lists of the same items are the same list.
pub proof fn ascending_is_unique<A>(x: Seq<A>, y: Seq<A>, le: spec_fn(A, A) -> bool)
    requires
        is_order(le),
        ascends(x, le),
        ascends(y, le),
        x.to_set() == y.to_set(),
    ensures
        x == y,
    decreases x.len(),
{
    if x.len() == 0 {
        if y.len() > 0 {
            assert(y.to_set().contains(y[0]));
            assert(x.contains(y[0]));
        }
        assert(x =~= y);
    } else {
        assert(x.to_set().contains(x[0]));
        assert(y.contains(x[0]));
        let j = y.index_of(x[0]);
        assert(y.to_set().contains(y[0]));
        assert(x.contains(y[0]));
        let i = x.index_of(y[0]);
        if i > 0 {
            assert(le(x[0], x[i]) && x[0] != x[i]);
            if j > 0 {
                assert(le(y[0], y[j]));
                assert(false);
            } else {
                assert(false);
            }
        }
        assert(x[0] == y[0]);
        let xs = x.drop_first();
        let ys = y.drop_first();
        assert(ascends(xs, le)) by {
            assert forall|a: int, b: int| 0 <= a < b < xs.len() implies le(
                #[trigger] xs[a],
                #[trigger] xs[b],
            ) && xs[a] != xs[b] by {
                assert(xs[a] == x[a + 1] && xs[b] == x[b + 1]);
            }
        }
        assert(ascends(ys, le)) by {
            assert forall|a: int, b: int| 0 <= a < b < ys.len() implies le(
                #[trigger] ys[a],
                #[trigger] ys[b],
            ) && ys[a] != ys[b] by {
                assert(ys[a] == y[a + 1] && ys[b] == y[b + 1]);
            }
        }
        assert(xs.to_set() =~= ys.to_set()) by {
            assert forall|e: A| xs.contains(e) <==> ys.contains(e) by {
                if xs.contains(e) {
                    let k = xs.index_of(e);
                    assert(x[k + 1] == e);
                    assert(x.to_set().contains(e));
                    assert(y.contains(e));
                    let m = y.index_of(e);
                    assert(x[0] != x[k + 1]);
                    assert(ys[m - 1] == e);
                }
                if ys.contains(e) {
                    let k = ys.index_of(e);
                    assert(y[k + 1] == e);
                    assert(y.to_set().contains(e));
                    assert(x.contains(e));
                    let m = x.index_of(e);
                    assert(y[0] != y[k + 1]);
                    assert(xs[m - 1] == e);
                }
            }
        }
        ascending_is_unique(xs, ys, le);
        assert(x =~= seq![x[0]] + xs);
        assert(y =~= seq![y[0]] + ys);
    }
}

/// An ascending list is the ascending list of its items.
pub proof fn ascending_of_items<A>(items: Seq<A>, le: spec_fn(A, A) -> bool)
    requires
        is_order(le),
        ascends(items, le),
    ensures
        ascending(items.to_set(), le) == items,
{
    let chosen = ascending(items.to_set(), le);
    assert(ascends(items, le) && items.to_set() == items.to_set());
    ascending_is_unique(chosen, items, le);
}

/// Putting an item where it belongs keeps a list ascending.
pub proof fn ascends_with<A>(items: Seq<A>, at: int, item: A, le: spec_fn(A, A) -> bool)
    requires
        is_order(le),
        ascends(items, le),
        0 <= at <= items.len(),
        forall|k: int| 0 <= k < at ==> !le(item, #[trigger] items[k]),
        at < items.len() ==> le(item, items[at]) && item != items[at],
    ensures
        ascends(items.insert(at, item), le),
        items.insert(at, item).to_set() == items.to_set().insert(item),
{
    let after = items.insert(at, item);
    assert forall|i: int, j: int| 0 <= i < j < after.len() implies le(
        #[trigger] after[i],
        #[trigger] after[j],
    ) && after[i] != after[j] by {
        let a = if i < at { items[i] } else if i == at { item } else { items[i - 1] };
        let b = if j < at { items[j] } else if j == at { item } else { items[j - 1] };
        assert(after[i] == a && after[j] == b);
        if i < at && j < at {
            assert(le(items[i], items[j]));
        } else if i < at && j == at {
            assert(le(item, items[i]) || le(items[i], item));
            assert(le(item, item));
        } else if i < at && j > at {
            assert(le(items[i], items[j - 1]));
        } else if i == at && j == at + 1 {
        } else if i == at {
            assert(le(items[at], items[j - 1]));
            assert(le(item, items[at]));
            if item == items[j - 1] {
                assert(le(items[j - 1], items[at]));
            }
        } else {
            assert(le(items[i - 1], items[j - 1]));
        }
    }
    assert forall|e: A| after.contains(e) <==> (e == item || items.contains(e)) by {
        if after.contains(e) {
            let k = after.index_of(e);
            if k < at {
                assert(items[k] == e);
            } else if k > at {
                assert(items[k - 1] == e);
            }
        }
        if items.contains(e) {
            let k = items.index_of(e);
            if k < at {
                assert(after[k] == e);
            } else {
                assert(after[k + 1] == e);
            }
        }
        assert(after[at] == item);
    }
    assert(after.to_set() =~= items.to_set().insert(item));
}

proof fn has_a_place<A>(items: Seq<A>, item: A, le: spec_fn(A, A) -> bool) -> (at: int)
    ensures
        0 <= at <= items.len(),
        forall|k: int| 0 <= k < at ==> !le(item, #[trigger] items[k]),
        at < items.len() ==> le(item, items[at]),
    decreases items.len(),
{
    if items.len() == 0 {
        0
    } else {
        let rest = items.drop_last();
        let at = has_a_place(rest, item, le);
        assert forall|k: int| 0 <= k < at implies !le(item, #[trigger] items[k]) by {
            assert(rest[k] == items[k]);
        }
        if at < rest.len() {
            assert(rest[at] == items[at]);
            at
        } else if le(item, items.last()) {
            at
        } else {
            at + 1
        }
    }
}

/// The items of a list can be put in ascending order, each once.
pub proof fn ascending_lists_the_items<A>(items: Seq<A>, le: spec_fn(A, A) -> bool)
    requires
        is_order(le),
    ensures
        ascends(ascending(items.to_set(), le), le),
        ascending(items.to_set(), le).to_set() == items.to_set(),
    decreases items.len(),
{
    if items.len() == 0 {
        let none = Seq::<A>::empty();
        assert(none.to_set() =~= items.to_set());
        assert(ascends(none, le));
        ascending_of_items(none, le);
    } else {
        let rest = items.drop_last();
        let last = items.last();
        ascending_lists_the_items(rest, le);
        let before = ascending(rest.to_set(), le);
        assert(items.to_set() =~= rest.to_set().insert(last)) by {
            assert forall|e: A| items.contains(e) <==> (rest.contains(e) || e == last) by {
                if items.contains(e) {
                    let k = items.index_of(e);
                    if k < rest.len() {
                        assert(rest[k] == e);
                    }
                }
                if rest.contains(e) {
                    let k = rest.index_of(e);
                    assert(items[k] == e);
                }
                assert(items[items.len() - 1] == last);
            }
        }
        let at = has_a_place(before, last, le);
        if at < before.len() && before[at] == last {
            assert(before.to_set().contains(last));
            assert(items.to_set() =~= before.to_set());
            ascending_of_items(before, le);
        } else {
            let after = before.insert(at, last);
            ascends_with(before, at, last, le);
            assert(items.to_set() =~= after.to_set());
            ascending_of_items(after, le);
        }
    }
}

/// The items of a finite set can be put in ascending order, each once.
pub proof fn ascending_lists_the_set<A>(items: Set<A>, le: spec_fn(A, A) -> bool)
    requires
        is_order(le),
        items.finite(),
    ensures
        ascends(ascending(items, le), le),
        ascending(items, le).to_set() == items,
{
    items.lemma_to_seq_to_set_id();
    assert(items.to_seq().to_set() == items);
    ascending_lists_the_items(items.to_seq(), le);
}

/// The order of numbers.
pub open spec fn number_order() -> spec_fn(usize, usize) -> bool {
    |a: usize, b: usize| a <= b
}

/// The order of pairs of numbers.
pub open spec fn pair_order() -> spec_fn((usize, usize), (usize, usize)) -> bool {
    |a: (usize, usize), b: (usize, usize)| a.0 < b.0 || (a.0 == b.0 && a.1 <= b.1)
}

/// Puts a number into an ascending list, once.
pub fn insert_number(items: &mut Vec<usize>, item: usize)
    requires
        ascends(old(items)@, number_order()),
    ensures
        ascends(final(items)@, number_order()),
        final(items)@.to_set() == old(items)@.to_set().insert(item),
{
    let mut at: usize = 0;
    while at < items.len() && items[at] < item
        invariant
            at <= items@.len(),
            items@ == old(items)@,
            forall|k: int| 0 <= k < at ==> (#[trigger] items@[k]) < item,
        decreases items@.len() - at,
    {
        at = at + 1;
    }
    if at < items.len() && items[at] == item {
        assert(items@.contains(item));
        assert(items@.to_set() =~= items@.to_set().insert(item));
        return ;
    }
    let ghost before = items@;
    items.insert(at, item);
    proof {
        ascends_with(before, at as int, item, number_order());
    }
}

/// Puts a pair of numbers into an ascending list, once.
pub fn insert_pair(items: &mut Vec<(usize, usize)>, item: (usize, usize))
    requires
        ascends(old(items)@, pair_order()),
    ensures
        ascends(final(items)@, pair_order()),
        final(items)@.to_set() == old(items)@.to_set().insert(item),
{
    let mut at: usize = 0;
    while at < items.len() && (items[at].0 < item.0 || (items[at].0 == item.0 && items[at].1
        < item.1))
        invariant
            at <= items@.len(),
            items@ == old(items)@,
            forall|k: int|
                0 <= k < at ==> (#[trigger] items@[k]).0 < item.0 || (items@[k].0 == item.0
                    && items@[k].1 < item.1),
        decreases items@.len() - at,
    {
        at = at + 1;
    }
    if at < items.len() && items[at].0 == item.0 && items[at].1 == item.1 {
        assert(items@[at as int] == item);
        assert(items@.contains(item));
        assert(items@.to_set() =~= items@.to_set().insert(item));
        return ;
    }
    let ghost before = items@;
    items.insert(at, item);
    proof {
        ascends_with(before, at as int, item, pair_order());
    }
}

} // verus!
