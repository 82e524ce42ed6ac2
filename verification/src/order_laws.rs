//! What holds of the order of values, and of how numbers and lists are written.

use crate::order::Ranking;
use crate::ranking::{ByScore, ByScoreAndType, MergedHit, ScoredTarget};
use crate::text::{decimal, digit_of, joined, lex_le, signed_decimal, Text};
use crate::value::{double_rank, shown_value, value_before, ValueModel};
use vstd::arithmetic::power2::{lemma_pow2_pos, lemma_pow2_strictly_increases, lemma_pow2_unfold, pow2};
use vstd::prelude::*;

verus! {

/// A double is negative when its highest bit is set. Every negative one ranks
/// below every other, of two negative ones that with the greater magnitude
/// ranks lower, and of two others that with the greater magnitude ranks higher.
/// No two doubles of different bits rank alike.
pub proof fn doubles_rank_by_sign_and_magnitude(x: u64, y: u64)
    ensures
        x >= 0x8000_0000_0000_0000 && y < 0x8000_0000_0000_0000 ==> double_rank(x) < double_rank(y),
        x >= 0x8000_0000_0000_0000 && y >= 0x8000_0000_0000_0000 ==> (double_rank(x) < double_rank(
            y,
        ) <==> x > y),
        x < 0x8000_0000_0000_0000 && y < 0x8000_0000_0000_0000 ==> (double_rank(x) < double_rank(y)
            <==> x < y),
        x != y ==> double_rank(x) != double_rank(y),
{
}

/// The magnitude of a finite double, in units of the least positive one: the
/// fraction alone where the exponent is zero, else the fraction with its
/// leading bit, doubled for each step of the exponent.
pub open spec fn double_magnitude(bits: u64) -> int {
    let exponent = (bits % 0x8000_0000_0000_0000) / 0x10_0000_0000_0000;
    let fraction = (bits % 0x10_0000_0000_0000) as int;
    if exponent == 0 {
        fraction
    } else {
        (0x10_0000_0000_0000 + fraction) * pow2((exponent - 1) as nat)
    }
}

/// The number that a finite double is, in units of the least positive one.
pub open spec fn double_units(bits: u64) -> int {
    if bits < 0x8000_0000_0000_0000 {
        double_magnitude(bits)
    } else {
        -double_magnitude(bits)
    }
}

proof fn magnitudes_grow(x: u64, y: u64)
    requires
        x < y < 0x8000_0000_0000_0000,
    ensures
        0 <= double_magnitude(x) < double_magnitude(y),
{
    let ex = x / 0x10_0000_0000_0000;
    let ey = y / 0x10_0000_0000_0000;
    let mx = (x % 0x10_0000_0000_0000) as int;
    let my = (y % 0x10_0000_0000_0000) as int;
    let unit: int = 0x10_0000_0000_0000;
    assert(ex <= ey);
    assert(ex == ey ==> mx < my);
    if ey > 0 {
        let py = pow2((ey - 1) as nat) as int;
        lemma_pow2_pos((ey - 1) as nat);
        if ex == 0 {
            assert((unit + my) * py >= unit + my) by (nonlinear_arith)
                requires
                    py >= 1,
                    my >= 0,
                    unit >= 0,
            ;
        } else {
            let px = pow2((ex - 1) as nat) as int;
            lemma_pow2_pos((ex - 1) as nat);
            assert((unit + mx) * px >= 0) by (nonlinear_arith)
                requires
                    px >= 1,
                    mx >= 0,
                    unit >= 0,
            ;
            if ex == ey {
                assert((unit + mx) * px < (unit + my) * px) by (nonlinear_arith)
                    requires
                        px >= 1,
                        mx < my,
                ;
            } else {
                let half = pow2(ex as nat) as int;
                lemma_pow2_unfold(ex as nat);
                assert(half == 2 * px);
                if ex < ey - 1 {
                    lemma_pow2_strictly_increases(ex as nat, (ey - 1) as nat);
                }
                assert(half <= py);
                assert((unit + mx) * px < unit * half) by (nonlinear_arith)
                    requires
                        px >= 1,
                        0 <= mx < unit,
                        half == 2 * px,
                ;
                assert(unit * half <= (unit + my) * py) by (nonlinear_arith)
                    requires
                        half <= py,
                        0 <= half,
                        my >= 0,
                        unit >= 0,
                ;
            }
        }
    }
}

proof fn a_sign_keeps_the_magnitude(bits: u64)
    requires
        bits >= 0x8000_0000_0000_0000,
    ensures
        double_magnitude(bits) == double_magnitude((bits - 0x8000_0000_0000_0000) as u64),
{
    let low = (bits - 0x8000_0000_0000_0000) as u64;
    assert(bits % 0x8000_0000_0000_0000 == low);
    assert(low % 0x8000_0000_0000_0000 == low);
    assert(bits % 0x10_0000_0000_0000 == low % 0x10_0000_0000_0000);
}

/// Doubles rank as the numbers that they are: of two that are different numbers,
/// the greater one ranks higher.
pub proof fn doubles_rank_as_numbers(x: u64, y: u64)
    ensures
        double_units(x) < double_units(y) ==> double_rank(x) < double_rank(y),
{
    let high: u64 = 0x8000_0000_0000_0000;
    let lx = if x < high { x } else { (x - high) as u64 };
    let ly = if y < high { y } else { (y - high) as u64 };
    if x >= high {
        a_sign_keeps_the_magnitude(x);
    }
    if y >= high {
        a_sign_keeps_the_magnitude(y);
    }
    if lx < ly {
        magnitudes_grow(lx, ly);
    } else if ly < lx {
        magnitudes_grow(ly, lx);
    }
    if lx > 0 {
        magnitudes_grow(0, lx);
    }
    if ly > 0 {
        magnitudes_grow(0, ly);
    }
    assert(double_magnitude(0) == 0);
}

/// A value that is a double stands before another exactly by the numbers that
/// they are, negative ones by falling magnitude.
pub proof fn double_values_rank_by_sign_and_magnitude(x: u64, y: u64, a: Text, b: Text)
    ensures
        value_before(
            ValueModel::Float64 { bits: x, shown: a },
            ValueModel::Float64 { bits: y, shown: b },
        ) == if x >= 0x8000_0000_0000_0000 {
            y < 0x8000_0000_0000_0000 || y <= x
        } else {
            y < 0x8000_0000_0000_0000 && x <= y
        },
{
}

/// Of two scored targets the one whose score is the greater number comes first,
/// and of two with the same score that of the lower slot.
pub proof fn the_greater_score_comes_first(a: ScoredTarget, b: ScoredTarget)
    ensures
        double_units(a.score) > double_units(b.score) ==> ByScore.before(a, b) && !ByScore.before(
            b,
            a,
        ),
        a.score == b.score ==> (ByScore.before(a, b) <==> a.target <= b.target),
{
    doubles_rank_as_numbers(b.score, a.score);
}

/// Of two targets of several stores the one whose score is the greater number
/// comes first; with the same score that of the earlier type, and of one type
/// that of the lower slot.
pub proof fn the_greater_merged_score_comes_first(a: MergedHit, b: MergedHit)
    ensures
        double_units(a.score) > double_units(b.score) ==> ByScoreAndType.before(a, b)
            && !ByScoreAndType.before(b, a),
        a.score == b.score && a.owner < b.owner ==> ByScoreAndType.before(a, b)
            && !ByScoreAndType.before(b, a),
        a.score == b.score && a.owner == b.owner && a.target < b.target ==> ByScoreAndType.before(
            a,
            b,
        ) && !ByScoreAndType.before(b, a),
{
    doubles_rank_as_numbers(b.score, a.score);
}

/// Texts rank by the first letter in which they differ.
pub proof fn texts_rank_by_their_first_difference(a: Text, b: Text, at: int)
    requires
        0 <= at < a.len(),
        at < b.len(),
        forall|i: int| 0 <= i < at ==> a[i] == b[i],
        a[at] != b[at],
    ensures
        lex_le(a, b) <==> (a[at] as int) < (b[at] as int),
    decreases at,
{
    if at > 0 {
        assert(a[0] == b[0]);
        assert forall|i: int| 0 <= i < at - 1 implies a.drop_first()[i] == b.drop_first()[i] by {
            assert(a[i + 1] == b[i + 1]);
        }
        texts_rank_by_their_first_difference(a.drop_first(), b.drop_first(), at - 1);
    }
}

/// A text that another starts with ranks before it, and no longer text ranks
/// before what it starts with.
pub proof fn a_text_ranks_before_its_extensions(a: Text, rest: Text)
    ensures
        lex_le(a, a + rest),
        rest.len() > 0 ==> !lex_le(a + rest, a),
    decreases a.len(),
{
    if a.len() > 0 {
        a_text_ranks_before_its_extensions(a.drop_first(), rest);
        assert((a + rest).drop_first() =~= a.drop_first() + rest);
        assert((a + rest)[0] == a[0]);
    } else {
        assert(a + rest =~= rest);
    }
}

/// Values of different kinds rank by kind: nothing, then truth values, whole
/// numbers, doubles, ids, texts, and lists last.
pub proof fn kinds_rank_in_order(a: ValueModel, b: ValueModel)
    ensures
        a is Null ==> value_before(a, b),
        b is Null && !(a is Null) ==> !value_before(a, b),
        a is Boolean && (b is Int64 || b is Float64 || b is UniqueId || b is String || b is List)
            ==> value_before(a, b) && !value_before(b, a),
        a is Int64 && (b is Float64 || b is UniqueId || b is String || b is List) ==> value_before(
            a,
            b,
        ) && !value_before(b, a),
        a is Float64 && (b is UniqueId || b is String || b is List) ==> value_before(a, b)
            && !value_before(b, a),
        a is UniqueId && (b is String || b is List) ==> value_before(a, b) && !value_before(b, a),
        a is String && b is List ==> value_before(a, b) && !value_before(b, a),
        a is List && b is List ==> value_before(a, b),
{
}

/// Within a kind the smaller whole number, the smaller id and false rank first,
/// and texts rank as texts.
pub proof fn values_rank_within_their_kind(x: i64, y: i64, m: u32, n: u32, s: Text, t: Text)
    ensures
        value_before(ValueModel::Int64(x), ValueModel::Int64(y)) <==> x <= y,
        value_before(ValueModel::UniqueId(m), ValueModel::UniqueId(n)) <==> m <= n,
        value_before(ValueModel::Boolean(false), ValueModel::Boolean(true)),
        !value_before(ValueModel::Boolean(true), ValueModel::Boolean(false)),
        value_before(ValueModel::String(s), ValueModel::String(t)) <==> lex_le(s, t),
{
}

/// The number that a text of digits is.
pub open spec fn number_read(digits: Text) -> nat
    decreases digits.len(),
{
    if digits.len() == 0 {
        0
    } else {
        number_read(digits.drop_last()) * 10 + (digits.last() as int - '0' as int) as nat
    }
}

/// A number in decimal is of digits alone, starts with no needless zero, and
/// reads back as that number.
pub proof fn a_number_in_decimal_reads_back(n: nat)
    ensures
        decimal(n).len() > 0,
        forall|i: int| 0 <= i < decimal(n).len() ==> '0' <= #[trigger] decimal(n)[i] <= '9',
        n > 0 ==> decimal(n)[0] != '0',
        number_read(decimal(n)) == n,
    decreases n,
{
    reveal_with_fuel(number_read, 3);
    if n < 10 {
        assert(decimal(n).drop_last() =~= Seq::empty());
        assert(decimal(n).last() == digit_of(n));
    } else {
        a_number_in_decimal_reads_back(n / 10);
        assert(decimal(n).drop_last() =~= decimal(n / 10));
        assert(decimal(n).last() == digit_of(n % 10));
        assert(n / 10 * 10 + n % 10 == n);
    }
}

/// A negative number is written with a minus before its magnitude, and another
/// without a sign.
pub proof fn a_signed_number_reads_back(n: int)
    ensures
        n >= 0 ==> number_read(signed_decimal(n)) == n && signed_decimal(n)[0] != '-',
        n < 0 ==> signed_decimal(n)[0] == '-' && number_read(signed_decimal(n).drop_first()) == -n,
{
    if n < 0 {
        a_number_in_decimal_reads_back((-n) as nat);
        assert(signed_decimal(n).drop_first() =~= decimal((-n) as nat));
    } else {
        a_number_in_decimal_reads_back(n as nat);
    }
}

/// Two lists joined one after the other are the first joined, the separator,
/// and the second joined. One text joined is that text.
pub proof fn joining_goes_part_by_part(first: Seq<Text>, second: Seq<Text>, separator: Text)
    ensures
        joined(Seq::<Text>::empty(), separator) == Seq::<char>::empty(),
        first.len() == 1 ==> joined(first, separator) == first[0],
        first.len() > 0 && second.len() > 0 ==> joined(first + second, separator) == joined(
            first,
            separator,
        ) + separator + joined(second, separator),
    decreases second.len(),
{
    if first.len() > 0 && second.len() > 0 {
        let both = first + second;
        assert(both.drop_last() =~= first + second.drop_last());
        assert(both.last() == second.last());
        if second.len() == 1 {
            assert(both.drop_last() =~= first);
        } else {
            joining_goes_part_by_part(first, second.drop_last(), separator);
            assert(joined(both, separator) =~= joined(first, separator) + separator + joined(
                second,
                separator,
            ));
        }
    }
}

/// A value in words: nothing, the truth values and numbers as themselves, a text
/// in quotes, and a list as its items in brackets with commas between them.
pub proof fn a_value_is_shown_by_its_kind(value: ValueModel)
    ensures
        value is Null ==> shown_value(value) == "null"@,
        value == ValueModel::Boolean(true) ==> shown_value(value) == "true"@,
        value == ValueModel::Boolean(false) ==> shown_value(value) == "false"@,
        value matches ValueModel::Int64(n) ==> shown_value(value) == signed_decimal(n as int),
        value matches ValueModel::UniqueId(n) ==> shown_value(value) == decimal(n as nat),
        value matches ValueModel::Float64 { bits, shown } ==> shown_value(value) == shown,
        value matches ValueModel::String(text) ==> shown_value(value) == "\""@ + text + "\""@,
        value matches ValueModel::List(items) ==> shown_value(value) == "["@ + joined(
            Seq::new(items.len(), |i: int| shown_value(items[i])),
            ", "@,
        ) + "]"@,
{
    if let ValueModel::List(items) = value {
        shown_items_are_joined(items, items.len() as int);
        assert(Seq::new(items.len(), |i: int| shown_value(items[i])) =~= Seq::new(
            items.len() as int as nat,
            |i: int| shown_value(items[i]),
        ));
    }
}

proof fn shown_items_are_joined(items: Seq<ValueModel>, count: int)
    requires
        0 <= count <= items.len(),
    ensures
        crate::value::shown_items(items, count) == joined(
            Seq::new(count as nat, |i: int| shown_value(items[i])),
            ", "@,
        ),
    decreases count,
{
    let parts = Seq::new(count as nat, |i: int| shown_value(items[i]));
    if count > 1 {
        shown_items_are_joined(items, count - 1);
        assert(parts.drop_last() =~= Seq::new((count - 1) as nat, |i: int| shown_value(items[i])));
    }
}

} // verus!
