//! Strings as sequences of characters: equality, decimal numbers, affixes,
//! lexicographic order, and sorting by it.
use vstd::prelude::*;
use crate::order::{ascends, ascends_with, is_order};

verus! {

/// What a string holds.
pub type Text = Seq<char>;

/// `str == str` of std: whether the two strings hold the same characters.
#[verifier::external_body]
pub(crate) fn text_eq(left: &str, right: &str) -> (same: bool)
    ensures
        same == (left@ == right@),
{
    left == right
}

/// `String::push` of std: appends one character.
pub assume_specification[ std::string::String::push ](text: &mut std::string::String, c: char)
    ensures
        final(text)@ == old(text)@.push(c),
;

/// The character of a decimal digit.
pub open spec fn digit_of(d: nat) -> char {
    if d == 0 { '0' } else if d == 1 { '1' } else if d == 2 { '2' } else if d == 3 { '3' }
    else if d == 4 { '4' } else if d == 5 { '5' } else if d == 6 { '6' } else if d == 7 { '7' }
    else if d == 8 { '8' } else { '9' }
}

/// `n` in decimal, without leading zeros.
pub open spec fn decimal(n: nat) -> Text
    decreases n,
{
    if n < 10 {
        seq![digit_of(n)]
    } else {
        decimal(n / 10).push(digit_of(n % 10))
    }
}

/// `n` in decimal, with a sign when negative.
pub open spec fn signed_decimal(n: int) -> Text {
    if n < 0 {
        seq!['-'] + decimal((-n) as nat)
    } else {
        decimal(n as nat)
    }
}

fn digit(d: u64) -> (c: char)
    requires
        d < 10,
    ensures
        c == digit_of(d as nat),
{
    if d == 0 { '0' } else if d == 1 { '1' } else if d == 2 { '2' } else if d == 3 { '3' }
    else if d == 4 { '4' } else if d == 5 { '5' } else if d == 6 { '6' } else if d == 7 { '7' }
    else if d == 8 { '8' } else { '9' }
}

/// Appends `n` in decimal.
pub fn push_decimal(text: &mut String, n: u64)
    ensures
        final(text)@ == old(text)@ + decimal(n as nat),
    decreases n,
{
    if n >= 10 {
        push_decimal(text, n / 10);
    }
    text.push(digit(n % 10));
}

/// Appends `n` in decimal.
pub fn push_number(text: &mut String, n: usize)
    ensures
        final(text)@ == old(text)@ + decimal(n as nat),
{
    push_decimal(text, n as u64);
}

/// Appends `n` in decimal, with a sign when negative.
pub fn push_signed(text: &mut String, n: i64)
    ensures
        final(text)@ == old(text)@ + signed_decimal(n as int),
{
    if n < 0 {
        text.push('-');
        let magnitude: u64 = if n == i64::MIN { 9223372036854775808 } else { (-n) as u64 };
        push_decimal(text, magnitude);
    } else {
        push_decimal(text, n as u64);
    }
}

/// The characters of a string, one by one.
pub fn chars_of(text: &str) -> (chars: Vec<char>)
    ensures
        chars@ == text@,
{
    let mut chars: Vec<char> = Vec::new();
    for c in it: text.chars()
        invariant
            chars@ == it.seq().take(it.index() as int),
            it.seq() == text@,
    {
        chars.push(c);
    }
    chars
}

/// The texts of a list of strings.
pub open spec fn texts(strings: Seq<String>) -> Seq<Text> {
    Seq::new(strings.len(), |i: int| strings[i]@)
}

/// The text of an optional string.
pub open spec fn text_option(text: Option<String>) -> Option<Text> {
    match text {
        Some(t) => Some(t@),
        None => None,
    }
}

/// The text of an optional borrowed string.
pub open spec fn str_option(text: Option<&str>) -> Option<Text> {
    match text {
        Some(t) => Some(t@),
        None => None,
    }
}

/// An owned copy of an optional borrowed string.
pub(crate) fn owned_option(text: Option<&str>) -> (owned: Option<String>)
    ensures
        text_option(owned) == str_option(text),
{
    match text {
        Some(t) => Some(t.to_owned()),
        None => None,
    }
}

/// Whether two optional strings hold the same text.
pub(crate) fn text_option_eq(left: Option<&str>, right: Option<&str>) -> (same: bool)
    ensures
        same == (str_option(left) == str_option(right)),
{
    match (left, right) {
        (Some(l), Some(r)) => text_eq(l, r),
        (None, None) => true,
        _ => false,
    }
}

/// `parts` in order, with `separator` between each two.
pub open spec fn joined(parts: Seq<Text>, separator: Text) -> Text
    decreases parts.len(),
{
    if parts.len() == 0 {
        Seq::empty()
    } else if parts.len() == 1 {
        parts[0]
    } else {
        joined(parts.drop_last(), separator) + separator + parts.last()
    }
}

/// The strings in order, with `separator` between each two.
pub fn join(parts: &Vec<String>, separator: &str) -> (whole: String)
    ensures
        whole@ == joined(texts(parts@), separator@),
{
    let mut whole = String::new();
    let mut i: usize = 0;
    while i < parts.len()
        invariant
            i <= parts.len(),
            whole@ == joined(texts(parts@).take(i as int), separator@),
        decreases parts.len() - i,
    {
        if i > 0 {
            whole.append(separator);
        }
        whole.append(parts[i].as_str());
        proof {
            let upto = texts(parts@).take(i + 1);
            assert(upto.drop_last() == texts(parts@).take(i as int));
            assert(upto.last() == parts@[i as int]@);
            if i == 0 {
                assert(whole@ == upto[0]);
            }
        }
        i = i + 1;
    }
    assert(texts(parts@).take(i as int) == texts(parts@));
    whole
}

/// Lexicographic order of texts by code point, which is the order of `str`.
pub open spec fn lex_le(a: Text, b: Text) -> bool
    decreases a.len(),
{
    if a.len() == 0 {
        true
    } else if b.len() == 0 {
        false
    } else if a[0] != b[0] {
        (a[0] as int) < (b[0] as int)
    } else {
        lex_le(a.drop_first(), b.drop_first())
    }
}

/// Lexicographic order is total.
pub proof fn lex_le_total(a: Text, b: Text)
    ensures
        lex_le(a, b) || lex_le(b, a),
    decreases a.len(),
{
    if a.len() > 0 && b.len() > 0 && a[0] == b[0] {
        lex_le_total(a.drop_first(), b.drop_first());
    }
}

/// Lexicographic order is transitive.
pub proof fn lex_le_transitive(a: Text, b: Text, c: Text)
    requires
        lex_le(a, b),
        lex_le(b, c),
    ensures
        lex_le(a, c),
    decreases a.len(),
{
    if a.len() > 0 && b.len() > 0 && c.len() > 0 && a[0] == b[0] && b[0] == c[0] {
        lex_le_transitive(a.drop_first(), b.drop_first(), c.drop_first());
    }
}

/// Two texts that precede each other are the same text.
pub proof fn lex_le_antisymmetric(a: Text, b: Text)
    requires
        lex_le(a, b),
        lex_le(b, a),
    ensures
        a == b,
    decreases a.len(),
{
    if a.len() > 0 && b.len() > 0 {
        lex_le_antisymmetric(a.drop_first(), b.drop_first());
        assert(a.len() == a.drop_first().len() + 1);
        assert(b.len() == b.drop_first().len() + 1);
        assert forall|i: int| 0 <= i < a.len() implies a[i] == b[i] by {
            if i > 0 {
                assert(a[i] == a.drop_first()[i - 1]);
                assert(b[i] == b.drop_first()[i - 1]);
            }
        }
    }
    assert(a =~= b);
}

/// Whether `left` comes no later than `right` in lexicographic order.
pub fn text_le(left: &str, right: &str) -> (le: bool)
    ensures
        le == lex_le(left@, right@),
{
    let l = chars_of(left);
    let r = chars_of(right);
    let mut i: usize = 0;
    assert(left@.skip(0) == left@);
    assert(right@.skip(0) == right@);
    loop
        invariant
            l@ == left@,
            r@ == right@,
            i <= l.len(),
            i <= r.len(),
            lex_le(left@, right@) == lex_le(left@.skip(i as int), right@.skip(i as int)),
        decreases l.len() - i,
    {
        if i == l.len() {
            return true;
        }
        if i == r.len() {
            return false;
        }
        if l[i] != r[i] {
            return l[i] < r[i];
        }
        assert(left@.skip(i as int).drop_first() == left@.skip(i + 1));
        assert(right@.skip(i as int).drop_first() == right@.skip(i + 1));
        i = i + 1;
    }
}

/// The order of texts.
pub open spec fn text_order() -> spec_fn(Text, Text) -> bool {
    |a: Text, b: Text| lex_le(a, b)
}

/// The order of texts orders every two texts one way.
pub proof fn text_order_is_order()
    ensures
        is_order(text_order()),
{
    let le = text_order();
    assert forall|a: Text, b: Text| #![trigger le(a, b)] le(a, b) || le(b, a) by {
        lex_le_total(a, b);
    }
    assert forall|a: Text, b: Text| #![trigger le(a, b), le(b, a)] le(a, b) && le(b, a) implies a
        == b by {
        lex_le_antisymmetric(a, b);
    }
    assert forall|a: Text, b: Text, c: Text|
        #![trigger le(a, b), le(b, c)]
        le(a, b) && le(b, c) implies le(a, c) by {
        lex_le_transitive(a, b, c);
    }
}

/// Puts a text into an ascending list, once.
pub fn insert_text(items: &mut Vec<String>, item: &str)
    requires
        ascends(texts(old(items)@), text_order()),
    ensures
        ascends(texts(final(items)@), text_order()),
        texts(final(items)@).to_set() == texts(old(items)@).to_set().insert(item@),
{
    let mut at: usize = 0;
    while at < items.len() && !text_le(item, items[at].as_str())
        invariant
            at <= items@.len(),
            items@ == old(items)@,
            forall|k: int| 0 <= k < at ==> !lex_le(item@, (#[trigger] items@[k])@),
        decreases items@.len() - at,
    {
        at = at + 1;
    }
    let ghost before = texts(items@);
    if at < items.len() && text_eq(items[at].as_str(), item) {
        assert(before[at as int] == item@);
        assert(before.contains(item@));
        assert(before.to_set() =~= before.to_set().insert(item@));
        return ;
    }
    items.insert(at, item.to_owned());
    proof {
        text_order_is_order();
        ascends_with(before, at as int, item@, text_order());
        assert(texts(items@) =~= before.insert(at as int, item@));
    }
}

} // verus!
