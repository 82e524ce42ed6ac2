//! One line about a longer text.

use crate::text::{chars_of, Text};
use vstd::prelude::*;

verus! {

/// The most bytes of a line.
pub const SUMMARY_BYTES: usize = 160;

/// White space.
pub open spec fn is_space(c: char) -> bool {
    ('\u{9}' <= c && c <= '\u{d}') || c == ' ' || c == '\u{85}' || c == '\u{a0}' || c == '\u{1680}'
        || ('\u{2000}' <= c && c <= '\u{200a}') || c == '\u{2028}' || c == '\u{2029}' || c
        == '\u{202f}' || c == '\u{205f}' || c == '\u{3000}'
}

fn space(c: char) -> (is: bool)
    ensures
        is == is_space(c),
{
    ('\u{9}' <= c && c <= '\u{d}') || c == ' ' || c == '\u{85}' || c == '\u{a0}' || c == '\u{1680}'
        || ('\u{2000}' <= c && c <= '\u{200a}') || c == '\u{2028}' || c == '\u{2029}' || c
        == '\u{202f}' || c == '\u{205f}' || c == '\u{3000}'
}

/// The bytes of a character.
pub open spec fn width(c: char) -> nat {
    if c <= '\u{7f}' {
        1
    } else if c <= '\u{7ff}' {
        2
    } else if c <= '\u{ffff}' {
        3
    } else {
        4
    }
}

fn char_width(c: char) -> (bytes: usize)
    ensures
        bytes == width(c),
        1 <= bytes <= 4,
{
    if c <= '\u{7f}' {
        1
    } else if c <= '\u{7ff}' {
        2
    } else if c <= '\u{ffff}' {
        3
    } else {
        4
    }
}

/// The bytes of the first `count` characters.
pub open spec fn width_upto(text: Text, count: nat) -> nat
    decreases count,
{
    if count == 0 {
        0
    } else {
        width_upto(text, (count - 1) as nat) + width(text[count - 1])
    }
}

/// A text with its line breaks as spaces.
pub open spec fn on_one_line(text: Text) -> Text {
    Seq::new(
        text.len(),
        |i: int|
            if text[i] == '\n' || text[i] == '\r' {
                ' '
            } else {
                text[i]
            },
    )
}

/// A text without the white space before it.
pub open spec fn start_trimmed(text: Text) -> Text
    decreases text.len(),
{
    if text.len() > 0 && is_space(text[0]) {
        start_trimmed(text.drop_first())
    } else {
        text
    }
}

/// A text without the white space behind it.
pub open spec fn end_trimmed(text: Text) -> Text
    decreases text.len(),
{
    if text.len() > 0 && is_space(text.last()) {
        end_trimmed(text.drop_last())
    } else {
        text
    }
}

/// Whether a sentence ends before a place: a full stop, and then white space or
/// nothing.
pub open spec fn ends_at(text: Text, end: nat) -> bool {
    &&& 1 <= end <= text.len()
    &&& text[end - 1] == '.'
    &&& end == text.len() || is_space(text[end as int])
}

/// Where the first sentence ends, from `from`.
pub open spec fn sentence_end(text: Text, from: nat) -> Option<nat>
    decreases text.len() - from,
{
    if from >= text.len() {
        None
    } else if ends_at(text, from + 1) {
        Some(from + 1)
    } else {
        sentence_end(text, from + 1)
    }
}

/// The most characters, at least `from`, whose bytes fit a line.
pub open spec fn fitting(text: Text, from: nat) -> nat
    decreases text.len() - from,
{
    if from >= text.len() || width_upto(text, from + 1) > SUMMARY_BYTES {
        from
    } else {
        fitting(text, from + 1)
    }
}

/// One line about a text: its first sentence where that fits, the text where it
/// fits, else as much of it as fits and an ellipsis.
pub open spec fn summary_of(description: Text) -> Text {
    let text = end_trimmed(start_trimmed(on_one_line(description)));
    let end = sentence_end(text, 0);
    if end is Some && width_upto(text, end->0) <= SUMMARY_BYTES {
        text.take(end->0 as int)
    } else if width_upto(text, text.len()) <= SUMMARY_BYTES {
        text
    } else {
        end_trimmed(text.take(fitting(text, 0) as int)).push('…')
    }
}

proof fn width_grows(text: Text, count: nat, upto: nat)
    requires
        count <= upto <= text.len(),
    ensures
        width_upto(text, count) <= width_upto(text, upto),
    decreases upto - count,
{
    if count < upto {
        width_grows(text, count, (upto - 1) as nat);
    }
}

pub(crate) proof fn fitting_is_the_most(text: Text, from: nat)
    requires
        from <= text.len(),
        width_upto(text, from) <= SUMMARY_BYTES,
    ensures
        from <= fitting(text, from) <= text.len(),
        width_upto(text, fitting(text, from)) <= SUMMARY_BYTES,
        fitting(text, from) < text.len() ==> width_upto(text, fitting(text, from) + 1)
            > SUMMARY_BYTES,
    decreases text.len() - from,
{
    if from < text.len() && width_upto(text, from + 1) <= SUMMARY_BYTES {
        fitting_is_the_most(text, from + 1);
    }
}

proof fn fits_up_to(text: Text, count: nat)
    requires
        count <= text.len(),
    ensures
        width_upto(text, count) <= SUMMARY_BYTES <==> count <= fitting(text, 0),
{
    fitting_is_the_most(text, 0);
    let most = fitting(text, 0);
    if count <= most {
        width_grows(text, count, most);
    } else {
        width_grows(text, most + 1, count);
    }
}

proof fn widths_alike(a: Text, b: Text, count: nat)
    requires
        count <= a.len(),
        count <= b.len(),
        forall|i: int| 0 <= i < count ==> a[i] == b[i],
    ensures
        width_upto(a, count) == width_upto(b, count),
    decreases count,
{
    if count > 0 {
        widths_alike(a, b, (count - 1) as nat);
    }
}

fn one_line(letters: &Vec<char>) -> (flat: Vec<char>)
    ensures
        flat@ == on_one_line(letters@),
{
    let mut flat: Vec<char> = Vec::new();
    let mut i: usize = 0;
    while i < letters.len()
        invariant
            i <= letters@.len(),
            flat@ == on_one_line(letters@).take(i as int),
        decreases letters@.len() - i,
    {
        let c: char = letters[i];
        let put: char = if c == '\n' || c == '\r' {
            ' '
        } else {
            c
        };
        flat.push(put);
        assert(on_one_line(letters@).take(i + 1) =~= on_one_line(letters@).take(i as int).push(
            on_one_line(letters@)[i as int],
        ));
        i = i + 1;
    }
    assert(on_one_line(letters@).take(i as int) =~= on_one_line(letters@));
    flat
}

/// The place behind the last character, before `end`, that is no white space.
fn trimmed_end(letters: &Vec<char>, start: usize, end: usize) -> (last: usize)
    requires
        start <= end <= letters@.len(),
    ensures
        start <= last <= end,
        letters@.subrange(start as int, last as int) == end_trimmed(
            letters@.subrange(start as int, end as int),
        ),
{
    let ghost whole = letters@.subrange(start as int, end as int);
    let mut last: usize = end;
    while last > start && space(letters[last - 1])
        invariant
            start <= last <= end <= letters@.len(),
            whole == letters@.subrange(start as int, end as int),
            end_trimmed(letters@.subrange(start as int, last as int)) == end_trimmed(whole),
        decreases last,
    {
        proof {
            let part = letters@.subrange(start as int, last as int);
            assert(part.last() == letters@[last - 1]);
            assert(part.drop_last() =~= letters@.subrange(start as int, last - 1));
        }
        last = last - 1;
    }
    proof {
        let part = letters@.subrange(start as int, last as int);
        if part.len() > 0 {
            assert(part.last() == letters@[last - 1]);
        }
    }
    last
}

fn trimmed_start(letters: &Vec<char>) -> (start: usize)
    ensures
        start <= letters@.len(),
        letters@.subrange(start as int, letters@.len() as int) == start_trimmed(letters@),
{
    let mut start: usize = 0;
    assert(letters@.subrange(0, letters@.len() as int) =~= letters@);
    while start < letters.len() && space(letters[start])
        invariant
            start <= letters@.len(),
            start_trimmed(letters@.subrange(start as int, letters@.len() as int))
                == start_trimmed(letters@),
        decreases letters@.len() - start,
    {
        proof {
            let part = letters@.subrange(start as int, letters@.len() as int);
            assert(part[0] == letters@[start as int]);
            assert(part.drop_first() =~= letters@.subrange(start + 1, letters@.len() as int));
        }
        start = start + 1;
    }
    proof {
        let part = letters@.subrange(start as int, letters@.len() as int);
        if part.len() > 0 {
            assert(part[0] == letters@[start as int]);
        }
    }
    start
}

fn push_letters(out: &mut String, letters: &Vec<char>, start: usize, end: usize)
    requires
        start <= end <= letters@.len(),
    ensures
        final(out)@ == old(out)@ + letters@.subrange(start as int, end as int),
{
    let ghost before = out@;
    let mut i: usize = start;
    assert(before + letters@.subrange(start as int, start as int) =~= before);
    while i < end
        invariant
            start <= i <= end <= letters@.len(),
            out@ == before + letters@.subrange(start as int, i as int),
        decreases end - i,
    {
        out.push(letters[i]);
        assert(before + letters@.subrange(start as int, i + 1) =~= (before + letters@.subrange(
            start as int,
            i as int,
        )).push(letters@[i as int]));
        i = i + 1;
    }
}

/// One line about a text.
pub fn summary(description: &str) -> (line: String)
    ensures
        line@ == summary_of(description@),
{
    let given = chars_of(description);
    let letters = one_line(&given);
    let start: usize = trimmed_start(&letters);
    let total: usize = letters.len();
    let end: usize = trimmed_end(&letters, start, total);
    let ghost text = letters@.subrange(start as int, end as int);
    let ghost size = text.len();
    assert(text == end_trimmed(start_trimmed(on_one_line(description@))));
    let count: usize = end - start;
    let mut bytes: usize = 0;
    let mut most: usize = 0;
    let mut full = false;
    while most < count && !full
        invariant
            start + count == end,
            end <= letters@.len(),
            text == letters@.subrange(start as int, end as int),
            count == text.len(),
            most <= count,
            bytes <= SUMMARY_BYTES,
            !full ==> bytes == width_upto(text, most as nat),
            fitting(text, 0) == if full {
                most as nat
            } else {
                fitting(text, most as nat)
            },
        decreases count - most + if full {
            0int
        } else {
            1int
        },
    {
        let wide: usize = char_width(letters[start + most]);
        assert(text[most as int] == letters@[start + most]);
        if bytes + wide > SUMMARY_BYTES {
            full = true;
        } else {
            bytes = bytes + wide;
            most = most + 1;
        }
    }
    assert(most == fitting(text, 0));
    let mut stop: usize = 0;
    let mut ended = false;
    while stop < count && !ended
        invariant
            start + count == end,
            end <= letters@.len(),
            text == letters@.subrange(start as int, end as int),
            count == text.len(),
            stop <= count,
            ended ==> sentence_end(text, 0) == Some(stop as nat),
            !ended ==> sentence_end(text, 0) == sentence_end(text, stop as nat),
        decreases count - stop + if ended {
            0int
        } else {
            1int
        },
    {
        assert(text[stop as int] == letters@[start + stop]);
        if letters[start + stop] == '.' {
            if stop + 1 == count {
                ended = true;
            } else {
                assert(text[stop + 1] == letters@[start + stop + 1]);
                if space(letters[start + stop + 1]) {
                    ended = true;
                }
            }
        }
        stop = stop + 1;
    }
    proof {
        fits_up_to(text, stop as nat);
        fits_up_to(text, text.len());
    }
    let mut line = String::new();
    assert(line@ =~= Seq::<char>::empty());
    if ended && stop <= most {
        push_letters(&mut line, &letters, start, start + stop);
        assert(line@ =~= text.take(stop as int));
        return line;
    }
    if most == count {
        push_letters(&mut line, &letters, start, end);
        assert(line@ =~= text);
        return line;
    }
    let cut: usize = trimmed_end(&letters, start, start + most);
    push_letters(&mut line, &letters, start, cut);
    assert(letters@.subrange(start as int, start + most) =~= text.take(most as int));
    assert(line@ =~= end_trimmed(text.take(most as int)));
    line.push('…');
    line
}

proof fn trimming_keeps(text: Text)
    ensures
        end_trimmed(text).len() <= text.len(),
        end_trimmed(text) == text.take(end_trimmed(text).len() as int),
    decreases text.len(),
{
    if text.len() > 0 && is_space(text.last()) {
        trimming_keeps(text.drop_last());
        let kept = end_trimmed(text.drop_last());
        assert(text.drop_last().take(kept.len() as int) =~= text.take(kept.len() as int));
    } else {
        assert(text.take(text.len() as int) =~= text);
    }
}

proof fn start_trimming_keeps(text: Text)
    ensures
        start_trimmed(text).len() <= text.len(),
        start_trimmed(text) == text.skip(text.len() - start_trimmed(text).len()),
    decreases text.len(),
{
    if text.len() > 0 && is_space(text[0]) {
        start_trimming_keeps(text.drop_first());
        let kept = start_trimmed(text.drop_first());
        assert(text.drop_first().skip(text.drop_first().len() - kept.len()) =~= text.skip(
            text.len() - kept.len(),
        ));
    } else {
        assert(text.skip(0) =~= text);
    }
}

/// A summary is one line, and no longer than a line and an ellipsis.
pub proof fn a_summary_is_one_short_line(description: Text)
    ensures
        forall|i: int|
            0 <= i < summary_of(description).len() ==> #[trigger] summary_of(description)[i] != '\n'
                && summary_of(description)[i] != '\r',
        width_upto(summary_of(description), summary_of(description).len()) <= SUMMARY_BYTES + 3,
{
    let flat = on_one_line(description);
    let text = end_trimmed(start_trimmed(flat));
    start_trimming_keeps(flat);
    trimming_keeps(start_trimmed(flat));
    assert forall|i: int| 0 <= i < text.len() implies text[i] != '\n' && text[i] != '\r' by {
        let from = flat.len() - start_trimmed(flat).len();
        assert(text[i] == flat[from + i]);
    }
    let line = summary_of(description);
    let end = sentence_end(text, 0);
    let most = fitting(text, 0);
    fitting_is_the_most(text, 0);
    if end is Some && width_upto(text, end->0) <= SUMMARY_BYTES {
        sentence_ends_within(text, 0);
        widths_alike(line, text, end->0);
    } else if width_upto(text, text.len()) <= SUMMARY_BYTES {
    } else {
        let cut = end_trimmed(text.take(most as int));
        trimming_keeps(text.take(most as int));
        assert forall|i: int| 0 <= i < cut.len() implies cut[i] == text[i] by {}
        widths_alike(line, text, cut.len());
        width_grows(text, cut.len(), most);
        assert(line[cut.len() as int] == '…');
    }
}

proof fn sentence_ends_within(text: Text, from: nat)
    requires
        sentence_end(text, from) is Some,
    ensures
        sentence_end(text, from)->0 <= text.len(),
    decreases text.len() - from,
{
    if from < text.len() && !ends_at(text, from + 1) {
        sentence_ends_within(text, from + 1);
    }
}

} // verus!
