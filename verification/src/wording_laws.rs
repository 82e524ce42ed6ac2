//! What holds of texts that are hashed, escaped or shortened.

use crate::relationship_property::{property_read, EnvelopeModel};
use crate::summary::{
    end_trimmed, ends_at, fitting, fitting_is_the_most, is_space, on_one_line, sentence_end,
    start_trimmed, summary_of, width, width_upto,
};
use crate::text::Text;
use crate::text_hash::hash_of_text;
use crate::topology::Topology;
use crate::value::ValueModel;
use crate::xml::{escaped, escaped_upto};
use vstd::arithmetic::div_mod::{
    lemma_mod_multiples_vanish, lemma_mul_mod_noop_left, lemma_small_mod,
};
use vstd::prelude::*;

verus! {

/// The hash of a text with one letter more is that of the text, stirred with the
/// letter and spread over all bits.
pub proof fn a_hash_takes_in_every_letter(text: Text, letter: char)
    ensures
        hash_of_text(Seq::empty()) == 0xcbf2_9ce4_8422_2325u64,
        hash_of_text(text.push(letter)) == (((hash_of_text(text) ^ (letter as u64)) as int)
            * 0x100_0000_01b3) % 0x1_0000_0000_0000_0000,
{
    assert(text.push(letter).drop_last() =~= text);
    assert(text.push(letter).last() == letter);
}

proof fn spreading_loses_nothing(x: u64, y: u64)
    requires
        (x as int * 0x100_0000_01b3) % 0x1_0000_0000_0000_0000 == (y as int * 0x100_0000_01b3)
            % 0x1_0000_0000_0000_0000,
    ensures
        x == y,
{
    spread_back(x);
    spread_back(y);
}

proof fn spread_back(x: u64)
    ensures
        ((x as int * 0x100_0000_01b3) % 0x1_0000_0000_0000_0000) * 0xce96_5057_aff6_957b
            % 0x1_0000_0000_0000_0000 == x,
{
    let m: int = 0x1_0000_0000_0000_0000;
    let step: int = 0x100_0000_01b3;
    let back: int = 0xce96_5057_aff6_957b;
    lemma_mul_mod_noop_left(x as int * step, back, m);
    assert(step * back == 887285111055 * m + 1) by (nonlinear_arith)
        requires
            step == 0x100_0000_01b3,
            back == 0xce96_5057_aff6_957b,
            m == 0x1_0000_0000_0000_0000,
    ;
    assert((x as int * step) * back == m * (887285111055 * x) + x) by (nonlinear_arith)
        requires
            step * back == 887285111055 * m + 1,
    ;
    lemma_mod_multiples_vanish(887285111055 * x, x as int, m);
    lemma_small_mod(x as nat, m as nat);
}

/// Texts that differ in their last letter alone have different hashes, and so have
/// texts of different hashes with one letter more.
pub proof fn one_letter_changes_the_hash(a: Text, b: Text, x: char, y: char)
    ensures
        x != y ==> hash_of_text(a.push(x)) != hash_of_text(a.push(y)),
        hash_of_text(a) != hash_of_text(b) ==> hash_of_text(a.push(x)) != hash_of_text(
            b.push(x),
        ),
{
    a_hash_takes_in_every_letter(a, x);
    a_hash_takes_in_every_letter(a, y);
    a_hash_takes_in_every_letter(b, x);
    let h = hash_of_text(a);
    let g = hash_of_text(b);
    let p = x as u64;
    let q = y as u64;
    if hash_of_text(a.push(x)) == hash_of_text(a.push(y)) {
        spreading_loses_nothing(h ^ p, h ^ q);
        assert(h ^ p == h ^ q ==> p == q) by (bit_vector);
    }
    if hash_of_text(a.push(x)) == hash_of_text(b.push(x)) {
        spreading_loses_nothing(h ^ p, g ^ p);
        assert(h ^ p == g ^ p ==> h == g) by (bit_vector);
    }
}

/// A text is escaped letter by letter: four characters have names, and every other
/// one stands for itself.
pub proof fn escaping_goes_letter_by_letter(a: Text, b: Text, c: char)
    ensures
        escaped(a + b) == escaped(a) + escaped(b),
        escaped(seq![c]) == if c == '&' {
            "&amp;"@
        } else if c == '<' {
            "&lt;"@
        } else if c == '>' {
            "&gt;"@
        } else if c == '"' {
            "&quot;"@
        } else {
            seq![c]
        },
    decreases b.len(),
{
    reveal_with_fuel(escaped_upto, 2);
    assert(Seq::<char>::empty() + crate::xml::escaped_char(c) =~= crate::xml::escaped_char(c));
    if b.len() == 0 {
        assert(a + b =~= a);
        assert(escaped(a) + escaped(b) =~= escaped(a));
    } else {
        let rest = b.drop_last();
        escaping_goes_letter_by_letter(a, rest, c);
        escaping_needs_only_what_came(a + b, a + rest, (a + rest).len());
        escaping_needs_only_what_came(b, rest, rest.len());
        assert((a + b)[(a + b).len() - 1] == b[b.len() - 1]);
        assert(escaped(a + b) =~= escaped(a) + escaped(b));
    }
}

proof fn escaping_needs_only_what_came(a: Text, b: Text, count: nat)
    requires
        count <= a.len(),
        count <= b.len(),
        forall|i: int| 0 <= i < count ==> a[i] == b[i],
    ensures
        escaped_upto(a, count) == escaped_upto(b, count),
    decreases count,
{
    if count > 0 {
        escaping_needs_only_what_came(a, b, (count - 1) as nat);
    }
}

/// White space is the tab and the breaks after it, the space, and the wider spaces
/// and breaks beyond the Latin alphabet.
pub proof fn white_space_is_the_unicode_one(c: char)
    ensures
        is_space(c) <==> {
            let code = c as u32;
            ||| 9 <= code <= 13
            ||| code == 32
            ||| code == 0x85
            ||| code == 0xA0
            ||| code == 0x1680
            ||| 0x2000 <= code <= 0x200A
            ||| code == 0x2028
            ||| code == 0x2029
            ||| code == 0x202F
            ||| code == 0x205F
            ||| code == 0x3000
        },
{
}

/// What stands before the first letter that is no white space is trimmed, and
/// nothing else at the start.
pub proof fn trimming_the_start_takes_the_space(space: Text, rest: Text)
    requires
        forall|i: int| 0 <= i < space.len() ==> is_space(#[trigger] space[i]),
        rest.len() > 0 ==> !is_space(rest[0]),
    ensures
        start_trimmed(space + rest) == rest,
    decreases space.len(),
{
    if space.len() > 0 {
        let less = space.drop_first();
        assert forall|i: int| 0 <= i < less.len() implies is_space(#[trigger] less[i]) by {
            assert(less[i] == space[i + 1]);
        }
        trimming_the_start_takes_the_space(less, rest);
        assert((space + rest).drop_first() =~= less + rest);
        assert(is_space(space[0]));
    } else {
        assert(space + rest =~= rest);
    }
}

/// What stands behind the last letter that is no white space is trimmed, and
/// nothing else at the end.
pub proof fn trimming_the_end_takes_the_space(rest: Text, space: Text)
    requires
        forall|i: int| 0 <= i < space.len() ==> is_space(#[trigger] space[i]),
        rest.len() > 0 ==> !is_space(rest.last()),
    ensures
        end_trimmed(rest + space) == rest,
    decreases space.len(),
{
    if space.len() > 0 {
        let less = space.drop_last();
        assert forall|i: int| 0 <= i < less.len() implies is_space(#[trigger] less[i]) by {
            assert(less[i] == space[i]);
        }
        trimming_the_end_takes_the_space(rest, less);
        assert((rest + space).drop_last() =~= rest + less);
        assert((rest + space).last() == space.last());
        assert(is_space(space[space.len() - 1]));
    } else {
        assert(rest + space =~= rest);
    }
}

/// A character takes one byte up to the seventh bit, two up to the eleventh, three
/// up to the sixteenth, and four beyond.
pub proof fn a_character_takes_its_bytes(c: char)
    ensures
        (c as u32) < 0x80 ==> width(c) == 1,
        0x80 <= (c as u32) < 0x800 ==> width(c) == 2,
        0x800 <= (c as u32) < 0x1_0000 ==> width(c) == 3,
        (c as u32) >= 0x1_0000 ==> width(c) == 4,
{
}

/// The bytes of a text are those of its characters together.
pub proof fn a_text_takes_the_bytes_of_its_characters(text: Text, c: char)
    ensures
        width_upto(Seq::empty(), 0) == 0,
        width_upto(text.push(c), text.len() + 1) == width_upto(text, text.len()) + width(c),
{
    widths_agree(text.push(c), text, text.len());
}

proof fn widths_agree(a: Text, b: Text, count: nat)
    requires
        count <= a.len(),
        count <= b.len(),
        forall|i: int| 0 <= i < count ==> a[i] == b[i],
    ensures
        width_upto(a, count) == width_upto(b, count),
    decreases count,
{
    if count > 0 {
        widths_agree(a, b, (count - 1) as nat);
    }
}

/// A text has its line breaks as spaces, and everything else as it was.
pub proof fn one_line_keeps_every_other_letter(text: Text, at: int)
    requires
        0 <= at < text.len(),
    ensures
        on_one_line(text).len() == text.len(),
        text[at] == '\n' || text[at] == '\r' ==> on_one_line(text)[at] == ' ',
        text[at] != '\n' && text[at] != '\r' ==> on_one_line(text)[at] == text[at],
{
}

proof fn the_first_sentence_is_found(text: Text, from: nat, end: nat)
    requires
        from < end <= text.len(),
        ends_at(text, end),
        forall|k: nat| from < k < end ==> !#[trigger] ends_at(text, k),
    ensures
        sentence_end(text, from) == Some(end),
    decreases end - from,
{
    if from + 1 < end {
        assert(!ends_at(text, from + 1));
        the_first_sentence_is_found(text, from + 1, end);
    }
}

proof fn no_sentence_is_found(text: Text, from: nat)
    requires
        forall|k: nat| from < k <= text.len() ==> !#[trigger] ends_at(text, k),
    ensures
        sentence_end(text, from) is None,
    decreases text.len() - from,
{
    if from < text.len() {
        assert(!ends_at(text, from + 1));
        no_sentence_is_found(text, from + 1);
    }
}

/// A full stop ends a sentence where nothing or white space follows.
pub open spec fn stops(text: Text, end: nat) -> bool {
    &&& 1 <= end <= text.len()
    &&& text[end - 1] == '.'
    &&& end == text.len() || is_space(text[end as int])
}

/// One line about a description, which stands on one line and is trimmed: its
/// first sentence, where that takes at most a hundred and sixty bytes; else the
/// whole, where that does; else the longest start that does, trimmed, and an
/// ellipsis.
pub proof fn a_summary_is_what_fits(description: Text, end: nat)
    ensures
        ({
            let text = end_trimmed(start_trimmed(on_one_line(description)));
            let whole = width_upto(text, text.len());
            let summary = summary_of(description);
            &&& stops(text, end) && (forall|k: nat| 0 < k < end ==> !#[trigger] stops(text, k))
                && width_upto(text, end) <= 160 ==> summary == text.take(end as int)
            &&& (forall|k: nat| 0 < k <= text.len() ==> !#[trigger] stops(text, k)) && whole <= 160
                ==> summary == text
            &&& whole > 160 && (forall|k: nat|
                0 < k <= text.len() && width_upto(text, k) <= 160 ==> !#[trigger] stops(text, k))
                ==> exists|count: nat|
                #![trigger text.take(count as int)]
                count < text.len() && width_upto(text, count) <= 160 && width_upto(text, count + 1)
                    > 160 && summary == end_trimmed(text.take(count as int)).push('…')
        }),
{
    let text = end_trimmed(start_trimmed(on_one_line(description)));
    let whole = width_upto(text, text.len());
    assert forall|k: nat| #[trigger] ends_at(text, k) <==> stops(text, k) by {}
    assert forall|k: nat| #[trigger] stops(text, k) <==> ends_at(text, k) by {}
    if stops(text, end) && (forall|k: nat| 0 < k < end ==> !#[trigger] stops(text, k)) {
        assert forall|k: nat| 0 < k < end implies !#[trigger] ends_at(text, k) by {
            assert(!stops(text, k));
        }
        the_first_sentence_is_found(text, 0, end);
    }
    if forall|k: nat| 0 < k <= text.len() ==> !#[trigger] stops(text, k) {
        assert forall|k: nat| 0 < k <= text.len() implies !#[trigger] ends_at(text, k) by {
            assert(!stops(text, k));
        }
        no_sentence_is_found(text, 0);
    }
    if whole > 160 && (forall|k: nat|
        0 < k <= text.len() && width_upto(text, k) <= 160 ==> !#[trigger] stops(text, k)) {
        let found = sentence_end(text, 0);
        if found is Some {
            a_found_sentence_ends(text, 0);
            assert(ends_at(text, found->0));
            assert(stops(text, found->0));
        }
        fitting_is_the_most(text, 0);
        let count = fitting(text, 0);
        assert(summary_of(description) == end_trimmed(text.take(count as int)).push('…'));
    }
}

proof fn a_found_sentence_ends(text: Text, from: nat)
    ensures
        sentence_end(text, from) is Some ==> from < sentence_end(text, from)->0 && ends_at(
            text,
            sentence_end(text, from)->0,
        ),
    decreases text.len() - from,
{
    if from < text.len() {
        a_found_sentence_ends(text, from + 1);
    }
}

/// What a relationship is under a key that it has no value of its own for: its type
/// under two names, its slot as its id, and the ids of its nodes under two names
/// each; nothing under any other.
pub proof fn a_relationship_answers_to_its_keys(
    topology: Topology,
    key: Text,
    envelope: EnvelopeModel,
)
    ensures
        ({
            let read = property_read(topology, None, key, envelope);
            let source = envelope.source.slot;
            let target = envelope.target.slot;
            &&& key == "type"@ || key == "connection_type"@ ==> read == ValueModel::String(
                envelope.rel_type,
            )
            &&& key == "id"@ ==> read == ValueModel::Int64(envelope.id as i64)
            &&& (key == "start"@ || key == "start_id"@) && source < topology.nodes@.len()
                && topology.nodes@[source as int] is Some ==> read
                == topology.nodes@[source as int]->0.id@
            &&& (key == "end"@ || key == "end_id"@) && target < topology.nodes@.len()
                && topology.nodes@[target as int] is Some ==> read
                == topology.nodes@[target as int]->0.id@
            &&& key != "type"@ && key != "connection_type"@ && key != "id"@ && key != "start"@
                && key != "start_id"@ && key != "end"@ && key != "end_id"@ ==> read
                == ValueModel::Null
        }),
{
    reveal_strlit("type");
    reveal_strlit("connection_type");
    reveal_strlit("id");
    reveal_strlit("start");
    reveal_strlit("start_id");
    reveal_strlit("end");
    reveal_strlit("end_id");
    assert("type"@[0] == 't' && "connection_type"@[0] == 'c' && "id"@[0] == 'i' && "start"@[0]
        == 's' && "start_id"@[0] == 's' && "end"@[0] == 'e' && "end_id"@[0] == 'e');
}

} // verus!
