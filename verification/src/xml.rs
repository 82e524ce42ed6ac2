//! Text inside XML attributes.

use crate::text::{chars_of, Text};
use vstd::prelude::*;

verus! {

/// A character as it stands in an attribute.
pub open spec fn escaped_char(c: char) -> Text {
    if c == '&' {
        "&amp;"@
    } else if c == '<' {
        "&lt;"@
    } else if c == '>' {
        "&gt;"@
    } else if c == '"' {
        "&quot;"@
    } else {
        seq![c]
    }
}

/// The first `count` characters as they stand in an attribute.
pub open spec fn escaped_upto(text: Text, count: nat) -> Text
    decreases count,
{
    if count == 0 {
        Seq::empty()
    } else {
        escaped_upto(text, (count - 1) as nat) + escaped_char(text[count - 1])
    }
}

/// A text as it stands in an attribute.
pub open spec fn escaped(text: Text) -> Text {
    escaped_upto(text, text.len())
}

/// A text as it stands in an attribute.
pub fn xml_escape(text: &str) -> (out: String)
    ensures
        out@ == escaped(text@),
{
    let letters = chars_of(text);
    let mut out = String::new();
    let mut i: usize = 0;
    assert(out@ =~= Seq::<char>::empty());
    while i < letters.len()
        invariant
            i <= letters@.len(),
            letters@ == text@,
            out@ == escaped_upto(text@, i as nat),
        decreases letters@.len() - i,
    {
        let c: char = letters[i];
        let ghost before = out@;
        if c == '&' {
            out.append("&amp;");
        } else if c == '<' {
            out.append("&lt;");
        } else if c == '>' {
            out.append("&gt;");
        } else if c == '"' {
            out.append("&quot;");
        } else {
            out.push(c);
            assert(before.push(c) =~= before + seq![c]);
        }
        i = i + 1;
    }
    out
}

/// A character that ends an attribute or opens an element.
pub open spec fn is_markup(c: char) -> bool {
    c == '<' || c == '>' || c == '"'
}

proof fn escaped_upto_is_plain(text: Text, count: nat)
    requires
        count <= text.len(),
    ensures
        forall|i: int|
            0 <= i < escaped_upto(text, count).len() ==> !is_markup(
                #[trigger] escaped_upto(text, count)[i],
            ),
    decreases count,
{
    if count > 0 {
        escaped_upto_is_plain(text, (count - 1) as nat);
        reveal_strlit("&amp;");
        reveal_strlit("&lt;");
        reveal_strlit("&gt;");
        reveal_strlit("&quot;");
        let before = escaped_upto(text, (count - 1) as nat);
        let all = escaped_upto(text, count);
        assert forall|i: int| 0 <= i < all.len() implies !is_markup(#[trigger] all[i]) by {
            if i < before.len() {
                assert(all[i] == before[i]);
            } else {
                assert(all[i] == escaped_char(text[count - 1])[i - before.len()]);
            }
        }
    }
}

/// A text in an attribute neither ends the attribute nor opens an element.
pub proof fn escaped_text_stays_inside(text: Text)
    ensures
        forall|i: int| 0 <= i < escaped(text).len() ==> !is_markup(#[trigger] escaped(text)[i]),
{
    escaped_upto_is_plain(text, text.len());
}

} // verus!
