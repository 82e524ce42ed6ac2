//! What a misspelled name was meant to be.

use crate::text::{chars_of, texts, Text};
use vstd::prelude::*;

verus! {

/// Names longer than this are not compared.
pub const LONGEST_NAME: usize = 256;

/// A letter without its case.
pub open spec fn folded(c: char) -> char {
    if 'A' <= c <= 'Z' {
        ((c as u32) + 32) as char
    } else {
        c
    }
}

/// The letters to insert, drop or change, whatever their case, to get from the
/// first `i` letters of `a` to the first `j` of `b`.
pub open spec fn edits(a: Text, b: Text, i: nat, j: nat) -> nat
    decreases i + j,
{
    if i == 0 {
        j
    } else if j == 0 {
        i
    } else {
        let dropped = edits(a, b, (i - 1) as nat, j) + 1;
        let inserted = edits(a, b, i, (j - 1) as nat) + 1;
        let changed = edits(a, b, (i - 1) as nat, (j - 1) as nat) + if folded(a[i - 1]) == folded(
            b[j - 1],
        ) {
            0nat
        } else {
            1nat
        };
        let either = if dropped <= inserted {
            dropped
        } else {
            inserted
        };
        if changed <= either {
            changed
        } else {
            either
        }
    }
}

/// The edits between two whole names.
pub open spec fn edit_distance(a: Text, b: Text) -> nat {
    edits(a, b, a.len(), b.len())
}

/// Whether a name is close enough to another to be what was meant: at most one
/// edit, and one more for every four letters.
pub open spec fn close(name: Text, candidate: Text) -> bool {
    &&& name.len() <= LONGEST_NAME
    &&& candidate.len() <= LONGEST_NAME
    &&& edit_distance(name, candidate) <= 1 + name.len() / 4
}

/// The closest of the first `count` candidates, the earlier of two as close.
pub open spec fn closest(name: Text, candidates: Seq<Text>, count: nat) -> Option<Text>
    decreases count,
{
    if count == 0 {
        None
    } else {
        let last = candidates[count - 1];
        match closest(name, candidates, (count - 1) as nat) {
            Some(best) => if close(name, last) && edit_distance(name, last) < edit_distance(
                name,
                best,
            ) {
                Some(last)
            } else {
                Some(best)
            },
            None => if close(name, last) {
                Some(last)
            } else {
                None
            },
        }
    }
}

/// The tail that names the closest candidate, empty where none is close.
pub open spec fn suggestion(name: Text, candidates: Seq<Text>) -> Text {
    match closest(name, candidates, candidates.len()) {
        Some(best) => " Did you mean '"@ + best + "'?"@,
        None => Seq::empty(),
    }
}

/// A suggestion is one of the candidates, and close.
pub proof fn a_suggestion_is_a_close_candidate(name: Text, candidates: Seq<Text>, count: nat)
    requires
        count <= candidates.len(),
    ensures
        match closest(name, candidates, count) {
            Some(best) => close(name, best) && exists|i: int|
                0 <= i < count && #[trigger] candidates[i] == best,
            None => forall|i: int|
                0 <= i < count ==> !close(name, #[trigger] candidates[i]),
        },
    decreases count,
{
    if count > 0 {
        a_suggestion_is_a_close_candidate(name, candidates, (count - 1) as nat);
        assert(candidates[count - 1] == candidates[count - 1]);
    }
}

/// No distance is longer than the longer of the two parts.
proof fn edits_fit(a: Text, b: Text, i: nat, j: nat)
    ensures
        edits(a, b, i, j) <= if i >= j {
            i
        } else {
            j
        },
    decreases i + j,
{
    if i > 0 && j > 0 {
        edits_fit(a, b, (i - 1) as nat, j);
        edits_fit(a, b, i, (j - 1) as nat);
        edits_fit(a, b, (i - 1) as nat, (j - 1) as nat);
    }
}

fn same_letter(a: char, b: char) -> (same: bool)
    ensures
        same == (folded(a) == folded(b)),
{
    let low_a: u32 = if 'A' <= a && a <= 'Z' {
        a as u32 + 32
    } else {
        a as u32
    };
    let low_b: u32 = if 'A' <= b && b <= 'Z' {
        b as u32 + 32
    } else {
        b as u32
    };
    low_a == low_b
}

/// The edits between two names that may be compared.
fn distance(a: &Vec<char>, b: &Vec<char>) -> (d: usize)
    requires
        a@.len() <= LONGEST_NAME,
        b@.len() <= LONGEST_NAME,
    ensures
        d == edit_distance(a@, b@),
{
    let width: usize = b.len();
    let mut row: Vec<usize> = Vec::new();
    let mut j: usize = 0;
    while j <= width
        invariant
            width == b@.len(),
            width <= LONGEST_NAME,
            j <= width + 1,
            row@.len() == j,
            forall|k: int| 0 <= k < j ==> row@[k] == edits(a@, b@, 0, k as nat),
        decreases width + 1 - j,
    {
        row.push(j);
        j = j + 1;
    }
    let height: usize = a.len();
    let mut i: usize = 0;
    while i < height
        invariant
            width == b@.len(),
            width <= LONGEST_NAME,
            height == a@.len(),
            height <= LONGEST_NAME,
            i <= height,
            row@.len() == width + 1,
            forall|k: int| 0 <= k <= width ==> row@[k] == edits(a@, b@, i as nat, k as nat),
        decreases height - i,
    {
        let mut next: Vec<usize> = Vec::new();
        next.push(i + 1);
        let mut k: usize = 0;
        while k < width
            invariant
                width == b@.len(),
                width <= LONGEST_NAME,
                height == a@.len(),
                height <= LONGEST_NAME,
                i < height,
                k <= width,
                row@.len() == width + 1,
                forall|l: int| 0 <= l <= width ==> row@[l] == edits(a@, b@, i as nat, l as nat),
                next@.len() == k + 1,
                forall|l: int|
                    0 <= l <= k ==> next@[l] == edits(a@, b@, (i + 1) as nat, l as nat),
            decreases width - k,
        {
            proof {
                edits_fit(a@, b@, i as nat, (k + 1) as nat);
                edits_fit(a@, b@, (i + 1) as nat, k as nat);
                edits_fit(a@, b@, i as nat, k as nat);
            }
            let dropped: usize = row[k + 1] + 1;
            let inserted: usize = next[k] + 1;
            let changed: usize = if same_letter(a[i], b[k]) {
                row[k]
            } else {
                row[k] + 1
            };
            let either: usize = if dropped <= inserted {
                dropped
            } else {
                inserted
            };
            if changed <= either {
                next.push(changed);
            } else {
                next.push(either);
            }
            k = k + 1;
        }
        row = next;
        i = i + 1;
    }
    row[width]
}

/// The tail that names the closest candidate, empty where none is close.
pub fn did_you_mean(name: &str, candidates: &Vec<String>) -> (tail: String)
    ensures
        tail@ == suggestion(name@, texts(candidates@)),
{
    let letters: Vec<char> = chars_of(name);
    let mut best: Option<(usize, usize)> = None;
    let mut i: usize = 0;
    while i < candidates.len()
        invariant
            i <= candidates@.len(),
            letters@ == name@,
            match best {
                Some((place, d)) => {
                    &&& place < candidates@.len()
                    &&& closest(name@, texts(candidates@), i as nat) == Some(
                        candidates@[place as int]@,
                    )
                    &&& d == edit_distance(name@, candidates@[place as int]@)
                },
                None => closest(name@, texts(candidates@), i as nat) is None,
            },
        decreases candidates@.len() - i,
    {
        let other: Vec<char> = chars_of(candidates[i].as_str());
        if letters.len() <= LONGEST_NAME && other.len() <= LONGEST_NAME {
            let d: usize = distance(&letters, &other);
            if d <= 1 + letters.len() / 4 {
                match best {
                    Some((_, least)) => {
                        if d < least {
                            best = Some((i, d));
                        }
                    },
                    None => {
                        best = Some((i, d));
                    },
                }
            }
        }
        i = i + 1;
    }
    match best {
        Some((place, _)) => {
            let mut tail = " Did you mean '".to_owned();
            tail.append(candidates[place].as_str());
            tail.append("'?");
            tail
        },
        None => String::new(),
    }
}

} // verus!
