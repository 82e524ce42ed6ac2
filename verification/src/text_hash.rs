//! The hash of the text that a vector was made from.

use crate::text::{chars_of, Text};
use vstd::prelude::*;

verus! {

/// What the hash of no text is.
pub const HASH_SEED: u64 = 0xcbf2_9ce4_8422_2325;

/// What every letter multiplies the hash by.
pub const HASH_STEP: u64 = 0x0000_0100_0000_01b3;

/// A hash with one more letter.
pub open spec fn stirred(hash: u64, letter: char) -> u64 {
    (((hash ^ (letter as u64)) * HASH_STEP) % 0x1_0000_0000_0000_0000) as u64
}

/// The hash of a text.
pub open spec fn hash_of_text(text: Text) -> u64
    decreases text.len(),
{
    if text.len() == 0 {
        HASH_SEED
    } else {
        stirred(hash_of_text(text.drop_last()), text.last())
    }
}

/// The hash of a text.
pub fn text_hash(text: &str) -> (hash: u64)
    ensures
        hash == hash_of_text(text@),
{
    let letters = chars_of(text);
    let mut hash: u64 = HASH_SEED;
    let mut i: usize = 0;
    assert(text@.take(0) =~= Seq::<char>::empty());
    while i < letters.len()
        invariant
            i <= letters@.len(),
            letters@ == text@,
            hash == hash_of_text(text@.take(i as int)),
        decreases letters@.len() - i,
    {
        let mixed: u64 = hash ^ (letters[i] as u64);
        assert((mixed as u128) * 0x0000_0100_0000_01b3u128 <= u128::MAX) by (nonlinear_arith)
            requires
                mixed <= 0xFFFF_FFFF_FFFF_FFFFu64,
        ;
        let product: u128 = (mixed as u128) * 0x0000_0100_0000_01b3u128;
        hash = (product % 0x1_0000_0000_0000_0000) as u64;
        assert(text@.take(i + 1).drop_last() =~= text@.take(i as int));
        i = i + 1;
    }
    assert(text@.take(i as int) =~= text@);
    hash
}

} // verus!
