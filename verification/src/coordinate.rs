//! Vector coordinates: IEEE 754 single-precision numbers as their bits.
use vstd::prelude::*;
use crate::text::{push_number, decimal, Text};

verus! {

/// The bits of a number without its sign.
pub open spec fn magnitude(bits: u32) -> nat {
    (bits % 0x8000_0000) as nat
}

/// Neither an infinity nor a NaN.
pub open spec fn is_finite(bits: u32) -> bool {
    magnitude(bits) < 0x7F80_0000
}

/// A NaN.
pub open spec fn is_nan(bits: u32) -> bool {
    magnitude(bits) > 0x7F80_0000
}

/// The numbers are equal: the same bits or two zeros, and no NaN.
pub open spec fn same_number(a: u32, b: u32) -> bool {
    !is_nan(a) && !is_nan(b) && (a == b || (magnitude(a) == 0 && magnitude(b) == 0))
}

/// The vectors have the same length and equal numbers throughout.
pub open spec fn same_vector(a: Seq<u32>, b: Seq<u32>) -> bool {
    a.len() == b.len() && forall|i: int| 0 <= i < a.len() ==> same_number(#[trigger] a[i], b[i])
}

/// Every coordinate is finite.
pub open spec fn all_finite(vector: Seq<u32>) -> bool {
    forall|i: int| 0 <= i < vector.len() ==> is_finite(#[trigger] vector[i])
}

/// `position` is that of the first coordinate that is not finite.
pub open spec fn first_non_finite(vector: Seq<u32>, position: int) -> bool {
    &&& 0 <= position < vector.len()
    &&& !is_finite(vector[position])
    &&& all_finite(vector.take(position))
}

/// A finite vector equals itself.
pub proof fn finite_vector_equals_itself(vector: Seq<u32>)
    requires
        all_finite(vector),
    ensures
        same_vector(vector, vector),
{
}

/// The first coordinate that is not finite, where there is one.
pub open spec fn fault_of(vector: Seq<u32>) -> Option<NonFiniteVector> {
    if all_finite(vector) {
        None
    } else {
        let position = choose|p: int| first_non_finite(vector, p);
        Some(NonFiniteVector { index: position as usize, value: vector[position] })
    }
}

/// A vector has at most one first coordinate that is not finite.
pub proof fn first_non_finite_is_unique(vector: Seq<u32>, a: int, b: int)
    requires
        first_non_finite(vector, a),
        first_non_finite(vector, b),
    ensures
        a == b,
{
    if a < b {
        assert(vector.take(b)[a] == vector[a]);
    } else if b < a {
        assert(vector.take(a)[b] == vector[b]);
    }
}

/// How an infinity or a NaN is written.
pub open spec fn non_finite_name(bits: u32) -> Text {
    if is_nan(bits) {
        "NaN"@
    } else if bits < 0x8000_0000 {
        "inf"@
    } else {
        "-inf"@
    }
}

/// Whether two vectors are equal, number by number.
pub fn vector_eq(a: &[u32], b: &[u32]) -> (same: bool)
    ensures
        same == same_vector(a@, b@),
{
    if a.len() != b.len() {
        return false;
    }
    let mut i: usize = 0;
    while i < a.len()
        invariant
            i <= a.len(),
            a.len() == b.len(),
            forall|k: int| 0 <= k < i ==> same_number(#[trigger] a@[k], b@[k]),
        decreases a.len() - i,
    {
        let x: u32 = a[i];
        let y: u32 = b[i];
        let mx: u32 = x % 0x8000_0000;
        let my: u32 = y % 0x8000_0000;
        if mx > 0x7F80_0000 || my > 0x7F80_0000 || !(x == y || (mx == 0 && my == 0)) {
            assert(!same_number(a@[i as int], b@[i as int]));
            return false;
        }
        i = i + 1;
    }
    true
}

/// The first coordinate of a vector that is not finite.
#[derive(Clone, Copy, Debug, PartialEq, Eq, Structural)]
pub struct NonFiniteVector {
    /// The coordinate's position.
    pub index: usize,
    /// The coordinate's bits.
    pub value: u32,
}

/// What is said of a non-finite coordinate.
pub open spec fn non_finite_message(error: NonFiniteVector) -> Text {
    "vector coordinate "@ + decimal(error.index as nat) + " must be finite (got "@
        + non_finite_name(error.value) + ")"@
}

impl NonFiniteVector {
    /// What is said of the coordinate.
    pub fn message(&self) -> (message: String)
        ensures
            !is_finite(self.value) ==> message@ == non_finite_message(*self),
    {
        let mut message = "vector coordinate ".to_owned();
        push_number(&mut message, self.index);
        message.append(" must be finite (got ");
        if self.value % 0x8000_0000 > 0x7F80_0000 {
            message.append("NaN");
        } else if self.value < 0x8000_0000 {
            message.append("inf");
        } else {
            message.append("-inf");
        }
        message.append(")");
        message
    }
}

/// Refuses a vector with a coordinate that is not finite, naming the first.
pub fn validate_finite_vector(vector: &[u32]) -> (result: Result<(), NonFiniteVector>)
    ensures
        match result {
            Ok(_) => fault_of(vector@) is None && all_finite(vector@),
            Err(error) => fault_of(vector@) == Some(error) && !is_finite(error.value),
        },
{
    let mut i: usize = 0;
    while i < vector.len()
        invariant
            i <= vector.len(),
            all_finite(vector@.take(i as int)),
        decreases vector.len() - i,
    {
        if vector[i] % 0x8000_0000 >= 0x7F80_0000 {
            proof {
                assert(first_non_finite(vector@, i as int));
                assert(!all_finite(vector@));
                first_non_finite_is_unique(
                    vector@,
                    i as int,
                    choose|p: int| first_non_finite(vector@, p),
                );
            }
            return Err(NonFiniteVector { index: i, value: vector[i] });
        }
        assert forall|k: int| 0 <= k < i + 1 implies is_finite(
            #[trigger] vector@.take(i + 1)[k],
        ) by {
            if k < i {
                assert(vector@.take(i + 1)[k] == vector@.take(i as int)[k]);
            }
        }
        i = i + 1;
    }
    assert(vector@.take(i as int) == vector@);
    Ok(())
}

} // verus!
