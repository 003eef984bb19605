//! Two's-complement reading of a 32-byte buffer.
//!
//! The text codecs work on magnitudes. A signed value is taken apart into a
//! sign and a magnitude before it is written as text, and put together again
//! after its digits were read. The pair is never stored.

use vstd::prelude::*;
use crate::ascii::MINUS;
use crate::error::DecodeError;
use crate::magnitude::{
    be_value, lemma_be_value_injective, lemma_be_value_zero_iff, lemma_top_byte, negate,
    two_pow_248, two_pow_255, two_pow_256,
};

verus! {

/// The value of a byte sequence read as a 256-bit two's-complement integer.
pub open spec fn twos_value(s: Seq<u8>) -> int {
    if be_value(s) >= two_pow_255() {
        be_value(s) - two_pow_256()
    } else {
        be_value(s) as int
    }
}

/// The absolute value of an integer.
pub open spec fn magnitude_of(v: int) -> nat {
    if v < 0 {
        (-v) as nat
    } else {
        v as nat
    }
}

/// True iff the text starts with a minus sign.
pub open spec fn has_minus(text: Seq<u8>) -> bool {
    text.len() > 0 && text[0] == MINUS
}

/// The text without its leading minus sign, if it has one.
pub open spec fn after_minus(text: Seq<u8>) -> Seq<u8> {
    if has_minus(text) {
        text.subrange(1, text.len() as int)
    } else {
        text
    }
}

/// A 32-byte buffer read as two's complement lies in -2^255 ..= 2^255 - 1.
pub proof fn lemma_twos_value_range(s: Seq<u8>)
    requires
        s.len() == 32,
    ensures
        -two_pow_255() <= twos_value(s) < two_pow_255(),
{
    lemma_top_byte(s);
}

/// Two 32-byte buffers with one two's-complement value are the same.
pub proof fn lemma_twos_value_injective(a: Seq<u8>, b: Seq<u8>)
    requires
        a.len() == 32,
        b.len() == 32,
        twos_value(a) == twos_value(b),
    ensures
        a == b,
{
    lemma_top_byte(a);
    lemma_top_byte(b);
    lemma_be_value_injective(a, b);
}

/// What a sign and a magnitude stand for as a 256-bit signed integer: the
/// positive range ends one short of 2^255, the negative range includes
/// -2^255, and a negative zero is zero.
pub open spec fn signed_result(negative: bool, magnitude: nat) -> Result<int, DecodeError> {
    if negative {
        if magnitude > two_pow_255() {
            Err(DecodeError::Overflow)
        } else {
            Ok(-(magnitude as int))
        }
    } else {
        if magnitude >= two_pow_255() {
            Err(DecodeError::Overflow)
        } else {
            Ok(magnitude as int)
        }
    }
}

/// True iff the buffer, read as two's complement, is negative.
pub fn is_negative(value: &[u8; 32]) -> (r: bool)
    ensures
        r == (twos_value(value@) < 0),
{
    proof {
        lemma_top_byte(value@);
    }
    value[0] >= 0x80
}

/// True iff the magnitude is exactly 2^255: the first byte is 0x80 and all
/// others are zero.
pub fn is_two_pow_255(magnitude: &[u8; 32]) -> (r: bool)
    ensures
        r == (be_value(magnitude@) == two_pow_255()),
{
    let ghost low = magnitude@.subrange(1, 32);
    proof {
        lemma_top_byte(magnitude@);
        lemma_be_value_zero_iff(low);
    }
    if magnitude[0] != 0x80 {
        return false;
    }
    let mut i: usize = 1;
    while i < 32
        invariant
            1 <= i <= 32,
            low == magnitude@.subrange(1, 32),
            magnitude@[0] == 0x80u8,
            be_value(magnitude@) == magnitude@[0] as nat * two_pow_248() + be_value(low),
            (be_value(low) == 0) == (forall|j: int| 0 <= j < low.len() ==> low[j] == 0u8),
            forall|j: int| 1 <= j < i ==> magnitude@[j] == 0u8,
        decreases 32 - i,
    {
        if magnitude[i] != 0 {
            assert(low[i - 1] == magnitude@[i as int]);
            return false;
        }
        i += 1;
    }
    assert forall|j: int| 0 <= j < low.len() implies low[j] == 0u8 by {
        assert(low[j] == magnitude@[j + 1]);
    }
    true
}

/// Takes a two's-complement buffer apart into its sign and its magnitude.
pub fn split_sign(value: &[u8; 32]) -> (r: (bool, [u8; 32]))
    ensures
        r.0 == (twos_value(value@) < 0),
        be_value(r.1@) == magnitude_of(twos_value(value@)),
{
    let negative = is_negative(value);
    let mut magnitude: [u8; 32] = *value;
    proof {
        lemma_top_byte(value@);
    }
    if negative {
        negate(&mut magnitude);
    }
    (negative, magnitude)
}

/// Puts a sign and a magnitude together into a two's-complement buffer.
///
/// Fails with `Overflow` where the signed range has no such value: a
/// positive magnitude of 2^255 or more, a negative one above 2^255. The
/// magnitude 2^255 with a minus sign is the signed minimum, whose buffer is
/// the magnitude itself.
pub fn apply_sign(negative: bool, magnitude: [u8; 32]) -> (r: Result<[u8; 32], DecodeError>)
    ensures
        match r {
            Ok(value) => signed_result(negative, be_value(magnitude@)) == Ok::<int, DecodeError>(
                twos_value(value@),
            ),
            Err(e) => signed_result(negative, be_value(magnitude@)) == Err::<int, DecodeError>(e),
        },
{
    proof {
        lemma_top_byte(magnitude@);
    }
    let top_bit_set = magnitude[0] >= 0x80;
    if !negative {
        if top_bit_set {
            Err(DecodeError::Overflow)
        } else {
            Ok(magnitude)
        }
    } else if top_bit_set {
        if is_two_pow_255(&magnitude) {
            Ok(magnitude)
        } else {
            Err(DecodeError::Overflow)
        }
    } else {
        let mut value: [u8; 32] = magnitude;
        negate(&mut value);
        Ok(value)
    }
}

} // verus!
