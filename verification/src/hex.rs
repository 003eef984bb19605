//! Hexadecimal text for 256-bit integers.
//!
//! Canonical hexadecimal text is the prefix `0x`, then lowercase digits
//! without leading zeros (the value zero is `0x0`), with a leading `-` for
//! negative signed values. The decoders take the prefix as optional and in
//! either case, digits in either case, and leading zeros.

use vstd::prelude::*;
use crate::ascii::{
    DIGIT_0, DIGIT_9, LOWER_A, LOWER_F, LOWER_X, MINUS, UPPER_A, UPPER_F, UPPER_X, UPPER_Z,
};
use crate::error::DecodeError;
use crate::magnitude::{
    be_value, lemma_be_value_injective, lemma_be_value_zero_iff, lemma_top_byte,
    shift4_add_nibble, two_pow_255, two_pow_256,
};
use crate::sign::{
    after_minus, apply_sign, has_minus, lemma_twos_value_injective, lemma_twos_value_range,
    signed_result, split_sign, twos_value,
};

verus! {

/// The lowercase ASCII character of a hexadecimal digit.
pub open spec fn hex_digit_char(d: nat) -> u8
    recommends
        d < 16,
{
    if d < 10 {
        (DIGIT_0 + d) as u8
    } else {
        (LOWER_A + d - 10) as u8
    }
}

/// The hexadecimal digits of `n`, most significant first; none for zero.
pub open spec fn hex_digits(n: nat) -> Seq<u8>
    decreases n,
{
    if n == 0 {
        Seq::empty()
    } else {
        hex_digits(n / 16).push(hex_digit_char(n % 16))
    }
}

/// The canonical hexadecimal text of a natural number.
pub open spec fn hex_text(n: nat) -> Seq<u8> {
    if n == 0 {
        seq![DIGIT_0, LOWER_X, DIGIT_0]
    } else {
        seq![DIGIT_0, LOWER_X] + hex_digits(n)
    }
}

/// The canonical hexadecimal text of an integer.
pub open spec fn signed_hex_text(v: int) -> Seq<u8> {
    if v < 0 {
        seq![MINUS] + hex_text((-v) as nat)
    } else {
        hex_text(v as nat)
    }
}

/// True iff `c` is a hexadecimal digit, in either case.
pub open spec fn is_hex_digit(c: u8) -> bool {
    ||| DIGIT_0 <= c <= DIGIT_9
    ||| LOWER_A <= c <= LOWER_F
    ||| UPPER_A <= c <= UPPER_F
}

/// The number that one hexadecimal digit stands for.
pub open spec fn hex_digit_value(c: u8) -> nat
    recommends
        is_hex_digit(c),
{
    if DIGIT_0 <= c <= DIGIT_9 {
        (c - DIGIT_0) as nat
    } else if LOWER_A <= c <= LOWER_F {
        (c - LOWER_A + 10) as nat
    } else {
        (c - UPPER_A + 10) as nat
    }
}

/// True iff every byte of `s` is a hexadecimal digit.
pub open spec fn all_hex_digits(s: Seq<u8>) -> bool {
    forall|i: int| 0 <= i < s.len() ==> is_hex_digit(#[trigger] s[i])
}

/// The number that a sequence of hexadecimal digits writes.
pub open spec fn hex_value(s: Seq<u8>) -> nat
    decreases s.len(),
{
    if s.len() == 0 {
        0
    } else {
        hex_value(s.drop_last()) * 16 + hex_digit_value(s.last())
    }
}

/// True iff the text starts with `0x` or `0X`.
pub open spec fn has_hex_prefix(text: Seq<u8>) -> bool {
    text.len() >= 2 && text[0] == DIGIT_0 && (text[1] == LOWER_X || text[1] == UPPER_X)
}

/// The text without its leading `0x` or `0X`, if it has one.
pub open spec fn after_hex_prefix(text: Seq<u8>) -> Seq<u8> {
    if has_hex_prefix(text) {
        text.subrange(2, text.len() as int)
    } else {
        text
    }
}

/// What a run of hexadecimal digits decodes to: there must be one or more,
/// and their value must fit in 256 bits.
pub open spec fn parse_hex_digits(digits: Seq<u8>) -> Result<nat, DecodeError> {
    if digits.len() == 0 || !all_hex_digits(digits) {
        Err(DecodeError::Invalid)
    } else if hex_value(digits) >= two_pow_256() {
        Err(DecodeError::Overflow)
    } else {
        Ok(hex_value(digits))
    }
}

/// What decoding an unsigned hexadecimal text gives: an optional prefix,
/// then digits.
pub open spec fn parse_u256_hex(text: Seq<u8>) -> Result<nat, DecodeError> {
    parse_hex_digits(after_hex_prefix(text))
}

/// What decoding a signed hexadecimal text gives: an optional minus sign, an
/// optional prefix, then digits whose value, with the sign, must lie in the
/// signed 256-bit range.
pub open spec fn parse_i256_hex(text: Seq<u8>) -> Result<int, DecodeError> {
    match parse_hex_digits(after_hex_prefix(after_minus(text))) {
        Ok(magnitude) => signed_result(has_minus(text), magnitude),
        Err(e) => Err(e),
    }
}

/// The digits of a number are hexadecimal digits, and they write that
/// number.
pub proof fn lemma_hex_digits_value(n: nat)
    ensures
        all_hex_digits(hex_digits(n)),
        hex_value(hex_digits(n)) == n,
        n > 0 ==> hex_digits(n).len() > 0,
    decreases n,
{
    if n > 0 {
        lemma_hex_digits_value(n / 16);
        let front = hex_digits(n / 16);
        let c = hex_digit_char(n % 16);
        assert(front.push(c).drop_last() =~= front);
        assert(front.push(c).last() == c);
    }
}

/// Canonical text is in lowercase and has no leading zero: the digits of a
/// number are from `0-9a-f`, and the first of them is not `0`.
pub proof fn lemma_hex_digits_canonical(n: nat)
    requires
        n > 0,
    ensures
        hex_digits(n).len() > 0,
        hex_digits(n)[0] != DIGIT_0,
        lowered(hex_digits(n)) == hex_digits(n),
    decreases n,
{
    let front = hex_digits(n / 16);
    let c = hex_digit_char(n % 16);
    let all = front.push(c);
    if n >= 16 {
        lemma_hex_digits_canonical(n / 16);
        assert(all[0] == front[0]);
        assert forall|i: int| 0 <= i < all.len() implies ascii_lower(all[i]) == all[i] by {
            if i < front.len() {
                assert(lowered(front)[i] == front[i]);
            }
        }
    } else {
        assert(front =~= Seq::<u8>::empty());
        assert(all[0] == c);
    }
    assert(lowered(all) =~= all);
}

/// What one more byte at the low end adds to the digits of a number: both
/// of its nibbles, but for the leading zeros of the whole.
pub proof fn lemma_hex_digits_byte(v: nat, b: u8)
    ensures
        hex_digits(v * 256 + b as nat) == if v > 0 {
            hex_digits(v).push(hex_digit_char(b as nat / 16)).push(hex_digit_char(b as nat % 16))
        } else if b >= 16 {
            seq![hex_digit_char(b as nat / 16), hex_digit_char(b as nat % 16)]
        } else if b > 0 {
            seq![hex_digit_char(b as nat)]
        } else {
            Seq::empty()
        },
{
    let n = v * 256 + b as nat;
    let hi = b as nat / 16;
    let lo = b as nat % 16;
    assert(n / 16 == v * 16 + hi);
    assert(n % 16 == lo);
    assert((n / 16) / 16 == v);
    assert((n / 16) % 16 == hi);
    assert(hex_digits(0) =~= Seq::<u8>::empty());
    if v > 0 {
        assert(hex_digits(n) == hex_digits(n / 16).push(hex_digit_char(lo)));
        assert(hex_digits(n / 16) == hex_digits(v).push(hex_digit_char(hi)));
    } else if b >= 16 {
        assert(hex_digits(n) == hex_digits(hi).push(hex_digit_char(lo)));
        assert(hex_digits(hi) == hex_digits(0).push(hex_digit_char(hi)));
        assert(hex_digits(n) =~= seq![hex_digit_char(hi), hex_digit_char(lo)]);
    } else if b > 0 {
        assert(hex_digits(n) == hex_digits(0).push(hex_digit_char(lo)));
        assert(hex_digits(n) =~= seq![hex_digit_char(b as nat)]);
    }
}

/// The lowercase character of a nibble.
fn nibble_char(nibble: u8) -> (c: u8)
    requires
        nibble < 16,
    ensures
        c == hex_digit_char(nibble as nat),
{
    if nibble < 10 {
        DIGIT_0 + nibble
    } else {
        LOWER_A + (nibble - 10)
    }
}

/// The value of a hexadecimal digit, or `None` for any other character.
fn nibble_of(c: u8) -> (r: Option<u8>)
    ensures
        match r {
            Some(v) => is_hex_digit(c) && v == hex_digit_value(c) && v < 16,
            None => !is_hex_digit(c),
        },
{
    if DIGIT_0 <= c && c <= DIGIT_9 {
        Some(c - DIGIT_0)
    } else if LOWER_A <= c && c <= LOWER_F {
        Some(c - LOWER_A + 10)
    } else if UPPER_A <= c && c <= UPPER_F {
        Some(c - UPPER_A + 10)
    } else {
        None
    }
}

/// Appends the canonical hexadecimal text of a magnitude to `out`.
///
/// The bytes are read most significant first. Leading zero bytes give no
/// digits, and the first byte that is not zero gives one digit where its
/// high nibble is zero.
pub fn append_hex(out: &mut Vec<u8>, magnitude: &[u8; 32])
    ensures
        final(out)@ == old(out)@ + hex_text(be_value(magnitude@)),
        3 <= hex_text(be_value(magnitude@)).len() <= 66,
{
    let ghost before = out@;
    out.push(DIGIT_0);
    out.push(LOWER_X);
    let ghost prefix = seq![DIGIT_0, LOWER_X];
    let mut started = false;
    let mut i: usize = 0;
    assert(out@ =~= before + prefix + hex_digits(0));
    while i < 32
        invariant
            i <= 32,
            prefix == seq![DIGIT_0, LOWER_X],
            started == (be_value(magnitude@.subrange(0, i as int)) > 0),
            started ==> hex_digits(be_value(magnitude@.subrange(0, i as int))).len() >= 1,
            hex_digits(be_value(magnitude@.subrange(0, i as int))).len() <= 2 * i,
            out@ == before + prefix + hex_digits(be_value(magnitude@.subrange(0, i as int))),
        decreases 32 - i,
    {
        let b: u8 = magnitude[i];
        let hi: u8 = b >> 4;
        let lo: u8 = b & 0x0f;
        let ghost v = be_value(magnitude@.subrange(0, i as int));
        let ghost so_far = out@;
        proof {
            assert(hi == b / 16 && lo == b % 16) by (bit_vector)
                requires
                    hi == b >> 4,
                    lo == b & 0x0f,
            ;
            let next = magnitude@.subrange(0, i + 1);
            assert(next.drop_last() =~= magnitude@.subrange(0, i as int));
            assert(next.last() == b);
            lemma_hex_digits_byte(v, b);
        }
        if started || hi != 0 {
            out.push(nibble_char(hi));
            out.push(nibble_char(lo));
            started = true;
        } else if lo != 0 {
            out.push(nibble_char(lo));
            started = true;
        }
        proof {
            let digits = hex_digits(v * 256 + b as nat);
            assert(out@ =~= before + prefix + digits);
        }
        i += 1;
    }
    assert(magnitude@.subrange(0, 32) =~= magnitude@);
    if !started {
        out.push(DIGIT_0);
        assert(out@ =~= before + seq![DIGIT_0, LOWER_X, DIGIT_0]);
    } else {
        assert(out@ =~= before + (prefix + hex_digits(be_value(magnitude@))));
    }
}

/// Writes an unsigned 256-bit magnitude as canonical hexadecimal text.
pub fn encode_u256_hex(magnitude: &[u8; 32]) -> (text: Vec<u8>)
    ensures
        text@ == hex_text(be_value(magnitude@)),
        3 <= text@.len() <= 66,
{
    let mut out: Vec<u8> = Vec::new();
    append_hex(&mut out, magnitude);
    assert(out@ =~= hex_text(be_value(magnitude@)));
    out
}

/// Writes a 256-bit two's-complement value as canonical hexadecimal text,
/// with a leading `-` iff it is negative.
pub fn encode_i256_hex(value: &[u8; 32]) -> (text: Vec<u8>)
    ensures
        text@ == signed_hex_text(twos_value(value@)),
        3 <= text@.len() <= 67,
{
    let (negative, magnitude) = split_sign(value);
    let mut out: Vec<u8> = Vec::new();
    if negative {
        out.push(MINUS);
    }
    let ghost sign = out@;
    append_hex(&mut out, &magnitude);
    proof {
        if negative {
            assert(sign =~= seq![MINUS]);
        } else {
            assert(out@ =~= hex_text(be_value(magnitude@)));
        }
    }
    out
}

/// Reads the hexadecimal digits `text[start..]` into a magnitude.
fn decode_hex_digits(text: &[u8], start: usize) -> (r: Result<[u8; 32], DecodeError>)
    requires
        start <= text@.len(),
    ensures
        match r {
            Ok(magnitude) => parse_hex_digits(text@.subrange(start as int, text@.len() as int))
                == Ok::<nat, DecodeError>(be_value(magnitude@)),
            Err(e) => parse_hex_digits(text@.subrange(start as int, text@.len() as int))
                == Err::<nat, DecodeError>(e),
        },
{
    let n = text.len();
    let ghost digits = text@.subrange(start as int, n as int);
    if start >= n {
        return Err(DecodeError::Invalid);
    }
    let mut acc: [u8; 32] = [0u8; 32];
    let mut overflow = false;
    let mut i: usize = start;
    proof {
        lemma_be_value_zero_iff(acc@);
    }
    while i < n
        invariant
            start <= i <= n,
            n == text@.len(),
            digits == text@.subrange(start as int, n as int),
            all_hex_digits(text@.subrange(start as int, i as int)),
            overflow ==> hex_value(text@.subrange(start as int, i as int)) >= two_pow_256(),
            !overflow ==> be_value(acc@) == hex_value(text@.subrange(start as int, i as int)),
        decreases n - i,
    {
        let c: u8 = text[i];
        let nibble: u8 = match nibble_of(c) {
            Some(v) => v,
            None => {
                assert(digits[i - start] == c);
                return Err(DecodeError::Invalid);
            },
        };
        if !overflow {
            let ok = shift4_add_nibble(&mut acc, nibble);
            if !ok {
                overflow = true;
            }
        }
        proof {
            let prev = text@.subrange(start as int, i as int);
            let next = text@.subrange(start as int, i + 1);
            assert(next.drop_last() =~= prev);
            assert(next.last() == c);
            assert forall|j: int| 0 <= j < next.len() implies is_hex_digit(#[trigger] next[j]) by {
                if j < prev.len() {
                    assert(next[j] == prev[j]);
                }
            }
        }
        i += 1;
    }
    proof {
        assert(text@.subrange(start as int, i as int) =~= digits);
        lemma_top_byte(acc@);
    }
    if overflow {
        Err(DecodeError::Overflow)
    } else {
        Ok(acc)
    }
}

/// The index behind an optional `0x` or `0X` that starts at `start`.
fn skip_hex_prefix(text: &[u8], start: usize) -> (next: usize)
    requires
        start <= text@.len(),
    ensures
        start <= next <= text@.len(),
        text@.subrange(next as int, text@.len() as int) == after_hex_prefix(
            text@.subrange(start as int, text@.len() as int),
        ),
{
    let n = text.len();
    let ghost rest = text@.subrange(start as int, n as int);
    if n - start >= 2 && text[start] == DIGIT_0 && (text[start + 1] == LOWER_X || text[start + 1]
        == UPPER_X) {
        assert(rest[0] == text@[start as int] && rest[1] == text@[start + 1]);
        assert(text@.subrange(start + 2, n as int) =~= rest.subrange(2, rest.len() as int));
        start + 2
    } else {
        if n - start >= 2 {
            assert(rest[0] == text@[start as int] && rest[1] == text@[start + 1]);
        }
        start
    }
}

/// Reads unsigned hexadecimal text into a 256-bit magnitude.
///
/// The text is an optional `0x` or `0X` and then one or more hexadecimal
/// digits in either case, else the result is `Invalid`; a value of 2^256 or
/// more gives `Overflow`.
pub fn decode_u256_hex(text: &[u8]) -> (r: Result<[u8; 32], DecodeError>)
    ensures
        match r {
            Ok(magnitude) => parse_u256_hex(text@) == Ok::<nat, DecodeError>(be_value(magnitude@)),
            Err(e) => parse_u256_hex(text@) == Err::<nat, DecodeError>(e),
        },
{
    assert(text@.subrange(0, text@.len() as int) =~= text@);
    let start = skip_hex_prefix(text, 0);
    decode_hex_digits(text, start)
}

/// Reads signed hexadecimal text into a 256-bit two's-complement buffer.
///
/// The text is an optional `-`, an optional `0x` or `0X`, and then one or
/// more hexadecimal digits, else the result is `Invalid`; a value outside
/// -2^255 ..= 2^255 - 1 gives `Overflow`.
pub fn decode_i256_hex(text: &[u8]) -> (r: Result<[u8; 32], DecodeError>)
    ensures
        match r {
            Ok(value) => parse_i256_hex(text@) == Ok::<int, DecodeError>(twos_value(value@)),
            Err(e) => parse_i256_hex(text@) == Err::<int, DecodeError>(e),
        },
{
    let negative = text.len() > 0 && text[0] == MINUS;
    let after_sign: usize = if negative {
        1
    } else {
        0
    };
    assert(text@.subrange(after_sign as int, text@.len() as int) =~= after_minus(text@));
    let start = skip_hex_prefix(text, after_sign);
    match decode_hex_digits(text, start) {
        Ok(magnitude) => apply_sign(negative, magnitude),
        Err(e) => Err(e),
    }
}

/// Decoding the canonical hexadecimal text of a number that fits in 256
/// bits gives that number.
pub proof fn lemma_u256_hex_round_trip(n: nat)
    requires
        n < two_pow_256(),
    ensures
        parse_u256_hex(hex_text(n)) == Ok::<nat, DecodeError>(n),
{
    lemma_hex_digits_value(n);
    let t = hex_text(n);
    if n == 0 {
        let d = seq![DIGIT_0];
        assert(after_hex_prefix(t) =~= d);
        assert(d.drop_last() =~= Seq::<u8>::empty());
        assert(hex_value(d.drop_last()) == 0);
    } else {
        assert(after_hex_prefix(t) =~= hex_digits(n));
    }
}

/// Decoding the canonical hexadecimal text of an integer in the signed
/// 256-bit range gives that integer.
pub proof fn lemma_i256_hex_round_trip(v: int)
    requires
        -two_pow_255() <= v < two_pow_255(),
    ensures
        parse_i256_hex(signed_hex_text(v)) == Ok::<int, DecodeError>(v),
{
    let m: nat = if v < 0 {
        (-v) as nat
    } else {
        v as nat
    };
    lemma_u256_hex_round_trip(m);
    let body = hex_text(m);
    assert(body[0] == DIGIT_0);
    if v < 0 {
        assert(after_minus(signed_hex_text(v)) =~= body);
    }
}

/// For every 32-byte buffer, decoding what the unsigned encoder writes gives
/// the same bytes back: `decoded` stands for any buffer that the decoder may
/// return on that text.
pub proof fn lemma_u256_hex_buffer_round_trip(magnitude: Seq<u8>, decoded: Seq<u8>)
    requires
        magnitude.len() == 32,
        decoded.len() == 32,
        parse_u256_hex(hex_text(be_value(magnitude))) == Ok::<nat, DecodeError>(
            be_value(decoded),
        ),
    ensures
        decoded == magnitude,
{
    lemma_top_byte(magnitude);
    lemma_u256_hex_round_trip(be_value(magnitude));
    lemma_be_value_injective(decoded, magnitude);
}

/// For every 32-byte buffer, decoding what the signed encoder writes gives
/// the same bytes back: `decoded` stands for any buffer that the decoder may
/// return on that text.
pub proof fn lemma_i256_hex_buffer_round_trip(value: Seq<u8>, decoded: Seq<u8>)
    requires
        value.len() == 32,
        decoded.len() == 32,
        parse_i256_hex(signed_hex_text(twos_value(value))) == Ok::<int, DecodeError>(
            twos_value(decoded),
        ),
    ensures
        decoded == value,
{
    lemma_twos_value_range(value);
    lemma_i256_hex_round_trip(twos_value(value));
    lemma_twos_value_injective(decoded, value);
}

/// The lowercase form of an ASCII capital; any other byte as it is.
pub open spec fn ascii_lower(c: u8) -> u8 {
    if UPPER_A <= c <= UPPER_Z {
        (c + 32) as u8
    } else {
        c
    }
}

/// A text with every ASCII capital in lowercase.
pub open spec fn lowered(text: Seq<u8>) -> Seq<u8> {
    Seq::new(text.len(), |i: int| ascii_lower(text[i]))
}

/// Digits in lowercase are digits iff they were, and write the same number.
proof fn lemma_lowered_digits(digits: Seq<u8>)
    ensures
        all_hex_digits(lowered(digits)) == all_hex_digits(digits),
        all_hex_digits(digits) ==> hex_value(lowered(digits)) == hex_value(digits),
    decreases digits.len(),
{
    let low = lowered(digits);
    assert forall|i: int| 0 <= i < digits.len() implies is_hex_digit(low[i]) == is_hex_digit(
        digits[i],
    ) by {}
    if all_hex_digits(digits) {
        assert forall|i: int| 0 <= i < low.len() implies is_hex_digit(#[trigger] low[i]) by {
            assert(is_hex_digit(digits[i]));
        }
    }
    if all_hex_digits(low) {
        assert forall|i: int| 0 <= i < digits.len() implies is_hex_digit(#[trigger] digits[i]) by {
            assert(is_hex_digit(low[i]));
        }
    }
    if digits.len() > 0 && all_hex_digits(digits) {
        let front = digits.drop_last();
        assert forall|i: int| 0 <= i < front.len() implies is_hex_digit(#[trigger] front[i]) by {
            assert(is_hex_digit(digits[i]));
        }
        lemma_lowered_digits(front);
        assert(low.drop_last() =~= lowered(front));
        assert(is_hex_digit(digits.last()));
        assert(hex_digit_value(low.last()) == hex_digit_value(digits.last()));
    }
}

/// Decoding does not tell capitals from small letters: a text and its
/// lowercase form decode alike, unsigned and signed, prefix and digits.
pub proof fn lemma_hex_case_insensitive(text: Seq<u8>)
    ensures
        parse_u256_hex(lowered(text)) == parse_u256_hex(text),
        parse_i256_hex(lowered(text)) == parse_i256_hex(text),
{
    let low = lowered(text);
    assert(after_hex_prefix(low) =~= lowered(after_hex_prefix(text)));
    lemma_lowered_digits(after_hex_prefix(text));
    let rest = after_minus(text);
    assert(has_minus(low) == has_minus(text));
    assert(after_minus(low) =~= lowered(rest));
    assert(after_hex_prefix(lowered(rest)) =~= lowered(after_hex_prefix(rest)));
    lemma_lowered_digits(after_hex_prefix(rest));
}

} // verus!
