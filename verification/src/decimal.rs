//! Decimal text for 256-bit integers.
//!
//! Canonical decimal text has no leading zeros (the value zero is the single
//! digit `0`), no `+`, and a leading `-` for negative signed values. The
//! decoders accept leading zeros; the signed decoder accepts one leading `-`.

use vstd::prelude::*;
use crate::ascii::{DIGIT_0, DIGIT_9, MINUS};
use crate::error::DecodeError;
use crate::magnitude::{
    be_value, div10_rem, is_zero, lemma_be_value_injective, lemma_be_value_zero_iff,
    lemma_top_byte, mul10_add_digit, two_pow_255, two_pow_256,
};
use crate::sign::{
    after_minus, apply_sign, has_minus, lemma_twos_value_injective, lemma_twos_value_range,
    signed_result, split_sign, twos_value,
};

verus! {

/// The ASCII character of a decimal digit.
pub open spec fn dec_digit_char(d: nat) -> u8
    recommends
        d < 10,
{
    (DIGIT_0 + d) as u8
}

/// The decimal digits of `n`, most significant first; none for zero.
pub open spec fn dec_digits(n: nat) -> Seq<u8>
    decreases n,
{
    if n == 0 {
        Seq::empty()
    } else {
        dec_digits(n / 10).push(dec_digit_char(n % 10))
    }
}

/// The canonical decimal text of a natural number.
pub open spec fn dec_text(n: nat) -> Seq<u8> {
    if n == 0 {
        seq![DIGIT_0]
    } else {
        dec_digits(n)
    }
}

/// The canonical decimal text of an integer.
pub open spec fn signed_dec_text(v: int) -> Seq<u8> {
    if v < 0 {
        seq![MINUS] + dec_text((-v) as nat)
    } else {
        dec_text(v as nat)
    }
}

/// True iff `c` is one of the ASCII digits `0` to `9`.
pub open spec fn is_dec_digit(c: u8) -> bool {
    DIGIT_0 <= c <= DIGIT_9
}

/// True iff every byte of `s` is a decimal digit.
pub open spec fn all_dec_digits(s: Seq<u8>) -> bool {
    forall|i: int| 0 <= i < s.len() ==> is_dec_digit(#[trigger] s[i])
}

/// The number that a sequence of decimal digits writes.
pub open spec fn dec_value(s: Seq<u8>) -> nat
    decreases s.len(),
{
    if s.len() == 0 {
        0
    } else {
        dec_value(s.drop_last()) * 10 + (s.last() - DIGIT_0) as nat
    }
}

/// What decoding an unsigned decimal text gives: the text must be one or
/// more digits, and their value must fit in 256 bits.
pub open spec fn parse_u256_decimal(text: Seq<u8>) -> Result<nat, DecodeError> {
    if text.len() == 0 || !all_dec_digits(text) {
        Err(DecodeError::Invalid)
    } else if dec_value(text) >= two_pow_256() {
        Err(DecodeError::Overflow)
    } else {
        Ok(dec_value(text))
    }
}

/// What decoding a signed decimal text gives: an optional minus sign, then
/// one or more digits whose value, with the sign, must lie in the signed
/// 256-bit range.
pub open spec fn parse_i256_decimal(text: Seq<u8>) -> Result<int, DecodeError> {
    let digits = after_minus(text);
    if digits.len() == 0 || !all_dec_digits(digits) {
        Err(DecodeError::Invalid)
    } else {
        signed_result(has_minus(text), dec_value(digits))
    }
}

/// The digits of a number are digits, and they write that number.
pub proof fn lemma_dec_digits_value(n: nat)
    ensures
        all_dec_digits(dec_digits(n)),
        dec_value(dec_digits(n)) == n,
        n > 0 ==> dec_digits(n).len() > 0,
    decreases n,
{
    if n > 0 {
        lemma_dec_digits_value(n / 10);
        let front = dec_digits(n / 10);
        let c = dec_digit_char(n % 10);
        assert(front.push(c).drop_last() =~= front);
        assert(front.push(c).last() == c);
    }
}

/// Canonical text has no leading zero: the first digit of a number that is
/// not zero is not `0`.
pub proof fn lemma_dec_digits_canonical(n: nat)
    requires
        n > 0,
    ensures
        dec_digits(n).len() > 0,
        dec_digits(n)[0] != DIGIT_0,
    decreases n,
{
    let front = dec_digits(n / 10);
    let c = dec_digit_char(n % 10);
    if n >= 10 {
        lemma_dec_digits_canonical(n / 10);
        assert(front.push(c)[0] == front[0]);
    } else {
        assert(front =~= Seq::<u8>::empty());
        assert(front.push(c)[0] == c);
    }
}

/// The first digits of a number write no more than all of them.
pub proof fn lemma_dec_value_prefix_le(s: Seq<u8>, k: int)
    requires
        0 <= k <= s.len(),
        all_dec_digits(s),
    ensures
        dec_value(s.subrange(0, k)) <= dec_value(s),
    decreases s.len(),
{
    if k == s.len() {
        assert(s.subrange(0, k) =~= s);
    } else {
        assert(is_dec_digit(s.last()));
        lemma_dec_value_prefix_le(s.drop_last(), k);
        assert(s.drop_last().subrange(0, k) =~= s.subrange(0, k));
    }
}

/// 10 to the power `k`.
pub open spec fn pow10(k: nat) -> nat
    decreases k,
{
    if k == 0 {
        1
    } else {
        10 * pow10((k - 1) as nat)
    }
}

proof fn lemma_pow10_add(a: nat, b: nat)
    ensures
        pow10(a + b) == pow10(a) * pow10(b),
    decreases a,
{
    if a == 0 {
        assert(pow10(0) == 1);
        assert(1 * pow10(b) == pow10(b));
    } else {
        lemma_pow10_add((a - 1) as nat, b);
        let x = pow10((a - 1) as nat);
        let y = pow10(b);
        assert(pow10(a + b) == 10 * pow10((a + b - 1) as nat));
        assert((a - 1) as nat + b == (a + b - 1) as nat);
        assert(10 * (x * y) == (10 * x) * y) by (nonlinear_arith);
    }
}

/// 10^78 is more than any 256-bit magnitude.
proof fn lemma_pow10_78()
    ensures
        pow10(78) > two_pow_256(),
{
    assert(pow10(1) == 10) by {
        assert(pow10(0) == 1);
    }
    lemma_pow10_add(1, 1);
    assert(pow10(2) == 100);
    lemma_pow10_add(2, 2);
    assert(pow10(4) == 10_000);
    lemma_pow10_add(4, 4);
    assert(pow10(8) == 100_000_000);
    lemma_pow10_add(8, 8);
    assert(pow10(16) == 10_000_000_000_000_000nat);
    lemma_pow10_add(16, 16);
    assert(pow10(32) == 100_000_000_000_000_000_000_000_000_000_000nat);
    lemma_pow10_add(32, 32);
    lemma_pow10_add(64, 8);
    lemma_pow10_add(72, 4);
    lemma_pow10_add(76, 2);
}

/// 10^10 and 10^20, the first powers of ten above `u32::MAX` and
/// `u64::MAX`.
pub proof fn lemma_pow10_20()
    ensures
        pow10(10) == 10_000_000_000nat,
        pow10(20) == 100_000_000_000_000_000_000nat,
{
    assert(pow10(1) == 10) by {
        assert(pow10(0) == 1);
    }
    lemma_pow10_add(1, 1);
    assert(pow10(2) == 100);
    lemma_pow10_add(2, 2);
    assert(pow10(4) == 10_000);
    lemma_pow10_add(4, 4);
    assert(pow10(8) == 100_000_000);
    lemma_pow10_add(8, 2);
    assert(pow10(10) == 10_000_000_000nat);
    lemma_pow10_add(10, 10);
}

/// A number below 10^k has at most `k` digits.
pub proof fn lemma_dec_digits_len(n: nat, k: nat)
    requires
        n < pow10(k),
    ensures
        dec_digits(n).len() <= k,
    decreases n,
{
    if n > 0 {
        assert(k > 0) by {
            assert(pow10(0) == 1);
        }
        lemma_dec_digits_len(n / 10, (k - 1) as nat);
    }
}

/// The decimal text of a 256-bit magnitude has between 1 and 78 characters.
pub proof fn lemma_dec_text_len(n: nat)
    requires
        n < two_pow_256(),
    ensures
        1 <= dec_text(n).len() <= 78,
{
    lemma_pow10_78();
    lemma_dec_digits_len(n, 78);
    lemma_dec_digits_value(n);
}

/// Appends the canonical decimal text of a magnitude to `out`.
///
/// The digits are peeled off least significant first by repeated division
/// by ten, kept in a buffer of 78 characters, and written out most
/// significant first.
pub fn append_decimal(out: &mut Vec<u8>, magnitude: &[u8; 32])
    ensures
        final(out)@ == old(out)@ + dec_text(be_value(magnitude@)),
{
    if is_zero(magnitude) {
        out.push(DIGIT_0);
        assert(out@ =~= old(out)@ + seq![DIGIT_0]);
        return ;
    }
    let ghost total = be_value(magnitude@);
    let mut work: [u8; 32] = *magnitude;
    let mut scratch: [u8; 78] = [0u8; 78];
    let mut pos: usize = 78;
    proof {
        lemma_top_byte(magnitude@);
        lemma_dec_text_len(total);
        assert(dec_digits(total) =~= dec_digits(total) + scratch@.subrange(78, 78));
    }
    while !is_zero(&work)
        invariant
            pos <= 78,
            dec_digits(total).len() <= 78,
            dec_digits(total) == dec_digits(be_value(work@)) + scratch@.subrange(pos as int, 78),
        decreases be_value(work@),
    {
        let ghost rest = be_value(work@);
        let ghost tail = scratch@.subrange(pos as int, 78);
        assert(pos > 0) by {
            lemma_dec_digits_value(rest);
            assert(dec_digits(total).len() == dec_digits(rest).len() + tail.len());
        }
        let d: u8 = div10_rem(&mut work);
        pos -= 1;
        scratch[pos] = DIGIT_0 + d;
        proof {
            let c = dec_digit_char(rest % 10);
            assert(scratch@.subrange(pos as int, 78) =~= seq![c] + tail);
            assert(dec_digits(rest) == dec_digits(rest / 10).push(c));
            assert(dec_digits(rest / 10).push(c) + tail =~= dec_digits(rest / 10) + (seq![c]
                + tail));
        }
    }
    let ghost before = out@;
    let ghost digits = scratch@.subrange(pos as int, 78);
    assert(dec_digits(total) =~= digits) by {
        assert(dec_digits(0) =~= Seq::<u8>::empty());
    }
    let mut i: usize = pos;
    while i < 78
        invariant
            pos <= i <= 78,
            out@ == before + scratch@.subrange(pos as int, i as int),
        decreases 78 - i,
    {
        out.push(scratch[i]);
        assert(scratch@.subrange(pos as int, i + 1) =~= scratch@.subrange(pos as int, i as int).push(
            scratch@[i as int],
        ));
        i += 1;
    }
}

/// Writes an unsigned 256-bit magnitude as canonical decimal text.
pub fn encode_u256_decimal(magnitude: &[u8; 32]) -> (text: Vec<u8>)
    ensures
        text@ == dec_text(be_value(magnitude@)),
        1 <= text@.len() <= 78,
{
    let mut out: Vec<u8> = Vec::new();
    append_decimal(&mut out, magnitude);
    proof {
        lemma_top_byte(magnitude@);
        lemma_dec_text_len(be_value(magnitude@));
        assert(out@ =~= dec_text(be_value(magnitude@)));
    }
    out
}

/// Writes a 256-bit two's-complement value as canonical decimal text, with
/// a leading `-` iff it is negative.
pub fn encode_i256_decimal(value: &[u8; 32]) -> (text: Vec<u8>)
    ensures
        text@ == signed_dec_text(twos_value(value@)),
        1 <= text@.len() <= 79,
{
    let (negative, magnitude) = split_sign(value);
    let mut out: Vec<u8> = Vec::new();
    if negative {
        out.push(MINUS);
    }
    let ghost sign = out@;
    append_decimal(&mut out, &magnitude);
    proof {
        lemma_top_byte(magnitude@);
        lemma_dec_text_len(be_value(magnitude@));
        if negative {
            assert(sign =~= seq![MINUS]);
        } else {
            assert(out@ =~= dec_text(be_value(magnitude@)));
        }
    }
    out
}

/// Reads the decimal digits `text[start..]` into a magnitude.
fn decode_decimal_digits(text: &[u8], start: usize) -> (r: Result<[u8; 32], DecodeError>)
    requires
        start <= text@.len(),
    ensures
        match r {
            Ok(magnitude) => parse_u256_decimal(text@.subrange(start as int, text@.len() as int))
                == Ok::<nat, DecodeError>(be_value(magnitude@)),
            Err(e) => parse_u256_decimal(text@.subrange(start as int, text@.len() as int))
                == Err::<nat, DecodeError>(e),
        },
{
    let n = text.len();
    let ghost digits = text@.subrange(start as int, n as int);
    if start >= n {
        return Err(DecodeError::Invalid);
    }
    let mut acc: [u8; 32] = [0u8; 32];
    let mut overflow = false;
    let mut i: usize = start;
    proof {
        lemma_be_value_zero_iff(acc@);
    }
    while i < n
        invariant
            start <= i <= n,
            n == text@.len(),
            digits == text@.subrange(start as int, n as int),
            all_dec_digits(text@.subrange(start as int, i as int)),
            overflow ==> dec_value(text@.subrange(start as int, i as int)) >= two_pow_256(),
            !overflow ==> be_value(acc@) == dec_value(text@.subrange(start as int, i as int)),
        decreases n - i,
    {
        let c: u8 = text[i];
        if c < DIGIT_0 || c > DIGIT_9 {
            assert(digits[i - start] == c);
            return Err(DecodeError::Invalid);
        }
        if !overflow {
            let ok = mul10_add_digit(&mut acc, c - DIGIT_0);
            if !ok {
                overflow = true;
            }
        }
        proof {
            let prev = text@.subrange(start as int, i as int);
            let next = text@.subrange(start as int, i + 1);
            assert(next.drop_last() =~= prev);
            assert(next.last() == c);
            assert forall|j: int| 0 <= j < next.len() implies is_dec_digit(#[trigger] next[j]) by {
                if j < prev.len() {
                    assert(next[j] == prev[j]);
                }
            }
        }
        i += 1;
    }
    proof {
        assert(text@.subrange(start as int, i as int) =~= digits);
        lemma_top_byte(acc@);
    }
    if overflow {
        Err(DecodeError::Overflow)
    } else {
        Ok(acc)
    }
}

/// Reads unsigned decimal text into a 256-bit magnitude.
///
/// The text must be one or more ASCII digits, else the result is `Invalid`;
/// a value of 2^256 or more gives `Overflow`.
pub fn decode_u256_decimal(text: &[u8]) -> (r: Result<[u8; 32], DecodeError>)
    ensures
        match r {
            Ok(magnitude) => parse_u256_decimal(text@) == Ok::<nat, DecodeError>(
                be_value(magnitude@),
            ),
            Err(e) => parse_u256_decimal(text@) == Err::<nat, DecodeError>(e),
        },
{
    assert(text@.subrange(0, text@.len() as int) =~= text@);
    decode_decimal_digits(text, 0)
}

/// Reads signed decimal text into a 256-bit two's-complement buffer.
///
/// The text is an optional `-` and then one or more ASCII digits, else the
/// result is `Invalid`; a value outside -2^255 ..= 2^255 - 1 gives
/// `Overflow`.
pub fn decode_i256_decimal(text: &[u8]) -> (r: Result<[u8; 32], DecodeError>)
    ensures
        match r {
            Ok(value) => parse_i256_decimal(text@) == Ok::<int, DecodeError>(twos_value(value@)),
            Err(e) => parse_i256_decimal(text@) == Err::<int, DecodeError>(e),
        },
{
    let negative = text.len() > 0 && text[0] == MINUS;
    let start: usize = if negative {
        1
    } else {
        0
    };
    assert(text@.subrange(start as int, text@.len() as int) =~= after_minus(text@));
    match decode_decimal_digits(text, start) {
        Ok(magnitude) => apply_sign(negative, magnitude),
        Err(e) => Err(e),
    }
}

/// Decoding the canonical decimal text of a number that fits in 256 bits
/// gives that number.
pub proof fn lemma_u256_decimal_round_trip(n: nat)
    requires
        n < two_pow_256(),
    ensures
        parse_u256_decimal(dec_text(n)) == Ok::<nat, DecodeError>(n),
{
    lemma_dec_digits_value(n);
    if n == 0 {
        let t = dec_text(0);
        assert(t.drop_last() =~= Seq::<u8>::empty());
        assert(dec_value(t.drop_last()) == 0);
    }
}

/// Decoding the canonical decimal text of an integer in the signed 256-bit
/// range gives that integer.
pub proof fn lemma_i256_decimal_round_trip(v: int)
    requires
        -two_pow_255() <= v < two_pow_255(),
    ensures
        parse_i256_decimal(signed_dec_text(v)) == Ok::<int, DecodeError>(v),
{
    let m: nat = if v < 0 {
        (-v) as nat
    } else {
        v as nat
    };
    lemma_u256_decimal_round_trip(m);
    let digits = dec_text(m);
    assert(is_dec_digit(digits[0]));
    if v < 0 {
        assert(after_minus(signed_dec_text(v)) =~= digits);
    }
}

/// For every 32-byte buffer, decoding what the unsigned encoder writes gives
/// the same bytes back: `decoded` stands for any buffer that the decoder may
/// return on that text.
pub proof fn lemma_u256_decimal_buffer_round_trip(magnitude: Seq<u8>, decoded: Seq<u8>)
    requires
        magnitude.len() == 32,
        decoded.len() == 32,
        parse_u256_decimal(dec_text(be_value(magnitude))) == Ok::<nat, DecodeError>(
            be_value(decoded),
        ),
    ensures
        decoded == magnitude,
{
    lemma_top_byte(magnitude);
    lemma_u256_decimal_round_trip(be_value(magnitude));
    lemma_be_value_injective(decoded, magnitude);
}

/// For every 32-byte buffer, decoding what the signed encoder writes gives
/// the same bytes back: `decoded` stands for any buffer that the decoder may
/// return on that text.
pub proof fn lemma_i256_decimal_buffer_round_trip(value: Seq<u8>, decoded: Seq<u8>)
    requires
        value.len() == 32,
        decoded.len() == 32,
        parse_i256_decimal(signed_dec_text(twos_value(value))) == Ok::<int, DecodeError>(
            twos_value(decoded),
        ),
    ensures
        decoded == value,
{
    lemma_twos_value_range(value);
    lemma_i256_decimal_round_trip(twos_value(value));
    lemma_twos_value_injective(decoded, value);
}

} // verus!
