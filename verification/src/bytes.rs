//! Byte utilities for render contracts: joining, number formatting and JSON
//! escaping on host `Bytes`.

use vstd::prelude::*;
use vstd::string::StringSliceAdditionalSpecFns;
use soroban_sdk::{Bytes, Env};
use crate::ascii::{
    BACKSLASH, CARRIAGE_RETURN, DIGIT_0, LOWER_N, LOWER_R, LOWER_T, MINUS, NEWLINE, QUOTE, TAB,
};
use crate::decimal::{
    dec_digit_char, dec_digits, dec_text, lemma_dec_digits_len, lemma_dec_digits_value,
    lemma_pow10_20, signed_dec_text,
};
use crate::host::{
    bytes_seq, parts_are_bytes, parts_get, parts_len, parts_seq, string_copy_into, string_seq,
};

verus! {

/// The longest string that `string_to_bytes` converts.
pub const MAX_STRING_SIZE: usize = 16384;

/// All the parts one after the other.
pub open spec fn joined(parts: Seq<Seq<u8>>) -> Seq<u8>
    decreases parts.len(),
{
    if parts.len() == 0 {
        Seq::empty()
    } else {
        joined(parts.drop_last()) + parts.last()
    }
}

/// Joins the items of a `Vec<Bytes>` into one `Bytes`.
pub fn concat_bytes(env: &Env, parts: &soroban_sdk::Vec<Bytes>) -> (result: Bytes)
    requires
        parts_are_bytes(*parts),
    ensures
        bytes_seq(result) == joined(parts_seq(*parts)),
{
    let mut result = Bytes::new(env);
    let n = parts_len(parts);
    let mut i: u32 = 0;
    while i < n
        invariant
            i <= n,
            n == parts_seq(*parts).len(),
            parts_are_bytes(*parts),
            bytes_seq(result) == joined(parts_seq(*parts).subrange(0, i as int)),
        decreases n - i,
    {
        if let Some(part) = parts_get(parts, i) {
            result.append(&part);
            proof {
                let done = parts_seq(*parts).subrange(0, i + 1);
                assert(done.drop_last() =~= parts_seq(*parts).subrange(0, i as int));
                assert(done.last() == parts_seq(*parts)[i as int]);
            }
        }
        i += 1;
    }
    assert(parts_seq(*parts).subrange(0, n as int) =~= parts_seq(*parts));
    result
}

/// What `string_to_bytes` makes of a string with the bytes `s`: the same
/// bytes up to `MAX_STRING_SIZE` of them, and a fixed notice for more.
pub open spec fn string_bytes(s: Seq<u8>) -> Seq<u8> {
    if s.len() <= MAX_STRING_SIZE {
        s
    } else {
        "[content exceeds 16KB limit]".spec_bytes()
    }
}

/// Converts a Soroban `String` to `Bytes`.
///
/// The string is copied through a buffer on the stack, the smallest of
/// 256, 1024, 4096 and 16384 bytes that holds it. A longer string cannot be
/// copied and gives a fixed notice in its place.
pub fn string_to_bytes(env: &Env, s: &soroban_sdk::String) -> (result: Bytes)
    ensures
        bytes_seq(result) == string_bytes(string_seq(*s)),
{
    let len: usize = s.len() as usize;
    if len == 0 {
        assert(string_seq(*s) =~= Seq::<u8>::empty());
        return Bytes::new(env);
    }
    if len <= 256 {
        let mut buf: [u8; 256] = [0u8; 256];
        string_copy_into(s, &mut buf, len);
        return Bytes::from_slice(env, vstd::slice::slice_subrange(buf.as_slice(), 0, len));
    }
    if len <= 1024 {
        let mut buf: [u8; 1024] = [0u8; 1024];
        string_copy_into(s, &mut buf, len);
        return Bytes::from_slice(env, vstd::slice::slice_subrange(buf.as_slice(), 0, len));
    }
    if len <= 4096 {
        let mut buf: [u8; 4096] = [0u8; 4096];
        string_copy_into(s, &mut buf, len);
        return Bytes::from_slice(env, vstd::slice::slice_subrange(buf.as_slice(), 0, len));
    }
    if len <= MAX_STRING_SIZE {
        let mut buf: [u8; 16384] = [0u8; 16384];
        string_copy_into(s, &mut buf, len);
        return Bytes::from_slice(env, vstd::slice::slice_subrange(buf.as_slice(), 0, len));
    }
    Bytes::from_slice(env, "[content exceeds 16KB limit]".as_bytes())
}

/// Appends the decimal digits of `n` to `result`; nothing for zero.
fn push_digits(result: &mut Bytes, n: u64)
    ensures
        bytes_seq(*final(result)) == bytes_seq(*old(result)) + dec_digits(n as nat),
{
    let ghost before = bytes_seq(*result);
    let mut num: u64 = n;
    let mut digits: [u8; 20] = [0u8; 20];
    let mut i: usize = 0;
    let ghost mut low: Seq<u8> = Seq::empty();
    proof {
        lemma_pow10_20();
        lemma_dec_digits_len(n as nat, 20);
        assert(dec_digits(n as nat) =~= dec_digits(n as nat) + low);
    }
    while num > 0
        invariant
            i <= 20,
            low.len() == i,
            forall|k: int| 0 <= k < i ==> low[k] == digits@[i - 1 - k],
            dec_digits(n as nat).len() <= 20,
            dec_digits(n as nat) == dec_digits(num as nat) + low,
        decreases num,
    {
        assert(i < 20) by {
            lemma_dec_digits_value(num as nat);
            assert(dec_digits(n as nat).len() == dec_digits(num as nat).len() + low.len());
        }
        let d: u8 = (num % 10) as u8;
        digits[i] = DIGIT_0 + d;
        proof {
            let c = dec_digit_char((num % 10) as nat);
            let rest = dec_digits((num / 10) as nat);
            assert(dec_digits(num as nat) == rest.push(c));
            assert(rest.push(c) + low =~= rest + (seq![c] + low));
            low = seq![c] + low;
        }
        num = num / 10;
        i += 1;
    }
    assert(dec_digits(n as nat) =~= low) by {
        assert(dec_digits(0) =~= Seq::<u8>::empty());
    }
    let mut j: usize = i;
    while j > 0
        invariant
            j <= i <= 20,
            low.len() == i,
            forall|k: int| 0 <= k < i ==> low[k] == digits@[i - 1 - k],
            bytes_seq(*result) == before + low.subrange(0, i - j),
        decreases j,
    {
        j -= 1;
        result.push_back(digits[j]);
        assert(low.subrange(0, i - j) =~= low.subrange(0, i - j - 1).push(digits@[j as int]));
    }
    assert(low.subrange(0, i as int) =~= low);
}

/// The decimal text of a `u32` as `Bytes`.
pub fn u32_to_bytes(env: &Env, n: u32) -> (result: Bytes)
    ensures
        bytes_seq(result) == dec_text(n as nat),
{
    if n == 0 {
        let zero: [u8; 1] = [DIGIT_0];
        let r = Bytes::from_slice(env, zero.as_slice());
        assert(bytes_seq(r) =~= dec_text(0));
        return r;
    }
    let mut result = Bytes::new(env);
    push_digits(&mut result, n as u64);
    assert(bytes_seq(result) =~= dec_digits(n as nat));
    result
}

/// The decimal text of an `i64` as `Bytes`, with a leading `-` for a
/// negative number.
pub fn i64_to_bytes(env: &Env, n: i64) -> (result: Bytes)
    ensures
        bytes_seq(result) == signed_dec_text(n as int),
{
    if n == 0 {
        let zero: [u8; 1] = [DIGIT_0];
        let r = Bytes::from_slice(env, zero.as_slice());
        assert(bytes_seq(r) =~= dec_text(0));
        return r;
    }
    let negative = n < 0;
    let wide: i128 = if negative {
        -(n as i128)
    } else {
        n as i128
    };
    let num: u64 = wide as u64;
    let mut result = Bytes::new(env);
    if negative {
        result.push_back(MINUS);
    }
    let ghost sign = bytes_seq(result);
    push_digits(&mut result, num);
    proof {
        if negative {
            assert(sign =~= seq![MINUS]);
        } else {
            assert(bytes_seq(result) =~= dec_digits(num as nat));
        }
    }
    result
}

/// What one byte becomes inside a JSON string: a quote, a backslash, a line
/// feed, a carriage return and a tab are written as two-character escapes,
/// every other byte as itself.
pub open spec fn json_escaped_byte(b: u8) -> Seq<u8> {
    if b == QUOTE {
        seq![BACKSLASH, QUOTE]
    } else if b == BACKSLASH {
        seq![BACKSLASH, BACKSLASH]
    } else if b == NEWLINE {
        seq![BACKSLASH, LOWER_N]
    } else if b == CARRIAGE_RETURN {
        seq![BACKSLASH, LOWER_R]
    } else if b == TAB {
        seq![BACKSLASH, LOWER_T]
    } else {
        seq![b]
    }
}

/// A byte sequence with every byte escaped for a JSON string.
pub open spec fn json_escaped(s: Seq<u8>) -> Seq<u8>
    decreases s.len(),
{
    if s.len() == 0 {
        Seq::empty()
    } else {
        json_escaped(s.drop_last()) + json_escaped_byte(s.last())
    }
}

/// Appends one byte, escaped for a JSON string.
fn push_escaped(result: &mut Bytes, b: u8)
    ensures
        bytes_seq(*final(result)) == bytes_seq(*old(result)) + json_escaped_byte(b),
{
    let ghost before = bytes_seq(*result);
    if b == QUOTE {
        result.push_back(BACKSLASH);
        result.push_back(QUOTE);
    } else if b == BACKSLASH {
        result.push_back(BACKSLASH);
        result.push_back(BACKSLASH);
    } else if b == NEWLINE {
        result.push_back(BACKSLASH);
        result.push_back(LOWER_N);
    } else if b == CARRIAGE_RETURN {
        result.push_back(BACKSLASH);
        result.push_back(LOWER_R);
    } else if b == TAB {
        result.push_back(BACKSLASH);
        result.push_back(LOWER_T);
    } else {
        result.push_back(b);
    }
    assert(bytes_seq(*result) =~= before + json_escaped_byte(b));
}

/// Escapes a Soroban `String` for inclusion in a JSON string. The string is
/// first converted as `string_to_bytes` does.
pub fn escape_json_string(env: &Env, s: &soroban_sdk::String) -> (result: Bytes)
    ensures
        bytes_seq(result) == json_escaped(string_bytes(string_seq(*s))),
{
    let input = string_to_bytes(env, s);
    let ghost text = bytes_seq(input);
    let mut result = Bytes::new(env);
    let n = input.len();
    let mut i: u32 = 0;
    while i < n
        invariant
            i <= n,
            n == text.len(),
            text == bytes_seq(input),
            bytes_seq(result) == json_escaped(text.subrange(0, i as int)),
        decreases n - i,
    {
        if let Some(b) = input.get(i) {
            push_escaped(&mut result, b);
            proof {
                let done = text.subrange(0, i + 1);
                assert(done.drop_last() =~= text.subrange(0, i as int));
                assert(done.last() == b);
            }
        }
        i += 1;
    }
    assert(text.subrange(0, n as int) =~= text);
    result
}

/// Escapes a byte slice for inclusion in a JSON string.
pub fn escape_json_bytes(env: &Env, input: &[u8]) -> (result: Bytes)
    ensures
        bytes_seq(result) == json_escaped(input@),
{
    let mut result = Bytes::new(env);
    let n = input.len();
    let mut i: usize = 0;
    while i < n
        invariant
            i <= n,
            n == input@.len(),
            bytes_seq(result) == json_escaped(input@.subrange(0, i as int)),
        decreases n - i,
    {
        let b: u8 = input[i];
        push_escaped(&mut result, b);
        proof {
            let done = input@.subrange(0, i + 1);
            assert(done.drop_last() =~= input@.subrange(0, i as int));
            assert(done.last() == b);
        }
        i += 1;
    }
    assert(input@.subrange(0, n as int) =~= input@);
    result
}

} // verus!
