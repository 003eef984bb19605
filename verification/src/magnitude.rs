//! Fixed-width arithmetic on a 32-byte big-endian magnitude.
//!
//! A magnitude is a plain `[u8; 32]`, most significant byte first. Its
//! meaning is the natural number [`be_value`] of its bytes, always below
//! [`two_pow_256`]. Every primitive works in place, touches each byte once
//! and reports overflow through its boolean result.

use vstd::prelude::*;

verus! {

/// The value of a byte sequence read as a big-endian natural number.
pub open spec fn be_value(s: Seq<u8>) -> nat
    decreases s.len(),
{
    if s.len() == 0 {
        0
    } else {
        be_value(s.drop_last()) * 256 + s.last() as nat
    }
}

/// 256 to the power `k`.
pub open spec fn pow256(k: nat) -> nat
    decreases k,
{
    if k == 0 {
        1
    } else {
        256 * pow256((k - 1) as nat)
    }
}

/// 2^256, one more than the largest magnitude.
pub open spec fn two_pow_256() -> nat {
    0x1_0000_0000_0000_0000_0000_0000_0000_0000_0000_0000_0000_0000_0000_0000_0000_0000nat
}

/// 2^248, the weight of the most significant byte.
pub open spec fn two_pow_248() -> nat {
    0x100_0000_0000_0000_0000_0000_0000_0000_0000_0000_0000_0000_0000_0000_0000_0000nat
}

/// 2^255, the magnitude of the signed minimum.
pub open spec fn two_pow_255() -> nat {
    0x8000_0000_0000_0000_0000_0000_0000_0000_0000_0000_0000_0000_0000_0000_0000_0000nat
}

pub proof fn lemma_pow256_add(a: nat, b: nat)
    ensures
        pow256(a + b) == pow256(a) * pow256(b),
    decreases a,
{
    if a == 0 {
        assert(pow256(0) == 1);
        assert(1 * pow256(b) == pow256(b));
    } else {
        lemma_pow256_add((a - 1) as nat, b);
        let x = pow256((a - 1) as nat);
        let y = pow256(b);
        assert(pow256(a + b) == 256 * pow256((a + b - 1) as nat));
        assert((a - 1) as nat + b == (a + b - 1) as nat);
        assert(256 * (x * y) == (256 * x) * y) by (nonlinear_arith);
    }
}

/// 256^32 is 2^256.
pub proof fn lemma_pow256_32()
    ensures
        pow256(32) == two_pow_256(),
        two_pow_256() == 2 * two_pow_255(),
{
    assert(pow256(1) == 256) by {
        assert(pow256(0) == 1);
    }
    lemma_pow256_add(1, 1);
    assert(pow256(2) == 0x1_0000);
    lemma_pow256_add(2, 2);
    assert(pow256(4) == 0x1_0000_0000);
    lemma_pow256_add(4, 4);
    assert(pow256(8) == 0x1_0000_0000_0000_0000nat);
    lemma_pow256_add(8, 8);
    assert(pow256(16) == 0x1_0000_0000_0000_0000_0000_0000_0000_0000nat);
    lemma_pow256_add(16, 16);
}

/// A sequence of `n` bytes is worth less than 256^n.
pub proof fn lemma_be_value_bound(s: Seq<u8>)
    ensures
        be_value(s) < pow256(s.len()),
    decreases s.len(),
{
    if s.len() > 0 {
        lemma_be_value_bound(s.drop_last());
    }
}

/// Splitting off the most significant byte.
pub proof fn lemma_be_value_head(s: Seq<u8>)
    requires
        s.len() > 0,
    ensures
        be_value(s) == s[0] as nat * pow256((s.len() - 1) as nat) + be_value(
            s.subrange(1, s.len() as int),
        ),
    decreases s.len(),
{
    let n = s.len();
    let tail = s.subrange(1, n as int);
    let h = s[0] as nat;
    if n == 1 {
        assert(be_value(s.drop_last()) == 0);
        assert(be_value(tail) == 0);
        assert(pow256(0) == 1);
        assert(s.last() == s[0]);
        assert(h * 1 == h) by (nonlinear_arith);
    } else {
        let front = s.drop_last();
        lemma_be_value_head(front);
        assert(front.subrange(1, front.len() as int) =~= tail.drop_last());
        assert(front[0] == s[0]);
        assert(tail.last() == s.last());
        let p = pow256((n - 2) as nat);
        let x = be_value(tail.drop_last());
        assert(be_value(front) == h * p + x);
        assert(be_value(tail) == x * 256 + s.last() as nat);
        assert(pow256((n - 1) as nat) == 256 * p);
        assert((h * p + x) * 256 == h * (256 * p) + x * 256) by (nonlinear_arith);
    }
}

/// A byte sequence is worth zero iff all its bytes are zero.
pub proof fn lemma_be_value_zero_iff(s: Seq<u8>)
    ensures
        (be_value(s) == 0) == (forall|i: int| 0 <= i < s.len() ==> s[i] == 0u8),
    decreases s.len(),
{
    if s.len() > 0 {
        let front = s.drop_last();
        lemma_be_value_zero_iff(front);
        if be_value(s) == 0 {
            assert(be_value(front) == 0 && s.last() == 0u8);
            assert forall|i: int| 0 <= i < s.len() implies s[i] == 0u8 by {
                if i < s.len() - 1 {
                    assert(front[i] == s[i]);
                }
            }
        } else if s.last() == 0u8 {
            let j = choose|j: int| 0 <= j < front.len() && front[j] != 0u8;
            assert(s[j] == front[j]);
        }
    }
}

/// Two byte sequences of one length that are worth the same are the same.
pub proof fn lemma_be_value_injective(a: Seq<u8>, b: Seq<u8>)
    requires
        a.len() == b.len(),
        be_value(a) == be_value(b),
    ensures
        a == b,
    decreases a.len(),
{
    if a.len() > 0 {
        assert(a.last() == b.last() && be_value(a.drop_last()) == be_value(b.drop_last()));
        lemma_be_value_injective(a.drop_last(), b.drop_last());
        assert(a =~= a.drop_last().push(a.last()));
        assert(b =~= b.drop_last().push(b.last()));
    } else {
        assert(a =~= b);
    }
}

/// In a 32-byte magnitude the most significant byte counts 2^248 each, and
/// the other 31 bytes together stay below 2^248. So the top bit of the first
/// byte is set iff the value is at least 2^255.
pub proof fn lemma_top_byte(s: Seq<u8>)
    requires
        s.len() == 32,
    ensures
        be_value(s) == s[0] as nat * two_pow_248() + be_value(s.subrange(1, 32)),
        be_value(s.subrange(1, 32)) < two_pow_248(),
        (s[0] >= 0x80u8) == (be_value(s) >= two_pow_255()),
        be_value(s) < two_pow_256(),
{
    lemma_be_value_head(s);
    lemma_be_value_bound(s.subrange(1, 32));
    lemma_be_value_bound(s);
    lemma_pow256_32();
    assert(pow256(32) == 256 * pow256(31));
    assert(pow256(31) == two_pow_248());
    let h = s[0] as nat;
    let w = two_pow_248();
    let t = be_value(s.subrange(1, 32));
    assert((h >= 128) == (h * w + t >= 128 * w)) by (nonlinear_arith)
        requires
            t < w,
    ;
}

/// True iff every byte of the buffer is zero.
pub fn is_zero(buf: &[u8; 32]) -> (r: bool)
    ensures
        r == (be_value(buf@) == 0),
{
    let mut i: usize = 0;
    while i < 32
        invariant
            i <= 32,
            be_value(buf@.subrange(0, i as int)) == 0,
        decreases 32 - i,
    {
        proof {
            let a = buf@.subrange(0, i as int);
            let b = buf@.subrange(0, i + 1);
            assert(b.drop_last() =~= a);
            assert(b.last() == buf@[i as int]);
        }
        if buf[i] != 0 {
            proof {
                lemma_be_value_prefix_le(buf@, i + 1);
            }
            return false;
        }
        i += 1;
    }
    assert(buf@.subrange(0, 32) =~= buf@);
    true
}

/// A prefix of a byte sequence is worth no more than the whole.
pub proof fn lemma_be_value_prefix_le(s: Seq<u8>, k: int)
    requires
        0 <= k <= s.len(),
    ensures
        be_value(s.subrange(0, k)) <= be_value(s),
    decreases s.len(),
{
    if k == s.len() {
        assert(s.subrange(0, k) =~= s);
    } else {
        lemma_be_value_prefix_le(s.drop_last(), k);
        assert(s.drop_last().subrange(0, k) =~= s.subrange(0, k));
    }
}

/// One carry step of a multiply-and-add that walks from the least
/// significant byte upwards: `p` is the weight of the byte being rewritten,
/// `b` its old content, `m` the multiplier.
proof fn lemma_carry_step(p: nat, b: nat, m: nat, carry: nat, s_old: nat, s_new: nat, d: nat)
    requires
        s_new + carry * p == s_old * m + d,
    ensures
        ((b * m + carry) % 256) * p + s_new + ((b * m + carry) / 256) * (256 * p) == (b * p
            + s_old) * m + d,
{
    let cur = b * m + carry;
    let q = cur / 256;
    let r = cur % 256;
    assert(cur == 256 * q + r);
    assert(r * p + s_new + q * (256 * p) == (b * p + s_old) * m + d) by (nonlinear_arith)
        requires
            cur == 256 * q + r,
            cur == b * m + carry,
            s_new + carry * p == s_old * m + d,
    ;
}

/// Rewriting byte `i` leaves the bytes before it as they were and puts the
/// new byte in front of the unchanged tail.
proof fn lemma_update_suffix(before: Seq<u8>, after: Seq<u8>, i: int, v: u8)
    requires
        before.len() == 32,
        0 <= i < 32,
        after == before.update(i, v),
    ensures
        after.subrange(0, i) == before.subrange(0, i),
        after.subrange(i + 1, 32) == before.subrange(i + 1, 32),
        be_value(after.subrange(i, 32)) == v as nat * pow256((31 - i) as nat) + be_value(
            before.subrange(i + 1, 32),
        ),
{
    assert(after.subrange(0, i) =~= before.subrange(0, i));
    assert(after.subrange(i + 1, 32) =~= before.subrange(i + 1, 32));
    let t = after.subrange(i, 32);
    lemma_be_value_head(t);
    assert(t.subrange(1, t.len() as int) =~= before.subrange(i + 1, 32));
}

/// Multiplies the magnitude by ten and adds `digit`, in place.
///
/// Returns `true` iff the product still fits in 256 bits. The buffer then
/// holds it; otherwise it holds the product reduced modulo 2^256.
pub fn mul10_add_digit(buf: &mut [u8; 32], digit: u8) -> (ok: bool)
    requires
        digit <= 9,
    ensures
        ok == (be_value(old(buf)@) * 10 + digit < two_pow_256()),
        be_value(final(buf)@) == (be_value(old(buf)@) * 10 + digit) % (two_pow_256() as int),
{
    let ghost orig = buf@;
    let mut carry: u16 = digit as u16;
    let mut i: usize = 32;
    proof {
        assert(pow256(0) == 1);
        assert(be_value(orig.subrange(32, 32)) == 0);
        assert(carry * pow256(0) == carry);
    }
    while i > 0
        invariant
            i <= 32,
            carry <= 9,
            digit <= 9,
            orig.len() == 32,
            buf@.subrange(0, i as int) == orig.subrange(0, i as int),
            be_value(buf@.subrange(i as int, 32)) + carry * pow256((32 - i) as nat) == be_value(
                orig.subrange(i as int, 32),
            ) * 10 + digit,
        decreases i,
    {
        i -= 1;
        let ghost before = buf@;
        assert(before[i as int] == orig[i as int]) by {
            assert(before.subrange(0, i + 1)[i as int] == orig.subrange(0, i + 1)[i as int]);
        }
        let b: u8 = buf[i];
        let cur: u16 = (b as u16) * 10 + carry;
        let low: u8 = (cur % 256) as u8;
        buf[i] = low;
        proof {
            let p = pow256((31 - i) as nat);
            lemma_update_suffix(before, buf@, i as int, low);
            lemma_be_value_head(orig.subrange(i as int, 32));
            assert(orig.subrange(i as int, 32).subrange(1, 32 - i) =~= orig.subrange(i + 1, 32));
            assert(before.subrange(0, i as int) =~= before.subrange(0, i + 1).subrange(0, i as int));
            assert(orig.subrange(0, i as int) =~= orig.subrange(0, i + 1).subrange(0, i as int));
            lemma_carry_step(
                p,
                b as nat,
                10,
                carry as nat,
                be_value(orig.subrange(i + 1, 32)),
                be_value(before.subrange(i + 1, 32)),
                digit as nat,
            );
            assert(pow256((32 - i) as nat) == 256 * p);
        }
        carry = cur / 256;
    }
    proof {
        assert(buf@.subrange(0, 32) =~= buf@);
        assert(orig.subrange(0, 32) =~= orig);
        lemma_be_value_bound(buf@);
        lemma_pow256_32();
        lemma_reduce(be_value(buf@), carry as nat, be_value(orig) * 10 + digit as nat);
    }
    carry == 0
}

/// Ten times the largest magnitude does not fit in 256 bits, whatever digit
/// is added: on a buffer of 32 bytes `0xff`, `mul10_add_digit` reports
/// overflow.
pub proof fn lemma_max_times_ten_overflows(digit: u8)
    ensures
        (two_pow_256() - 1) * 10 + digit >= two_pow_256(),
{
}

/// A value written as `low + high * 2^256` with `low` in range has `low` as
/// its residue, and fits iff `high` is zero.
proof fn lemma_reduce(low: nat, high: nat, total: nat)
    requires
        low < two_pow_256(),
        low + high * pow256(32) == total,
        pow256(32) == two_pow_256(),
    ensures
        total % two_pow_256() == low,
        (high == 0) == (total < two_pow_256()),
{
    let m = two_pow_256();
    assert(total % m == low && ((high == 0) == (total < m))) by (nonlinear_arith)
        requires
            low < m,
            low + high * m == total,
            m > 0,
    ;
}

/// Divides the magnitude by ten in place and returns the remainder.
pub fn div10_rem(buf: &mut [u8; 32]) -> (rem: u8)
    ensures
        be_value(final(buf)@) == be_value(old(buf)@) / 10,
        rem == be_value(old(buf)@) % 10,
{
    let ghost orig = buf@;
    let mut rem: u16 = 0;
    let mut i: usize = 0;
    while i < 32
        invariant
            i <= 32,
            rem <= 9,
            orig.len() == 32,
            buf@.subrange(i as int, 32) == orig.subrange(i as int, 32),
            be_value(buf@.subrange(0, i as int)) == be_value(orig.subrange(0, i as int)) / 10,
            rem == be_value(orig.subrange(0, i as int)) % 10,
        decreases 32 - i,
    {
        let ghost before = buf@;
        assert(before[i as int] == orig[i as int]) by {
            assert(before.subrange(i as int, 32)[0] == orig.subrange(i as int, 32)[0]);
        }
        let cur: u16 = rem * 256 + buf[i] as u16;
        let q: u8 = (cur / 10) as u8;
        buf[i] = q;
        rem = cur % 10;
        proof {
            let after = buf@;
            assert(after.subrange(i + 1, 32) =~= before.subrange(i + 1, 32));
            assert(before.subrange(i + 1, 32) =~= before.subrange(i as int, 32).subrange(1, 32 - i));
            assert(orig.subrange(i + 1, 32) =~= orig.subrange(i as int, 32).subrange(1, 32 - i));
            assert(after.subrange(0, i + 1).drop_last() =~= before.subrange(0, i as int));
            assert(orig.subrange(0, i + 1).drop_last() =~= orig.subrange(0, i as int));
            assert(after.subrange(0, i + 1).last() == q);
            assert(orig.subrange(0, i + 1).last() == orig[i as int]);
        }
        i += 1;
    }
    proof {
        assert(buf@.subrange(0, 32) =~= buf@);
        assert(orig.subrange(0, 32) =~= orig);
    }
    rem as u8
}

/// Shifts the magnitude left by four bits and puts `nibble` into the freed
/// low bits, in place.
///
/// Returns `true` iff no set bit left the buffer. The buffer then holds
/// sixteen times the old value plus `nibble`; otherwise it holds that number
/// reduced modulo 2^256.
pub fn shift4_add_nibble(buf: &mut [u8; 32], nibble: u8) -> (ok: bool)
    requires
        nibble <= 15,
    ensures
        ok == (be_value(old(buf)@) * 16 + nibble < two_pow_256()),
        be_value(final(buf)@) == (be_value(old(buf)@) * 16 + nibble) % (two_pow_256() as int),
{
    let ghost orig = buf@;
    let mut carry: u8 = nibble;
    let mut i: usize = 32;
    proof {
        assert(pow256(0) == 1);
        assert(be_value(orig.subrange(32, 32)) == 0);
        assert(carry * pow256(0) == carry);
    }
    while i > 0
        invariant
            i <= 32,
            carry <= 15,
            nibble <= 15,
            orig.len() == 32,
            buf@.subrange(0, i as int) == orig.subrange(0, i as int),
            be_value(buf@.subrange(i as int, 32)) + carry * pow256((32 - i) as nat) == be_value(
                orig.subrange(i as int, 32),
            ) * 16 + nibble,
        decreases i,
    {
        i -= 1;
        let ghost before = buf@;
        assert(before[i as int] == orig[i as int]) by {
            assert(before.subrange(0, i + 1)[i as int] == orig.subrange(0, i + 1)[i as int]);
        }
        let b: u8 = buf[i];
        let low: u8 = (b << 4) | carry;
        let high: u8 = b >> 4;
        buf[i] = low;
        proof {
            assert(low == (b * 16 + carry) % 256 && high == (b * 16 + carry) / 256) by (bit_vector)
                requires
                    carry <= 15,
                    low == (b << 4) | carry,
                    high == b >> 4,
            ;
            let p = pow256((31 - i) as nat);
            lemma_update_suffix(before, buf@, i as int, low);
            lemma_be_value_head(orig.subrange(i as int, 32));
            assert(orig.subrange(i as int, 32).subrange(1, 32 - i) =~= orig.subrange(i + 1, 32));
            assert(before.subrange(0, i as int) =~= before.subrange(0, i + 1).subrange(0, i as int));
            assert(orig.subrange(0, i as int) =~= orig.subrange(0, i + 1).subrange(0, i as int));
            lemma_carry_step(
                p,
                b as nat,
                16,
                carry as nat,
                be_value(orig.subrange(i + 1, 32)),
                be_value(before.subrange(i + 1, 32)),
                nibble as nat,
            );
            assert(pow256((32 - i) as nat) == 256 * p);
        }
        carry = high;
    }
    proof {
        assert(buf@.subrange(0, 32) =~= buf@);
        assert(orig.subrange(0, 32) =~= orig);
        lemma_be_value_bound(buf@);
        lemma_pow256_32();
        lemma_reduce(be_value(buf@), carry as nat, be_value(orig) * 16 + nibble as nat);
    }
    carry == 0
}

/// The magnitude that two's-complement negation makes of `v`: zero of zero,
/// and otherwise what `v` lacks to 2^256.
pub open spec fn negated(v: nat) -> nat {
    if v == 0 {
        0
    } else {
        (two_pow_256() - v) as nat
    }
}

/// One step of a two's-complement negation that walks from the least
/// significant byte upwards.
proof fn lemma_negate_step(p: nat, b: nat, carry: nat, s_old: nat, s_new: nat)
    requires
        b <= 255,
        s_new + carry * p == p - s_old,
    ensures
        ((255 - b + carry) % 256) * p + s_new + ((255 - b + carry) / 256) * (256 * p) == 256 * p
            - (b * p + s_old),
{
    let cur = 255 - b + carry;
    let q = cur / 256;
    let r = cur % 256;
    assert(cur == 256 * q + r);
    assert(r * p + s_new + q * (256 * p) == 256 * p - (b * p + s_old)) by (nonlinear_arith)
        requires
            cur == 256 * q + r,
            cur == 255 - b + carry,
            s_new + carry * p == p - s_old,
    ;
}

/// Replaces the magnitude by its two's-complement negation: every byte is
/// complemented and one is added, the carry running from the last byte to
/// the first. Zero stays zero.
pub fn negate(buf: &mut [u8; 32])
    ensures
        be_value(final(buf)@) == negated(be_value(old(buf)@)),
        be_value(final(buf)@) == (two_pow_256() - be_value(old(buf)@)) % (two_pow_256() as int),
{
    let ghost orig = buf@;
    let mut carry: u16 = 1;
    let mut i: usize = 32;
    proof {
        assert(pow256(0) == 1);
        assert(be_value(orig.subrange(32, 32)) == 0);
        assert(carry * pow256(0) == carry);
    }
    while i > 0
        invariant
            i <= 32,
            carry <= 1,
            orig.len() == 32,
            buf@.subrange(0, i as int) == orig.subrange(0, i as int),
            be_value(buf@.subrange(i as int, 32)) + carry * pow256((32 - i) as nat) == pow256(
                (32 - i) as nat,
            ) - be_value(orig.subrange(i as int, 32)),
        decreases i,
    {
        i -= 1;
        let ghost before = buf@;
        assert(before[i as int] == orig[i as int]) by {
            assert(before.subrange(0, i + 1)[i as int] == orig.subrange(0, i + 1)[i as int]);
        }
        let b: u8 = buf[i];
        let flipped: u8 = !b;
        assert(flipped == 255 - b) by (bit_vector)
            requires
                flipped == !b,
        ;
        let cur: u16 = flipped as u16 + carry;
        let low: u8 = (cur % 256) as u8;
        buf[i] = low;
        proof {
            let p = pow256((31 - i) as nat);
            lemma_update_suffix(before, buf@, i as int, low);
            lemma_be_value_head(orig.subrange(i as int, 32));
            assert(orig.subrange(i as int, 32).subrange(1, 32 - i) =~= orig.subrange(i + 1, 32));
            assert(before.subrange(0, i as int) =~= before.subrange(0, i + 1).subrange(0, i as int));
            assert(orig.subrange(0, i as int) =~= orig.subrange(0, i + 1).subrange(0, i as int));
            lemma_negate_step(
                p,
                b as nat,
                carry as nat,
                be_value(orig.subrange(i + 1, 32)),
                be_value(before.subrange(i + 1, 32)),
            );
            assert(pow256((32 - i) as nat) == 256 * p);
        }
        carry = cur / 256;
    }
    proof {
        assert(buf@.subrange(0, 32) =~= buf@);
        assert(orig.subrange(0, 32) =~= orig);
        lemma_be_value_bound(buf@);
        lemma_be_value_bound(orig);
        lemma_pow256_32();
        let m = two_pow_256();
        let low = be_value(buf@);
        let v = be_value(orig);
        assert((m - v) % (m as int) == low && (v == 0 ==> low == 0) && (v != 0 ==> low == m - v))
            by (nonlinear_arith)
            requires
                low < m,
                v < m,
                carry <= 1,
                low + carry * m == m - v,
        ;
    }
}

} // verus!
