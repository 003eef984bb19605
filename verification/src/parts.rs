//! The accumulator that the builders share: a host `Vec<Bytes>` that is read
//! as the concatenation of its items.

use vstd::prelude::*;
use vstd::string::StringSliceAdditionalSpecFns;
use soroban_sdk::{Bytes, Env};
use crate::bytes::joined;
use crate::host::{bytes_seq, parts_are_bytes, parts_push, parts_seq};

verus! {

/// The bytes of a text, its UTF-8 encoding.
pub open spec fn utf8(s: &str) -> Seq<u8> {
    s.spec_bytes()
}

/// One more part at the end adds its bytes at the end.
pub proof fn lemma_joined_push(parts: Seq<Seq<u8>>, part: Seq<u8>)
    ensures
        joined(parts.push(part)) == joined(parts) + part,
{
    assert(parts.push(part).drop_last() =~= parts);
}

/// Appends a `Bytes` as one more part.
pub(crate) fn push_bytes(parts: &mut soroban_sdk::Vec<Bytes>, bytes: Bytes)
    requires
        parts_are_bytes(*old(parts)),
    ensures
        parts_are_bytes(*final(parts)),
        joined(parts_seq(*final(parts))) == joined(parts_seq(*old(parts))) + bytes_seq(bytes),
{
    proof {
        lemma_joined_push(parts_seq(*parts), bytes_seq(bytes));
    }
    parts_push(parts, bytes);
}

/// Appends the bytes of a text as one more part.
pub(crate) fn push_text(env: &Env, parts: &mut soroban_sdk::Vec<Bytes>, s: &str)
    requires
        parts_are_bytes(*old(parts)),
    ensures
        parts_are_bytes(*final(parts)),
        joined(parts_seq(*final(parts))) == joined(parts_seq(*old(parts))) + utf8(s),
{
    push_bytes(parts, Bytes::from_slice(env, s.as_bytes()));
}

} // verus!
