//! Path utilities and a first-match router for render contracts.
//!
//! A path and a pattern are split at `/` into segments; empty segments do
//! not count. A pattern segment is static text, a named parameter `{name}`
//! that stands for any one segment, or the wildcard `*` that stands for all
//! the segments that are left.

use vstd::prelude::*;
use soroban_sdk::{Bytes, Env};
use crate::ascii::{BRACE_CLOSE, BRACE_OPEN, DIGIT_0, DIGIT_9, SLASH, STAR};
use crate::bytes::{string_bytes, string_to_bytes};
use crate::decimal::{all_dec_digits, dec_value, is_dec_digit, lemma_dec_value_prefix_le};
use crate::host::{
    bytes_seq, parts_are_bytes, parts_get, parts_len, parts_new, parts_push, parts_seq,
    string_seq,
};

verus! {

/// The bytes of `s` from position `from` on.
pub open spec fn tail_from(s: Seq<u8>, from: int) -> Seq<u8> {
    s.subrange(from, s.len() as int)
}

/// The path of a request: the bytes of the string, or `/` for none.
pub fn path_to_bytes(env: &Env, path: &Option<soroban_sdk::String>) -> (result: Bytes)
    ensures
        bytes_seq(result) == match *path {
            Some(p) => string_bytes(string_seq(p)),
            None => seq![SLASH],
        },
{
    match path {
        Some(p) => string_to_bytes(env, p),
        None => {
            let root: [u8; 1] = [SLASH];
            let r = Bytes::from_slice(env, root.as_slice());
            assert(bytes_seq(r) =~= seq![SLASH]);
            r
        },
    }
}

/// True iff the first `prefix.len()` bytes of `bytes` are those of
/// `prefix`.
fn has_prefix(bytes: &Bytes, prefix: &[u8]) -> (r: bool)
    requires
        prefix@.len() <= bytes_seq(*bytes).len(),
    ensures
        r == (bytes_seq(*bytes).subrange(0, prefix@.len() as int) == prefix@),
{
    let n = prefix.len();
    let total: u32 = bytes.len();
    let ghost head = bytes_seq(*bytes).subrange(0, n as int);
    let mut i: usize = 0;
    while i < n
        invariant
            i <= n,
            n == prefix@.len(),
            n <= total,
            total == bytes_seq(*bytes).len(),
            head == bytes_seq(*bytes).subrange(0, n as int),
            forall|j: int| 0 <= j < i ==> head[j] == prefix@[j],
        decreases n - i,
    {
        let at = bytes.get(i as u32);
        assert(head[i as int] == bytes_seq(*bytes)[i as int]);
        match at {
            Some(b) => {
                if b != prefix[i] {
                    return false;
                }
            },
            None => {
                return false;
            },
        }
        i += 1;
    }
    assert(head =~= prefix@);
    true
}

/// True iff the path is exactly the route. Meant for static routes: a
/// parameter or a wildcard in the route is compared as text.
pub fn path_eq(path: &Bytes, route: &[u8]) -> (r: bool)
    ensures
        r == (bytes_seq(*path) == route@),
{
    if path.len() as usize != route.len() {
        return false;
    }
    assert(bytes_seq(*path).subrange(0, route@.len() as int) =~= bytes_seq(*path));
    has_prefix(path, route)
}

/// True iff the path starts with the prefix.
pub fn path_starts_with(path: &Bytes, prefix: &[u8]) -> (r: bool)
    ensures
        r == prefix@.is_prefix_of(bytes_seq(*path)),
{
    if (path.len() as usize) < prefix.len() {
        return false;
    }
    has_prefix(path, prefix)
}

/// The bytes of `bytes` from position `from` up to `to`, as a new `Bytes`.
fn copy_range(env: &Env, bytes: &Bytes, from: u32, to: u32) -> (result: Bytes)
    requires
        from <= to <= bytes_seq(*bytes).len(),
    ensures
        bytes_seq(result) == bytes_seq(*bytes).subrange(from as int, to as int),
{
    let mut result = Bytes::new(env);
    let mut i: u32 = from;
    assert(bytes_seq(result) =~= bytes_seq(*bytes).subrange(from as int, from as int));
    while i < to
        invariant
            from <= i <= to <= bytes_seq(*bytes).len(),
            bytes_seq(result) == bytes_seq(*bytes).subrange(from as int, i as int),
        decreases to - i,
    {
        if let Some(b) = bytes.get(i) {
            result.push_back(b);
            assert(bytes_seq(*bytes).subrange(from as int, i + 1) =~= bytes_seq(*bytes).subrange(
                from as int,
                i as int,
            ).push(b));
        }
        i += 1;
    }
    result
}

/// What is left of the path behind its first `prefix.len()` bytes; empty
/// where the path is no longer than the prefix. The prefix itself is not
/// compared.
pub fn path_suffix(env: &Env, path: &Bytes, prefix: &[u8]) -> (result: Bytes)
    ensures
        bytes_seq(result) == if bytes_seq(*path).len() <= prefix@.len() {
            Seq::<u8>::empty()
        } else {
            tail_from(bytes_seq(*path), prefix@.len() as int)
        },
{
    if path.len() as usize <= prefix.len() {
        return Bytes::new(env);
    }
    copy_range(env, path, prefix.len() as u32, path.len())
}

/// The position of the first `/` in `s`, or its length where it has none.
pub open spec fn first_slash(s: Seq<u8>) -> nat
    decreases s.len(),
{
    if s.len() == 0 || s[0] == SLASH {
        0
    } else {
        1 + first_slash(s.subrange(1, s.len() as int))
    }
}

/// The first `/` is where a `/` stands with none before it.
pub proof fn lemma_first_slash(s: Seq<u8>, k: int)
    requires
        0 <= k <= s.len(),
        forall|j: int| 0 <= j < k ==> s[j] != SLASH,
        k == s.len() || s[k] == SLASH,
    ensures
        first_slash(s) == k,
    decreases s.len(),
{
    if k > 0 {
        let rest = s.subrange(1, s.len() as int);
        assert forall|j: int| 0 <= j < k - 1 implies rest[j] != SLASH by {
            assert(rest[j] == s[j + 1]);
        }
        lemma_first_slash(rest, k - 1);
    }
}

/// The number that a run of digits writes, if it is one and fits in `u32`.
pub open spec fn parse_u32(digits: Seq<u8>) -> Option<u32> {
    if digits.len() == 0 || !all_dec_digits(digits) || dec_value(digits) > u32::MAX {
        None
    } else {
        Some(dec_value(digits) as u32)
    }
}

/// The numeric id that follows `prefix` in `path`: the digits up to the next
/// `/` or the end.
pub open spec fn parse_id_spec(path: Seq<u8>, prefix: Seq<u8>) -> Option<u32> {
    if path.len() <= prefix.len() || !prefix.is_prefix_of(path) {
        None
    } else {
        let rest = tail_from(path, prefix.len() as int);
        parse_u32(rest.subrange(0, first_slash(rest) as int))
    }
}

/// The position of the first `/` at or behind `from`, or the length where
/// there is none.
fn find_slash(bytes: &Bytes, from: u32) -> (end: u32)
    requires
        from <= bytes_seq(*bytes).len(),
    ensures
        from <= end <= bytes_seq(*bytes).len(),
        end - from == first_slash(tail_from(bytes_seq(*bytes), from as int)),
{
    let ghost rest = tail_from(bytes_seq(*bytes), from as int);
    let n = bytes.len();
    let mut i: u32 = from;
    while i < n
        invariant
            from <= i <= n,
            n == bytes_seq(*bytes).len(),
            rest == tail_from(bytes_seq(*bytes), from as int),
            forall|j: int| 0 <= j < i - from ==> rest[j] != SLASH,
        decreases n - i,
    {
        let at = bytes.get(i);
        assert(rest[i - from] == bytes_seq(*bytes)[i as int]);
        if at == Some(SLASH) {
            proof {
                lemma_first_slash(rest, i - from);
            }
            return i;
        }
        i += 1;
    }
    proof {
        lemma_first_slash(rest, i - from);
    }
    i
}

/// Reads the bytes from `from` up to `to` as a `u32`.
fn parse_range(bytes: &Bytes, from: u32, to: u32) -> (r: Option<u32>)
    requires
        from <= to <= bytes_seq(*bytes).len(),
    ensures
        r == parse_u32(bytes_seq(*bytes).subrange(from as int, to as int)),
{
    let ghost digits = bytes_seq(*bytes).subrange(from as int, to as int);
    if from == to {
        return None;
    }
    let mut result: u32 = 0;
    let mut i: u32 = from;
    while i < to
        invariant
            from <= i <= to <= bytes_seq(*bytes).len(),
            digits == bytes_seq(*bytes).subrange(from as int, to as int),
            all_dec_digits(digits.subrange(0, i - from)),
            result == dec_value(digits.subrange(0, i - from)),
        decreases to - i,
    {
        let b: u8 = match bytes.get(i) {
            Some(b) => b,
            None => 0,
        };
        let ghost done = digits.subrange(0, i - from);
        let ghost next = digits.subrange(0, i - from + 1);
        proof {
            assert(digits[i - from] == b);
            assert(next.drop_last() =~= done);
            assert(next.last() == b);
        }
        if b < DIGIT_0 || b > DIGIT_9 {
            return None;
        }
        let d: u32 = (b - DIGIT_0) as u32;
        if result > (u32::MAX - d) / 10 {
            proof {
                if all_dec_digits(digits) {
                    lemma_dec_value_prefix_le(digits, i - from + 1);
                }
            }
            return None;
        }
        result = result * 10 + d;
        proof {
            assert forall|j: int| 0 <= j < next.len() implies is_dec_digit(#[trigger] next[j]) by {
                if j < done.len() {
                    assert(next[j] == done[j]);
                }
            }
        }
        i += 1;
    }
    assert(digits.subrange(0, to - from) =~= digits);
    Some(result)
}

/// Reads a numeric id from a path behind a prefix: for the path `/task/123`
/// and the prefix `/task/` it is 123.
///
/// There is no id where the path does not go on behind the prefix, where it
/// does not start with it, where a byte before the next `/` is no digit,
/// where no digit stands there, or where the number does not fit in `u32`.
pub fn parse_id(path: &Bytes, prefix: &[u8]) -> (r: Option<u32>)
    ensures
        r == parse_id_spec(bytes_seq(*path), prefix@),
{
    if path.len() as usize <= prefix.len() {
        return None;
    }
    if !has_prefix(path, prefix) {
        return None;
    }
    let from: u32 = prefix.len() as u32;
    let to = find_slash(path, from);
    assert(bytes_seq(*path).subrange(from as int, to as int) =~= tail_from(
        bytes_seq(*path),
        from as int,
    ).subrange(0, to - from));
    parse_range(path, from, to)
}

/// Reads a whole `Bytes` as a `u32`: one or more digits and nothing else.
pub fn parse_bytes_as_u32(bytes: &Bytes) -> (r: Option<u32>)
    ensures
        r == parse_u32(bytes_seq(*bytes)),
{
    assert(bytes_seq(*bytes).subrange(0, bytes_seq(*bytes).len() as int) =~= bytes_seq(*bytes));
    parse_range(bytes, 0, bytes.len())
}

/// Where splitting stands after the bytes of `path`: the segments that are
/// complete, and the bytes read since the last `/`.
pub open spec fn split_state(path: Seq<u8>) -> (Seq<Seq<u8>>, Seq<u8>)
    decreases path.len(),
{
    if path.len() == 0 {
        (Seq::empty(), Seq::empty())
    } else {
        let (done, current) = split_state(path.drop_last());
        if path.last() != SLASH {
            (done, current.push(path.last()))
        } else if current.len() > 0 {
            (done.push(current), Seq::empty())
        } else {
            (done, Seq::empty())
        }
    }
}

/// The segments of a path: its runs of bytes between `/`, without the
/// empty ones.
pub open spec fn segments(path: Seq<u8>) -> Seq<Seq<u8>> {
    let (done, current) = split_state(path);
    if current.len() > 0 {
        done.push(current)
    } else {
        done
    }
}

/// No segment is empty and none holds a `/`.
pub proof fn lemma_segments_clean(path: Seq<u8>)
    ensures
        forall|i: int|
            0 <= i < segments(path).len() ==> (#[trigger] segments(path)[i]).len() > 0
                && !segments(path)[i].contains(SLASH),
    decreases path.len(),
{
    let (done, current) = split_state(path);
    lemma_split_state_clean(path);
    assert forall|i: int| 0 <= i < segments(path).len() implies (#[trigger] segments(
        path,
    )[i]).len() > 0 && !segments(path)[i].contains(SLASH) by {
        if i < done.len() {
            assert(segments(path)[i] == done[i]);
        }
    }
}

proof fn lemma_split_state_clean(path: Seq<u8>)
    ensures
        !split_state(path).1.contains(SLASH),
        forall|i: int|
            0 <= i < split_state(path).0.len() ==> (#[trigger] split_state(path).0[i]).len() > 0
                && !split_state(path).0[i].contains(SLASH),
    decreases path.len(),
{
    if path.len() > 0 {
        lemma_split_state_clean(path.drop_last());
        let (done, current) = split_state(path.drop_last());
        let b = path.last();
        if b != SLASH {
            let next = current.push(b);
            assert forall|j: int| 0 <= j < next.len() implies next[j] != SLASH by {
                if j < current.len() {
                    assert(current.contains(current[j]));
                }
            }
        } else if current.len() > 0 {
            let all = done.push(current);
            assert forall|i: int| 0 <= i < all.len() implies (#[trigger] all[i]).len() > 0
                && !all[i].contains(SLASH) by {
                if i < done.len() {
                    assert(all[i] == done[i]);
                }
            }
        }
    }
}

/// Splits a pattern into its segments.
pub fn split_path(env: &Env, path: &[u8]) -> (result: soroban_sdk::Vec<Bytes>)
    ensures
        parts_seq(result) == segments(path@),
        parts_are_bytes(result),
{
    let mut done = parts_new(env);
    let mut current = Bytes::new(env);
    let n = path.len();
    let mut i: usize = 0;
    while i < n
        invariant
            i <= n,
            n == path@.len(),
            parts_are_bytes(done),
            (parts_seq(done), bytes_seq(current)) == split_state(path@.subrange(0, i as int)),
        decreases n - i,
    {
        let b: u8 = path[i];
        proof {
            let next = path@.subrange(0, i + 1);
            assert(next.drop_last() =~= path@.subrange(0, i as int));
            assert(next.last() == b);
        }
        if b == SLASH {
            if !current.is_empty() {
                parts_push(&mut done, current);
                current = Bytes::new(env);
            } else {
                assert(bytes_seq(current) =~= Seq::<u8>::empty());
            }
        } else {
            current.push_back(b);
        }
        i += 1;
    }
    assert(path@.subrange(0, n as int) =~= path@);
    if !current.is_empty() {
        parts_push(&mut done, current);
    }
    done
}

/// Splits a path into its segments.
pub fn split_path_bytes(env: &Env, path: &Bytes) -> (result: soroban_sdk::Vec<Bytes>)
    ensures
        parts_seq(result) == segments(bytes_seq(*path)),
        parts_are_bytes(result),
{
    let ghost text = bytes_seq(*path);
    let mut done = parts_new(env);
    let mut current = Bytes::new(env);
    let n = path.len();
    let mut i: u32 = 0;
    while i < n
        invariant
            i <= n,
            n == text.len(),
            text == bytes_seq(*path),
            parts_are_bytes(done),
            (parts_seq(done), bytes_seq(current)) == split_state(text.subrange(0, i as int)),
        decreases n - i,
    {
        if let Some(b) = path.get(i) {
            proof {
                let next = text.subrange(0, i + 1);
                assert(next.drop_last() =~= text.subrange(0, i as int));
                assert(next.last() == b);
            }
            if b == SLASH {
                if !current.is_empty() {
                    parts_push(&mut done, current);
                    current = Bytes::new(env);
                } else {
                    assert(bytes_seq(current) =~= Seq::<u8>::empty());
                }
            } else {
                current.push_back(b);
            }
        }
        i += 1;
    }
    assert(text.subrange(0, n as int) =~= text);
    if !current.is_empty() {
        parts_push(&mut done, current);
    }
    done
}

/// True iff the `Bytes` holds exactly the bytes of the slice.
pub fn bytes_eq_slice(bytes: &Bytes, slice: &[u8]) -> (r: bool)
    ensures
        r == (bytes_seq(*bytes) == slice@),
{
    path_eq(bytes, slice)
}

/// True iff the two `Bytes` hold the same bytes.
fn bytes_equal(a: &Bytes, b: &Bytes) -> (r: bool)
    ensures
        r == (bytes_seq(*a) == bytes_seq(*b)),
{
    let n = a.len();
    if n != b.len() {
        return false;
    }
    let mut j: u32 = 0;
    while j < n
        invariant
            j <= n,
            n == bytes_seq(*a).len(),
            n == bytes_seq(*b).len(),
            forall|k: int| 0 <= k < j ==> bytes_seq(*a)[k] == bytes_seq(*b)[k],
        decreases n - j,
    {
        if a.get(j) != b.get(j) {
            return false;
        }
        j += 1;
    }
    assert(bytes_seq(*a) =~= bytes_seq(*b));
    true
}

/// True iff the segment is a named parameter: `{`, a name, `}`.
pub open spec fn is_param(segment: Seq<u8>) -> bool {
    segment.len() > 2 && segment[0] == BRACE_OPEN && segment.last() == BRACE_CLOSE
}

/// The name of a parameter segment, without its braces.
pub open spec fn param_name(segment: Seq<u8>) -> Seq<u8> {
    segment.subrange(1, segment.len() - 1)
}

/// True iff the segment is the wildcard `*`.
pub open spec fn is_wildcard(segment: Seq<u8>) -> bool {
    segment == seq![STAR]
}

fn is_param_segment(segment: &Bytes) -> (r: bool)
    ensures
        r == is_param(bytes_seq(*segment)),
{
    let n = segment.len();
    n > 2 && segment.get(0) == Some(BRACE_OPEN) && segment.get(n - 1) == Some(BRACE_CLOSE)
}

fn is_wildcard_segment(segment: &Bytes) -> (r: bool)
    ensures
        r == is_wildcard(bytes_seq(*segment)),
{
    let r = segment.len() == 1 && segment.get(0) == Some(STAR);
    proof {
        if r {
            assert(bytes_seq(*segment) =~= seq![STAR]);
        }
    }
    r
}

/// True iff the slice holds the byte.
fn contains_byte(slice: &[u8], byte: u8) -> (r: bool)
    ensures
        r == slice@.contains(byte),
{
    let mut i: usize = 0;
    while i < slice.len()
        invariant
            i <= slice@.len(),
            forall|j: int| 0 <= j < i ==> slice@[j] != byte,
        decreases slice@.len() - i,
    {
        if slice[i] == byte {
            return true;
        }
        i += 1;
    }
    false
}

/// True iff the pattern segments from position `i` on match the path
/// segments at the same positions. A wildcard ends the comparison; a
/// parameter matches any segment; other segments must be equal.
pub open spec fn match_from(pattern: Seq<Seq<u8>>, path: Seq<Seq<u8>>, i: int) -> bool
    decreases pattern.len() - i,
{
    if i < 0 || i >= pattern.len() {
        true
    } else if is_wildcard(pattern[i]) {
        true
    } else if i >= path.len() {
        false
    } else if is_param(pattern[i]) {
        match_from(pattern, path, i + 1)
    } else {
        pattern[i] == path[i] && match_from(pattern, path, i + 1)
    }
}

/// True iff the path matches the pattern.
///
/// A pattern without any `*` matches paths with as many segments as it has.
/// A pattern with a `*` anywhere matches paths that have at least all of its
/// segments but one. The segments are then compared one by one.
pub open spec fn pattern_matches_spec(path: Seq<u8>, pattern: Seq<u8>) -> bool {
    let ps = segments(pattern);
    let xs = segments(path);
    if !pattern.contains(STAR) && ps.len() != xs.len() {
        false
    } else if pattern.contains(STAR) && xs.len() < ps.len() - 1 {
        false
    } else {
        match_from(ps, xs, 0)
    }
}

/// Checks whether a path matches a pattern of static segments, named
/// parameters `{name}` and the wildcard `*`.
pub fn pattern_matches(env: &Env, path: &Bytes, pattern: &[u8]) -> (r: bool)
    ensures
        r == pattern_matches_spec(bytes_seq(*path), pattern@),
{
    let pattern_segments = split_path(env, pattern);
    let path_segments = split_path_bytes(env, path);
    let pattern_len = parts_len(&pattern_segments);
    let path_len = parts_len(&path_segments);
    let has_wildcard = contains_byte(pattern, STAR);
    if !has_wildcard && pattern_len != path_len {
        return false;
    }
    if has_wildcard && pattern_len > 0 && path_len < pattern_len - 1 {
        return false;
    }
    let ghost ps = parts_seq(pattern_segments);
    let ghost xs = parts_seq(path_segments);
    let mut i: u32 = 0;
    while i < pattern_len
        invariant
            i <= pattern_len,
            pattern_len == ps.len(),
            path_len == xs.len(),
            ps == parts_seq(pattern_segments),
            xs == parts_seq(path_segments),
            parts_are_bytes(pattern_segments),
            parts_are_bytes(path_segments),
            pattern_matches_spec(bytes_seq(*path), pattern@) == match_from(ps, xs, i as int),
        decreases pattern_len - i,
    {
        let pattern_seg = match parts_get(&pattern_segments, i) {
            Some(seg) => seg,
            None => {
                return false;
            },
        };
        if is_wildcard_segment(&pattern_seg) {
            return true;
        }
        let path_seg = match parts_get(&path_segments, i) {
            Some(seg) => seg,
            None => {
                return false;
            },
        };
        if !is_param_segment(&pattern_seg) {
            if !bytes_equal(&pattern_seg, &path_seg) {
                return false;
            }
        }
        i += 1;
    }
    true
}

/// The segments one after the other with a `/` between each two.
pub open spec fn joined_with_slash(segments: Seq<Seq<u8>>) -> Seq<u8>
    decreases segments.len(),
{
    if segments.len() == 0 {
        Seq::empty()
    } else if segments.len() == 1 {
        segments[0]
    } else {
        joined_with_slash(segments.drop_last()).push(SLASH) + segments.last()
    }
}

/// The value of the variable `key`, looking at the pattern segments from
/// position `i` on. The first segment that answers decides: a parameter
/// `{key}` gives the path segment at its position, and the wildcard gives,
/// for the key `*`, all the path segments from its position on. Pattern
/// segments behind the end of the path answer nothing.
pub open spec fn var_from(pattern: Seq<Seq<u8>>, path: Seq<Seq<u8>>, key: Seq<u8>, i: int)
    -> Option<Seq<u8>>
    decreases pattern.len() - i,
{
    if i < 0 || i >= pattern.len() || i >= path.len() {
        None
    } else if is_param(pattern[i]) && param_name(pattern[i]) == key {
        Some(path[i])
    } else if is_wildcard(pattern[i]) && key == seq![STAR] {
        Some(joined_with_slash(path.subrange(i, path.len() as int)))
    } else {
        var_from(pattern, path, key, i + 1)
    }
}

/// The value that a path gives to the variable `key` of a pattern.
pub open spec fn get_var_spec(path: Seq<u8>, pattern: Seq<u8>, key: Seq<u8>) -> Option<Seq<u8>> {
    var_from(segments(pattern), segments(path), key, 0)
}

/// The path segments from position `from` on, joined with `/`.
fn join_from(env: &Env, segments: &soroban_sdk::Vec<Bytes>, from: u32) -> (result: Bytes)
    requires
        parts_are_bytes(*segments),
        from <= parts_seq(*segments).len(),
    ensures
        bytes_seq(result) == joined_with_slash(
            parts_seq(*segments).subrange(from as int, parts_seq(*segments).len() as int),
        ),
{
    let ghost all = parts_seq(*segments);
    let mut result = Bytes::new(env);
    let n = parts_len(segments);
    let mut i: u32 = from;
    assert(all.subrange(from as int, from as int) =~= Seq::<Seq<u8>>::empty());
    while i < n
        invariant
            from <= i <= n,
            n == all.len(),
            all == parts_seq(*segments),
            parts_are_bytes(*segments),
            bytes_seq(result) == joined_with_slash(all.subrange(from as int, i as int)),
        decreases n - i,
    {
        if let Some(seg) = parts_get(segments, i) {
            if i > from {
                result.push_back(SLASH);
            }
            result.append(&seg);
            proof {
                let done = all.subrange(from as int, i as int);
                let next = all.subrange(from as int, i + 1);
                assert(next.drop_last() =~= done);
                assert(next.last() == all[i as int]);
                if i == from {
                    assert(next[0] == all[i as int]);
                    assert(bytes_seq(result) =~= all[i as int]);
                }
            }
        }
        i += 1;
    }
    result
}

/// A request as a route handler sees it: the path, and the pattern that it
/// matched.
pub struct Request<'a> {
    env: &'a Env,
    path: Bytes,
    handler_pattern: &'a [u8],
}

impl<'a> Request<'a> {
    /// The bytes of the path.
    pub closed spec fn path_seq(&self) -> Seq<u8> {
        bytes_seq(self.path)
    }

    /// The bytes of the pattern.
    pub closed spec fn pattern_seq(&self) -> Seq<u8> {
        self.handler_pattern@
    }

    /// A request for a path under a pattern.
    pub fn new(env: &'a Env, path: Bytes, handler_pattern: &'a [u8]) -> (req: Self)
        ensures
            req.path_seq() == bytes_seq(path),
            req.pattern_seq() == handler_pattern@,
    {
        Self { env, path, handler_pattern }
    }

    /// The full path.
    pub fn path(&self) -> (p: &Bytes)
        ensures
            bytes_seq(*p) == self.path_seq(),
    {
        &self.path
    }

    /// The value of a named parameter, or with the key `*` what the wildcard
    /// stands for. With the pattern `/users/{id}` and the path `/users/123`
    /// the key `id` gives `123`.
    pub fn get_var(&self, key: &[u8]) -> (r: Option<Bytes>)
        ensures
            match r {
                Some(value) => get_var_spec(self.path_seq(), self.pattern_seq(), key@) == Some(
                    bytes_seq(value),
                ),
                None => get_var_spec(self.path_seq(), self.pattern_seq(), key@) is None,
            },
    {
        let pattern_segments = split_path(self.env, self.handler_pattern);
        let path_segments = split_path_bytes(self.env, &self.path);
        let pattern_len = parts_len(&pattern_segments);
        let path_len = parts_len(&path_segments);
        let ghost ps = parts_seq(pattern_segments);
        let ghost xs = parts_seq(path_segments);
        let star: [u8; 1] = [STAR];
        let mut i: u32 = 0;
        while i < pattern_len && i < path_len
            invariant
                pattern_len == ps.len(),
                path_len == xs.len(),
                ps == parts_seq(pattern_segments),
                xs == parts_seq(path_segments),
                parts_are_bytes(pattern_segments),
                parts_are_bytes(path_segments),
                star@ == seq![STAR],
                get_var_spec(self.path_seq(), self.pattern_seq(), key@) == var_from(
                    ps,
                    xs,
                    key@,
                    i as int,
                ),
            decreases pattern_len - i,
        {
            let pattern_seg = match parts_get(&pattern_segments, i) {
                Some(seg) => seg,
                None => {
                    return None;
                },
            };
            let seg_len = pattern_seg.len();
            if is_param_segment(&pattern_seg) {
                let name = copy_range(self.env, &pattern_seg, 1, seg_len - 1);
                if bytes_eq_slice(&name, key) {
                    return parts_get(&path_segments, i);
                }
            }
            if is_wildcard_segment(&pattern_seg) {
                let result = join_from(self.env, &path_segments, i);
                if bytes_eq_slice(&Bytes::from_slice(self.env, star.as_slice()), key) {
                    return Some(result);
                }
            }
            i += 1;
        }
        None
    }

    /// The value of a variable as a number.
    pub fn get_var_u32(&self, key: &[u8]) -> (r: Option<u32>)
        ensures
            r == match get_var_spec(self.path_seq(), self.pattern_seq(), key@) {
                Some(value) => parse_u32(value),
                None => None,
            },
    {
        match self.get_var(key) {
            Some(bytes) => parse_bytes_as_u32(&bytes),
            None => None,
        }
    }

    /// What the wildcard of the pattern stands for.
    pub fn get_wildcard(&self) -> (r: Option<Bytes>)
        ensures
            match r {
                Some(value) => get_var_spec(self.path_seq(), self.pattern_seq(), seq![STAR])
                    == Some(bytes_seq(value)),
                None => get_var_spec(self.path_seq(), self.pattern_seq(), seq![STAR]) is None,
            },
    {
        let star: [u8; 1] = [STAR];
        assert(star@ =~= seq![STAR]);
        self.get_var(star.as_slice())
    }
}

/// A router over one path. Routes are tried in the order in which they are
/// given, and the first that matches is taken.
pub struct Router<'a> {
    env: &'a Env,
    path: Bytes,
}

/// What routing has come to so far: the result of the first route that
/// matched, if any did.
pub struct RouterResult<'a, T> {
    env: &'a Env,
    path: Bytes,
    result: Option<T>,
}

impl<'a> Router<'a> {
    /// The bytes of the path that is routed.
    pub closed spec fn path_seq(&self) -> Seq<u8> {
        bytes_seq(self.path)
    }

    /// A router for an optional path; no path is the root `/`.
    pub fn new(env: &'a Env, path: Option<soroban_sdk::String>) -> (router: Self)
        ensures
            router.path_seq() == match path {
                Some(p) => string_bytes(string_seq(p)),
                None => seq![SLASH],
            },
    {
        Self { env, path: path_to_bytes(env, &path) }
    }

    /// A router for a path given as `Bytes`.
    pub fn from_bytes(env: &'a Env, path: Bytes) -> (router: Self)
        ensures
            router.path_seq() == bytes_seq(path),
    {
        Self { env, path }
    }

    /// Tries the first route: where the path matches the pattern, the
    /// handler is called with the request and its result is kept.
    pub fn handle<F, T>(self, pattern: &'a [u8], handler: F) -> (r: RouterResult<'a, T>) where
        F: FnOnce(Request) -> T,

        requires
            forall|req: Request|
                req.path_seq() == self.path_seq() && req.pattern_seq() == pattern@
                    ==> #[trigger] handler.requires((req,)),
        ensures
            r.path_seq() == self.path_seq(),
            r.result_spec() is Some == pattern_matches_spec(self.path_seq(), pattern@),
            r.result_spec() is Some ==> exists|req: Request|
                req.path_seq() == self.path_seq() && req.pattern_seq() == pattern@
                    && #[trigger] handler.ensures((req,), r.result_spec()->0),
    {
        if pattern_matches(self.env, &self.path, pattern) {
            let req = Request::new(self.env, self.path.clone(), pattern);
            let ghost seen = req;
            let out = handler(req);
            let r = RouterResult { env: self.env, path: self.path, result: Some(out) };
            assert(handler.ensures((seen,), r.result_spec()->0));
            r
        } else {
            RouterResult { env: self.env, path: self.path, result: None }
        }
    }
}

impl<'a, T> RouterResult<'a, T> {
    /// The bytes of the path that is routed.
    pub closed spec fn path_seq(&self) -> Seq<u8> {
        bytes_seq(self.path)
    }

    /// The result of the route that matched, if one has.
    pub closed spec fn result_spec(&self) -> Option<T> {
        self.result
    }

    /// Tries another route, unless an earlier one has matched.
    pub fn or_handle<F>(self, pattern: &'a [u8], handler: F) -> (r: Self) where
        F: FnOnce(Request) -> T,

        requires
            forall|req: Request|
                req.path_seq() == self.path_seq() && req.pattern_seq() == pattern@
                    ==> #[trigger] handler.requires((req,)),
        ensures
            r.path_seq() == self.path_seq(),
            self.result_spec() is Some ==> r.result_spec() == self.result_spec(),
            self.result_spec() is None ==> (r.result_spec() is Some == pattern_matches_spec(
                self.path_seq(),
                pattern@,
            )),
            self.result_spec() is None && r.result_spec() is Some ==> exists|req: Request|
                req.path_seq() == self.path_seq() && req.pattern_seq() == pattern@
                    && #[trigger] handler.ensures((req,), r.result_spec()->0),
    {
        if self.result.is_some() {
            return self;
        }
        if pattern_matches(self.env, &self.path, pattern) {
            let req = Request::new(self.env, self.path.clone(), pattern);
            let ghost seen = req;
            let out = handler(req);
            let r = RouterResult { env: self.env, path: self.path, result: Some(out) };
            assert(handler.ensures((seen,), r.result_spec()->0));
            r
        } else {
            self
        }
    }

    /// Ends routing: the result of the route that matched, or else what the
    /// handler makes of the request under the empty pattern.
    pub fn or_default<F>(self, handler: F) -> (out: T) where F: FnOnce(Request) -> T
        requires
            forall|req: Request|
                req.path_seq() == self.path_seq() && req.pattern_seq() == Seq::<u8>::empty()
                    ==> #[trigger] handler.requires((req,)),
        ensures
            self.result_spec() is Some ==> out == self.result_spec()->0,
            self.result_spec() is None ==> exists|req: Request|
                req.path_seq() == self.path_seq() && req.pattern_seq() == Seq::<u8>::empty()
                    && #[trigger] handler.ensures((req,), out),
    {
        match self.result {
            Some(found) => found,
            None => {
                let none: [u8; 0] = [];
                assert(none@ =~= Seq::<u8>::empty());
                let req = Request::new(self.env, self.path, none.as_slice());
                let ghost seen = req;
                let out = handler(req);
                assert(handler.ensures((seen,), out));
                out
            },
        }
    }
}

} // verus!
