//! Fixed-width little-endian fields and null-terminated strings.
use vstd::prelude::*;
use vstd::utf8::{decode_utf8, valid_utf8};

verus! {

/// The unsigned 16-bit little-endian integer stored at `at`.
pub open spec fn le_u16(s: Seq<u8>, at: int) -> int {
    s[at] + 256 * s[at + 1]
}

/// The unsigned 32-bit little-endian integer stored at `at`.
pub open spec fn le_u32(s: Seq<u8>, at: int) -> int {
    s[at] + 256 * s[at + 1] + 65536 * s[at + 2] + 16777216 * s[at + 3]
}

/// Number of non-zero bytes that follow `start` before a zero byte or the end.
pub open spec fn cstr_len(s: Seq<u8>, start: int) -> nat
    decreases s.len() - start,
{
    if start < 0 || start >= s.len() || s[start] == 0 {
        0
    } else {
        1 + cstr_len(s, start + 1)
    }
}

/// The bytes of the null-terminated string at `start`, terminator excluded.
/// A start at or past the end gives the empty string.
pub open spec fn cstr_at(s: Seq<u8>, start: int) -> Seq<u8> {
    if 0 <= start < s.len() {
        s.subrange(start, start + cstr_len(s, start))
    } else {
        Seq::empty()
    }
}

/// The position right after the string at `start` (after its terminator, if any).
pub open spec fn cstr_end(s: Seq<u8>, start: int) -> int {
    let e = start + cstr_len(s, start);
    if e < s.len() {
        e + 1
    } else {
        e
    }
}

/// A string ends no later than the end of the source, or where it starts.
pub proof fn lemma_cstr_end_bound(s: Seq<u8>, start: int)
    ensures
        cstr_end(s, start) <= if start < s.len() { s.len() as int } else { start },
        start >= 0 ==> start <= cstr_end(s, start),
    decreases s.len() - start,
{
    if !(start < 0 || start >= s.len() || s[start] == 0) {
        lemma_cstr_end_bound(s, start + 1);
    }
}

/// Reads the 16-bit little-endian integer at `at`, if two bytes are there.
pub fn read_u16(s: &[u8], at: usize) -> (r: Option<u16>)
    ensures
        r is Some <==> at + 2 <= s@.len(),
        r matches Some(v) ==> v == le_u16(s@, at as int),
{
    if at > s.len() || s.len() - at < 2 {
        return None;
    }
    let b0 = s[at] as u16;
    let b1 = s[at + 1] as u16;
    Some(b0 + 256 * b1)
}

/// Reads the 32-bit little-endian integer at `at`, if four bytes are there.
pub fn read_u32(s: &[u8], at: usize) -> (r: Option<u32>)
    ensures
        r is Some <==> at + 4 <= s@.len(),
        r matches Some(v) ==> v == le_u32(s@, at as int),
{
    if at > s.len() || s.len() - at < 4 {
        return None;
    }
    let b0 = s[at] as u32;
    let b1 = s[at + 1] as u32;
    let b2 = s[at + 2] as u32;
    let b3 = s[at + 3] as u32;
    Some(b0 + 256 * b1 + 65536 * b2 + 16777216 * b3)
}

/// Reads the null-terminated string at `start`: its bytes, and the position after it.
pub fn read_cstr(s: &[u8], start: u64) -> (r: (Vec<u8>, u64))
    ensures
        r.0@ == cstr_at(s@, start as int),
        r.1 == cstr_end(s@, start as int),
{
    let mut name: Vec<u8> = Vec::new();
    if start >= s.len() as u64 {
        return (name, start);
    }
    let first = start as usize;
    let mut i: usize = first;
    while i < s.len() && s[i] != 0
        invariant
            first <= i <= s@.len(),
            first == start,
            name@ == s@.subrange(first as int, i as int),
            cstr_len(s@, first as int) == (i - first) + cstr_len(s@, i as int),
        decreases s@.len() - i,
    {
        name.push(s[i]);
        i = i + 1;
        assert(name@ =~= s@.subrange(first as int, i as int));
    }
    assert(cstr_len(s@, i as int) == 0);
    if i < s.len() {
        (name, (i + 1) as u64)
    } else {
        (name, i as u64)
    }
}

/// Relies on String::from_utf8: it succeeds exactly on valid UTF-8 input and
/// then holds the characters that the bytes encode.
#[verifier::external_body]
pub(crate) fn string_from_utf8(bytes: Vec<u8>) -> (r: Option<String>)
    ensures
        r is Some <==> valid_utf8(bytes@),
        r matches Some(t) ==> t@ == decode_utf8(bytes@),
{
    String::from_utf8(bytes).ok()
}

/// Compares two byte runs.
pub fn bytes_equal(a: &[u8], b: &[u8]) -> (r: bool)
    ensures
        r == (a@ == b@),
{
    if a.len() != b.len() {
        return false;
    }
    let mut i: usize = 0;
    while i < a.len()
        invariant
            a@.len() == b@.len(),
            0 <= i <= a@.len(),
            a@.subrange(0, i as int) == b@.subrange(0, i as int),
        decreases a@.len() - i,
    {
        if a[i] != b[i] {
            assert(a@.subrange(0, i as int + 1)[i as int] != b@.subrange(0, i as int + 1)[i as int]);
            assert(a@ != b@) by {
                if a@ == b@ {
                    assert(a@[i as int] == b@[i as int]);
                }
            }
            return false;
        }
        assert(a@.subrange(0, i as int + 1) =~= a@.subrange(0, i as int).push(a@[i as int]));
        assert(b@.subrange(0, i as int + 1) =~= b@.subrange(0, i as int).push(b@[i as int]));
        i = i + 1;
    }
    assert(a@ =~= a@.subrange(0, i as int));
    assert(b@ =~= b@.subrange(0, i as int));
    true
}

} // verus!
