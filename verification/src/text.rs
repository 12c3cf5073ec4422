//! Byte-string helpers shared by the filename grammar, the sniffer and the
//! protocol logic. Names and protocol lines are treated as byte strings;
//! case folding is ASCII-only, as every pattern being matched is ASCII.

use vstd::prelude::*;
use vstd::string::StringSliceAdditionalSpecFns;

verus! {

/// ASCII lower-casing of one byte.
pub open spec fn spec_lower(c: u8) -> u8 {
    if 'A' as u8 <= c && c <= 'Z' as u8 {
        (c + 32) as u8
    } else {
        c
    }
}

/// ASCII lower-casing of a byte string.
pub open spec fn spec_lower_seq(s: Seq<u8>) -> Seq<u8> {
    s.map_values(|c: u8| spec_lower(c))
}

/// `s` ends with `suffix`.
pub open spec fn spec_ends_with(s: Seq<u8>, suffix: Seq<u8>) -> bool {
    s.len() >= suffix.len() && s.subrange(s.len() - suffix.len(), s.len() as int) == suffix
}

/// `s` starts with `prefix`.
pub open spec fn spec_starts_with(s: Seq<u8>, prefix: Seq<u8>) -> bool {
    s.len() >= prefix.len() && s.subrange(0, prefix.len() as int) == prefix
}

/// `needle` occurs in `s` at position `i`.
pub open spec fn spec_match_at(s: Seq<u8>, needle: Seq<u8>, i: int) -> bool {
    0 <= i && i + needle.len() <= s.len() && s.subrange(i, i + needle.len()) == needle
}

/// `needle` occurs somewhere in `s`.
pub open spec fn spec_contains(s: Seq<u8>, needle: Seq<u8>) -> bool {
    exists|i: int| spec_match_at(s, needle, i)
}

/// ASCII decimal digit.
pub open spec fn spec_is_digit(c: u8) -> bool {
    '0' as u8 <= c && c <= '9' as u8
}

/// Every byte of `s` is an ASCII decimal digit.
pub open spec fn spec_all_digits(s: Seq<u8>) -> bool {
    forall|i: int| 0 <= i < s.len() ==> spec_is_digit(#[trigger] s[i])
}

pub fn ascii_lower(c: u8) -> (r: u8)
    ensures
        r == spec_lower(c),
{
    if 'A' as u8 <= c && c <= 'Z' as u8 {
        c + 32
    } else {
        c
    }
}

pub fn is_digit(c: u8) -> (r: bool)
    ensures
        r == spec_is_digit(c),
{
    '0' as u8 <= c && c <= '9' as u8
}

/// Exact equality of two byte strings.
pub fn eq_bytes(a: &[u8], b: &[u8]) -> (r: bool)
    ensures
        r == (a@ == b@),
{
    if a.len() != b.len() {
        return false;
    }
    let n = a.len();
    let mut i: usize = 0;
    while i < n
        invariant
            n == a.len() == b.len(),
            i <= n,
            forall|j: int| 0 <= j < i ==> a@[j] == b@[j],
        decreases n - i,
    {
        if a[i] != b[i] {
            return false;
        }
        i += 1;
    }
    proof {
        assert(a@ =~= b@);
    }
    true
}

/// ASCII lower-casing of a whole byte string.
pub fn to_lower(s: &[u8]) -> (r: Vec<u8>)
    ensures
        r@ == spec_lower_seq(s@),
{
    let mut r: Vec<u8> = Vec::new();
    let n = s.len();
    let mut i: usize = 0;
    while i < n
        invariant
            n == s.len(),
            i <= n,
            r@.len() == i,
            forall|j: int| 0 <= j < i ==> r@[j] == spec_lower(s@[j]),
        decreases n - i,
    {
        r.push(ascii_lower(s[i]));
        i += 1;
    }
    proof {
        assert(r@ =~= spec_lower_seq(s@));
    }
    r
}

/// Case-insensitive equality against an already lower-case pattern.
pub fn lower_eq(s: &[u8], t: &[u8]) -> (r: bool)
    ensures
        r == (spec_lower_seq(s@) == t@),
{
    if s.len() != t.len() {
        return false;
    }
    let n = s.len();
    let mut i: usize = 0;
    while i < n
        invariant
            n == s.len() == t.len(),
            i <= n,
            forall|j: int| 0 <= j < i ==> spec_lower(s@[j]) == t@[j],
        decreases n - i,
    {
        if ascii_lower(s[i]) != t[i] {
            proof {
                assert(spec_lower_seq(s@)[i as int] != t@[i as int]);
            }
            return false;
        }
        i += 1;
    }
    proof {
        assert(spec_lower_seq(s@) =~= t@);
    }
    true
}

/// Does the lower-cased `s` end with the (already lower-case) `suffix`?
pub fn lower_ends_with(s: &[u8], suffix: &[u8]) -> (r: bool)
    ensures
        r == spec_ends_with(spec_lower_seq(s@), suffix@),
{
    if suffix.len() > s.len() {
        return false;
    }
    let off = s.len() - suffix.len();
    let n = suffix.len();
    let mut i: usize = 0;
    while i < n
        invariant
            n == suffix.len(),
            off == s.len() - n,
            i <= n,
            forall|j: int| 0 <= j < i ==> spec_lower(s@[off + j]) == suffix@[j],
        decreases n - i,
    {
        if ascii_lower(s[off + i]) != suffix[i] {
            proof {
                let l = spec_lower_seq(s@);
                assert(l.subrange(l.len() - n, l.len() as int)[i as int] == spec_lower(
                    s@[off + i],
                ));
            }
            return false;
        }
        i += 1;
    }
    proof {
        let l = spec_lower_seq(s@);
        assert(l.subrange(l.len() - n, l.len() as int) =~= suffix@);
    }
    true
}

/// Does the lower-cased `s` start with the (already lower-case) `prefix`?
pub fn lower_starts_with(s: &[u8], prefix: &[u8]) -> (r: bool)
    ensures
        r == spec_starts_with(spec_lower_seq(s@), prefix@),
{
    if prefix.len() > s.len() {
        return false;
    }
    let n = prefix.len();
    let mut i: usize = 0;
    while i < n
        invariant
            n == prefix.len() <= s.len(),
            i <= n,
            forall|j: int| 0 <= j < i ==> spec_lower(s@[j]) == prefix@[j],
        decreases n - i,
    {
        if ascii_lower(s[i]) != prefix[i] {
            proof {
                let l = spec_lower_seq(s@);
                assert(l.subrange(0, n as int)[i as int] == spec_lower(s@[i as int]));
            }
            return false;
        }
        i += 1;
    }
    proof {
        let l = spec_lower_seq(s@);
        assert(l.subrange(0, n as int) =~= prefix@);
    }
    true
}

/// Does `s` start with `prefix`, byte for byte?
pub fn starts_with(s: &[u8], prefix: &[u8]) -> (r: bool)
    ensures
        r == spec_starts_with(s@, prefix@),
{
    if prefix.len() > s.len() {
        return false;
    }
    let n = prefix.len();
    let mut i: usize = 0;
    while i < n
        invariant
            n == prefix.len() <= s.len(),
            i <= n,
            forall|j: int| 0 <= j < i ==> s@[j] == prefix@[j],
        decreases n - i,
    {
        if s[i] != prefix[i] {
            proof {
                assert(s@.subrange(0, n as int)[i as int] == s@[i as int]);
            }
            return false;
        }
        i += 1;
    }
    proof {
        assert(s@.subrange(0, n as int) =~= prefix@);
    }
    true
}

/// Is `needle` a contiguous run of `s`, starting at `i`?
pub fn match_at(s: &[u8], needle: &[u8], i: usize) -> (r: bool)
    requires
        i + needle@.len() <= s@.len(),
    ensures
        r == spec_match_at(s@, needle@, i as int),
{
    let n = needle.len();
    let mut j: usize = 0;
    while j < n
        invariant
            n == needle.len(),
            i + n <= s.len(),
            j <= n,
            forall|k: int| 0 <= k < j ==> s@[i + k] == needle@[k],
        decreases n - j,
    {
        if s[i + j] != needle[j] {
            proof {
                assert(s@.subrange(i as int, i + n)[j as int] == s@[i + j]);
            }
            return false;
        }
        j += 1;
    }
    proof {
        assert(s@.subrange(i as int, i + n) =~= needle@);
    }
    true
}

/// Substring search, byte for byte.
pub fn contains_bytes(s: &[u8], needle: &[u8]) -> (r: bool)
    ensures
        r == spec_contains(s@, needle@),
{
    if needle.len() > s.len() {
        return false;
    }
    let last = s.len() - needle.len();
    let mut i: usize = 0;
    while i < last
        invariant
            needle@.len() <= s@.len(),
            last == s@.len() - needle@.len(),
            i <= last,
            forall|k: int| 0 <= k < i ==> !spec_match_at(s@, needle@, k),
        decreases last - i,
    {
        if match_at(s, needle, i) {
            return true;
        }
        i += 1;
    }
    match_at(s, needle, last)
}

/// Substring search over the lower-cased `s`, against an already
/// lower-case `needle`.
pub fn lower_contains(s: &[u8], needle: &[u8]) -> (r: bool)
    ensures
        r == spec_contains(spec_lower_seq(s@), needle@),
{
    let l = to_lower(s);
    contains_bytes(l.as_slice(), needle)
}

/// Index of the last occurrence of `c` in `s`, if any.
pub fn find_last_byte(s: &[u8], c: u8) -> (r: Option<usize>)
    ensures
        match r {
            Some(i) => i < s@.len() && s@[i as int] == c && forall|j: int|
                i < j < s@.len() ==> s@[j] != c,
            None => forall|j: int| 0 <= j < s@.len() ==> s@[j] != c,
        },
{
    let mut i: usize = s.len();
    while i > 0
        invariant
            i <= s@.len(),
            forall|j: int| i <= j < s@.len() ==> s@[j] != c,
        decreases i,
    {
        i -= 1;
        if s[i] == c {
            return Some(i);
        }
    }
    None
}

/// Copy of a sub-range of `s` as a fresh vector.
pub fn sub_vec(s: &[u8], from: usize, to: usize) -> (r: Vec<u8>)
    requires
        from <= to <= s@.len(),
    ensures
        r@ == s@.subrange(from as int, to as int),
{
    let mut r: Vec<u8> = Vec::new();
    let mut i: usize = from;
    while i < to
        invariant
            from <= i <= to <= s@.len(),
            r@.len() == i - from,
            forall|j: int| 0 <= j < r@.len() ==> r@[j] == s@[from + j],
        decreases to - i,
    {
        r.push(s[i]);
        i += 1;
    }
    proof {
        assert(r@ =~= s@.subrange(from as int, to as int));
    }
    r
}

/// The bytes of a string literal, as a vector.
pub fn lit_vec(s: &str) -> (r: Vec<u8>)
    ensures
        r@ == s.spec_bytes(),
{
    let mut v: Vec<u8> = Vec::new();
    push_all(&mut v, s.as_bytes());
    v
}

/// A fresh copy of a byte vector.
pub fn clone_bytes(v: &Vec<u8>) -> (r: Vec<u8>)
    ensures
        r@ == v@,
{
    let r = sub_vec(v.as_slice(), 0, v.len());
    proof {
        assert(v@.subrange(0, v@.len() as int) =~= v@);
    }
    r
}

/// Append all of `t` to `r`.
pub fn push_all(r: &mut Vec<u8>, t: &[u8])
    ensures
        final(r)@ == old(r)@ + t@,
{
    let n = t.len();
    let mut i: usize = 0;
    while i < n
        invariant
            n == t@.len(),
            i <= n,
            r@ == old(r)@ + t@.subrange(0, i as int),
        decreases n - i,
    {
        proof {
            assert(old(r)@ + t@.subrange(0, i + 1) =~= (old(r)@ + t@.subrange(0, i as int)).push(
                t@[i as int],
            ));
        }
        r.push(t[i]);
        i += 1;
    }
    proof {
        assert(t@.subrange(0, n as int) =~= t@);
    }
}

} // verus!
