//! yEnc codec.
//!
//! An article body reaches the codec as lines separated by `\n` (the
//! protocol layer has already removed dot-stuffing and CR/LF framing).
//! Lines starting `=ybegin` and `=ypart` are metadata, `=yend` stops
//! decoding, carriage returns are skipped, and every payload byte is the
//! transmitted byte minus 42 modulo 256, with `=` escaping the next byte
//! (which carries an extra offset of 64). Declared CRC values are not
//! checked; recovery data is responsible for integrity.
//!
//! The encoder is the inverse of those rules: it shifts each byte by 42
//! and escapes the results that would collide with the framing (`\n`,
//! `\r`, `=`). `lemma_yenc_round_trip` proves that decoding an encoded
//! body restores the original bytes.

use vstd::prelude::*;

use crate::text::{push_all, spec_starts_with, starts_with, sub_vec};

verus! {

/// `i` is the position of the first occurrence of `c` in `s`.
pub open spec fn spec_is_first_of(s: Seq<u8>, c: u8, i: int) -> bool {
    0 <= i < s.len() && s[i] == c && forall|j: int| 0 <= j < i ==> s[j] != c
}

/// `s` split at every `\n`; one more piece than separators.
pub open spec fn spec_split_lines(s: Seq<u8>) -> Seq<Seq<u8>>
    decreases s.len(),
{
    if exists|i: int| #[trigger] spec_is_first_of(s, '\n' as u8, i) {
        let i = choose|i: int| #[trigger] spec_is_first_of(s, '\n' as u8, i);
        seq![s.take(i)] + spec_split_lines(s.skip(i + 1))
    } else {
        seq![s]
    }
}

/// An unescaped payload byte: subtract 42, modulo 256.
pub open spec fn spec_unshift_plain(b: u8) -> u8 {
    if b >= 42 {
        (b - 42) as u8
    } else {
        (b + 214) as u8
    }
}

/// An escaped payload byte: subtract 64, then 42, modulo 256.
pub open spec fn spec_unshift_escaped(b: u8) -> u8 {
    if b >= 106 {
        (b - 106) as u8
    } else {
        (b + 150) as u8
    }
}

/// Decoding of the bytes of one line.
pub open spec fn spec_decode_line(line: Seq<u8>) -> Seq<u8>
    decreases line.len(),
{
    if line.len() == 0 {
        Seq::empty()
    } else if line[0] == '=' as u8 {
        if line.len() == 1 {
            Seq::empty()
        } else {
            seq![spec_unshift_escaped(line[1])] + spec_decode_line(line.skip(2))
        }
    } else if line[0] == '\r' as u8 {
        spec_decode_line(line.skip(1))
    } else {
        seq![spec_unshift_plain(line[0])] + spec_decode_line(line.skip(1))
    }
}

pub open spec fn ybegin_marker() -> Seq<u8> {
    seq!['=' as u8, 'y' as u8, 'b' as u8, 'e' as u8, 'g' as u8, 'i' as u8, 'n' as u8]
}

pub open spec fn yend_marker() -> Seq<u8> {
    seq!['=' as u8, 'y' as u8, 'e' as u8, 'n' as u8, 'd' as u8]
}

pub open spec fn ypart_marker() -> Seq<u8> {
    seq!['=' as u8, 'y' as u8, 'p' as u8, 'a' as u8, 'r' as u8, 't' as u8]
}

/// Decoding of a sequence of lines: `=ybegin` turns payload decoding on,
/// `=yend` stops everything, `=ypart` and (outside the payload) other
/// lines are ignored.
pub open spec fn spec_decode_lines(lines: Seq<Seq<u8>>, in_data: bool) -> Seq<u8>
    decreases lines.len(),
{
    if lines.len() == 0 {
        Seq::empty()
    } else {
        let line = lines[0];
        let rest = lines.skip(1);
        if spec_starts_with(line, ybegin_marker()) {
            spec_decode_lines(rest, true)
        } else if spec_starts_with(line, yend_marker()) {
            Seq::empty()
        } else if spec_starts_with(line, ypart_marker()) {
            spec_decode_lines(rest, in_data)
        } else if in_data && line.len() > 0 {
            spec_decode_line(line) + spec_decode_lines(rest, in_data)
        } else {
            spec_decode_lines(rest, in_data)
        }
    }
}

/// What the decoder yields on a whole body.
pub open spec fn spec_decode(s: Seq<u8>) -> Seq<u8> {
    spec_decode_lines(spec_split_lines(s), false)
}

/// A payload byte on the wire: add 42, modulo 256.
pub open spec fn spec_shift(b: u8) -> u8 {
    if b <= 213 {
        (b + 42) as u8
    } else {
        (b - 214) as u8
    }
}

/// Shifted bytes that would collide with line framing or the escape.
pub open spec fn spec_needs_escape(c: u8) -> bool {
    c == '\n' as u8 || c == '\r' as u8 || c == '=' as u8
}

/// The escape offset: add 64, modulo 256.
pub open spec fn spec_escape_shift(c: u8) -> u8 {
    if c <= 191 {
        (c + 64) as u8
    } else {
        (c - 192) as u8
    }
}

/// The wire form of one byte: shifted, and escaped where needed.
pub open spec fn spec_encode_byte(b: u8) -> Seq<u8> {
    let c = spec_shift(b);
    if spec_needs_escape(c) {
        seq!['=' as u8, spec_escape_shift(c)]
    } else {
        seq![c]
    }
}

/// The wire form of a whole payload.
pub open spec fn spec_encode_payload(x: Seq<u8>) -> Seq<u8>
    decreases x.len(),
{
    if x.len() == 0 {
        Seq::empty()
    } else {
        spec_encode_byte(x[0]) + spec_encode_payload(x.skip(1))
    }
}

/// A minimal encoded body: marker line, payload line, end line.
pub open spec fn spec_encode(x: Seq<u8>) -> Seq<u8> {
    ybegin_marker() + seq!['\n' as u8] + spec_encode_payload(x) + seq!['\n' as u8]
        + yend_marker() + seq!['\n' as u8]
}

/// The views of a vector of byte vectors.
pub open spec fn seq_views(r: Seq<Vec<u8>>) -> Seq<Seq<u8>> {
    r.map_values(|v: Vec<u8>| v@)
}

fn ybegin_vec() -> (r: Vec<u8>)
    ensures
        r@ == ybegin_marker(),
{
    let mut v: Vec<u8> = Vec::new();
    v.push('=' as u8);
    v.push('y' as u8);
    v.push('b' as u8);
    v.push('e' as u8);
    v.push('g' as u8);
    v.push('i' as u8);
    v.push('n' as u8);
    proof {
        assert(v@ =~= ybegin_marker());
    }
    v
}

fn yend_vec() -> (r: Vec<u8>)
    ensures
        r@ == yend_marker(),
{
    let mut v: Vec<u8> = Vec::new();
    v.push('=' as u8);
    v.push('y' as u8);
    v.push('e' as u8);
    v.push('n' as u8);
    v.push('d' as u8);
    proof {
        assert(v@ =~= yend_marker());
    }
    v
}

fn ypart_vec() -> (r: Vec<u8>)
    ensures
        r@ == ypart_marker(),
{
    let mut v: Vec<u8> = Vec::new();
    v.push('=' as u8);
    v.push('y' as u8);
    v.push('p' as u8);
    v.push('a' as u8);
    v.push('r' as u8);
    v.push('t' as u8);
    proof {
        assert(v@ =~= ypart_marker());
    }
    v
}

/// Split a body into its `\n`-separated lines.
pub fn split_lines(s: &[u8]) -> (r: Vec<Vec<u8>>)
    ensures
        seq_views(r@) == spec_split_lines(s@),
{
    let n = s.len();
    let mut r: Vec<Vec<u8>> = Vec::new();
    let mut pos: usize = 0;
    proof {
        assert(s@.skip(0) =~= s@);
        assert(seq_views(r@) + spec_split_lines(s@) =~= spec_split_lines(s@));
    }
    loop
        invariant
            pos <= n,
            n == s@.len(),
            spec_split_lines(s@) == seq_views(r@) + spec_split_lines(s@.skip(pos as int)),
        decreases n - pos,
    {
        let mut j: usize = pos;
        while j < n && s[j] != '\n' as u8
            invariant
                pos <= j <= n,
                n == s@.len(),
                forall|k: int| pos <= k < j ==> s@[k] != '\n' as u8,
            decreases n - j,
        {
            j += 1;
        }
        let ghost u = s@.skip(pos as int);
        if j == n {
            let line = sub_vec(s, pos, n);
            proof {
                assert(forall|i: int| !#[trigger] spec_is_first_of(u, '\n' as u8, i));
                assert(spec_split_lines(u) == seq![u]);
                assert(line@ =~= u);
                assert(seq_views(r@.push(line)) =~= seq_views(r@) + seq![u]);
                assert(seq_views(r@) + seq![u] + Seq::<Seq<u8>>::empty() =~= seq_views(r@)
                    + seq![u]);
            }
            r.push(line);
            proof {
                assert(spec_split_lines(s@) =~= seq_views(r@));
            }
            return r;
        }
        let line = sub_vec(s, pos, j);
        proof {
            let f = j - pos;
            assert(u[f] == s@[j as int]);
            assert(forall|k: int| 0 <= k < f ==> u[k] == s@[pos + k]);
            assert(spec_is_first_of(u, '\n' as u8, f));
            let w = choose|w: int| #[trigger] spec_is_first_of(u, '\n' as u8, w);
            assert(w == f);
            assert(u.take(f) =~= line@);
            assert(u.skip(f + 1) =~= s@.skip(j + 1));
            assert(spec_split_lines(u) == seq![line@] + spec_split_lines(s@.skip(j + 1)));
            assert(seq_views(r@.push(line)) =~= seq_views(r@) + seq![line@]);
            assert(seq_views(r@) + (seq![line@] + spec_split_lines(s@.skip(j + 1))) =~= (seq_views(
                r@,
            ) + seq![line@]) + spec_split_lines(s@.skip(j + 1)));
        }
        r.push(line);
        pos = j + 1;
    }
}

fn unshift_plain(b: u8) -> (r: u8)
    ensures
        r == spec_unshift_plain(b),
{
    if b >= 42 {
        b - 42
    } else {
        b + 214
    }
}

fn unshift_escaped(b: u8) -> (r: u8)
    ensures
        r == spec_unshift_escaped(b),
{
    if b >= 106 {
        b - 106
    } else {
        b + 150
    }
}

/// Decode the payload bytes of one line.
fn decode_line(line: &[u8]) -> (r: Vec<u8>)
    ensures
        r@ == spec_decode_line(line@),
{
    let n = line.len();
    let mut out: Vec<u8> = Vec::new();
    let mut j: usize = 0;
    proof {
        assert(line@.skip(0) =~= line@);
        assert(out@ + spec_decode_line(line@) =~= spec_decode_line(line@));
    }
    while j < n
        invariant
            j <= n,
            n == line@.len(),
            spec_decode_line(line@) == out@ + spec_decode_line(line@.skip(j as int)),
        decreases n - j,
    {
        let ghost u = line@.skip(j as int);
        let b = line[j];
        proof {
            assert(u[0] == line@[j as int]);
        }
        if b == '=' as u8 {
            if j + 1 < n {
                proof {
                    assert(u[1] == line@[j + 1]);
                    assert(u.skip(2) =~= line@.skip(j + 2));
                    assert(out@ + (seq![spec_unshift_escaped(line@[j + 1])] + spec_decode_line(
                        line@.skip(j + 2),
                    )) =~= out@.push(spec_unshift_escaped(line@[j + 1])) + spec_decode_line(
                        line@.skip(j + 2),
                    ));
                }
                out.push(unshift_escaped(line[j + 1]));
                j += 2;
            } else {
                proof {
                    assert(u.len() == 1);
                    assert(line@.skip(j + 1) =~= Seq::<u8>::empty());
                    assert(out@ + Seq::<u8>::empty() =~= out@);
                }
                j += 1;
            }
        } else if b == '\r' as u8 {
            proof {
                assert(u.skip(1) =~= line@.skip(j + 1));
            }
            j += 1;
        } else {
            proof {
                assert(u.skip(1) =~= line@.skip(j + 1));
                assert(out@ + (seq![spec_unshift_plain(line@[j as int])] + spec_decode_line(
                    line@.skip(j + 1),
                )) =~= out@.push(spec_unshift_plain(line@[j as int])) + spec_decode_line(
                    line@.skip(j + 1),
                ));
            }
            out.push(unshift_plain(b));
            j += 1;
        }
    }
    proof {
        assert(line@.skip(n as int) =~= Seq::<u8>::empty());
        assert(out@ + Seq::<u8>::empty() =~= out@);
    }
    out
}

/// Decode a whole article body.
pub fn decode_yenc(data: &[u8]) -> (r: Vec<u8>)
    ensures
        r@ == spec_decode(data@),
{
    let lines = split_lines(data);
    let ghost all = spec_split_lines(data@);
    let ybegin = ybegin_vec();
    let yend = yend_vec();
    let ypart = ypart_vec();
    let mut out: Vec<u8> = Vec::new();
    let mut in_data: bool = false;
    let n = lines.len();
    let mut k: usize = 0;
    proof {
        assert(all.skip(0) =~= all);
        assert(out@ + spec_decode_lines(all, false) =~= spec_decode_lines(all, false));
    }
    while k < n
        invariant
            k <= n,
            n == lines@.len(),
            seq_views(lines@) == all,
            all == spec_split_lines(data@),
            ybegin@ == ybegin_marker(),
            yend@ == yend_marker(),
            ypart@ == ypart_marker(),
            spec_decode_lines(all, false) == out@ + spec_decode_lines(
                all.skip(k as int),
                in_data,
            ),
        decreases n - k,
    {
        let line: &Vec<u8> = &lines[k];
        let ghost u = all.skip(k as int);
        proof {
            assert(u[0] == all[k as int]);
            assert(all[k as int] == lines@[k as int]@);
            assert(u.skip(1) =~= all.skip(k + 1));
        }
        if starts_with(line.as_slice(), ybegin.as_slice()) {
            in_data = true;
        } else if starts_with(line.as_slice(), yend.as_slice()) {
            proof {
                assert(spec_decode_lines(u, in_data) =~= Seq::<u8>::empty());
                assert(out@ + Seq::<u8>::empty() =~= out@);
            }
            return out;
        } else if starts_with(line.as_slice(), ypart.as_slice()) {
        } else if in_data && line.len() > 0 {
            let d = decode_line(line.as_slice());
            proof {
                assert(out@ + (spec_decode_line(line@) + spec_decode_lines(
                    all.skip(k + 1),
                    in_data,
                )) =~= (out@ + spec_decode_line(line@)) + spec_decode_lines(
                    all.skip(k + 1),
                    in_data,
                ));
            }
            push_all(&mut out, d.as_slice());
        }
        k += 1;
    }
    proof {
        assert(all.skip(n as int) =~= Seq::<Seq<u8>>::empty());
        assert(out@ + Seq::<u8>::empty() =~= out@);
    }
    out
}

fn shift(b: u8) -> (r: u8)
    ensures
        r == spec_shift(b),
{
    if b <= 213 {
        b + 42
    } else {
        b - 214
    }
}

fn escape_shift(c: u8) -> (r: u8)
    ensures
        r == spec_escape_shift(c),
{
    if c <= 191 {
        c + 64
    } else {
        c - 192
    }
}

/// Appending one byte to a payload appends its wire form.
proof fn lemma_encode_payload_snoc(x: Seq<u8>, b: u8)
    ensures
        spec_encode_payload(x.push(b)) == spec_encode_payload(x) + spec_encode_byte(b),
    decreases x.len(),
{
    if x.len() == 0 {
        assert(x.push(b)[0] == b);
        assert(x.push(b).skip(1) =~= Seq::<u8>::empty());
        assert(spec_encode_payload(x.push(b)) == spec_encode_byte(b) + spec_encode_payload(
            x.push(b).skip(1),
        ));
        assert(spec_encode_byte(b) + Seq::<u8>::empty() =~= spec_encode_byte(b));
        assert(spec_encode_payload(x) + spec_encode_byte(b) =~= spec_encode_byte(b));
    } else {
        assert(x.push(b).skip(1) =~= x.skip(1).push(b));
        lemma_encode_payload_snoc(x.skip(1), b);
        assert(spec_encode_byte(x[0]) + (spec_encode_payload(x.skip(1)) + spec_encode_byte(b))
            =~= (spec_encode_byte(x[0]) + spec_encode_payload(x.skip(1))) + spec_encode_byte(b));
    }
}

/// Encode a payload as one yEnc body: `=ybegin` line, one payload line,
/// `=yend` line.
pub fn encode_yenc(data: &[u8]) -> (r: Vec<u8>)
    ensures
        r@ == spec_encode(data@),
{
    let n = data.len();
    let mut payload: Vec<u8> = Vec::new();
    let mut i: usize = 0;
    while i < n
        invariant
            i <= n,
            n == data@.len(),
            payload@ == spec_encode_payload(data@.take(i as int)),
        decreases n - i,
    {
        let c = shift(data[i]);
        proof {
            lemma_encode_payload_snoc(data@.take(i as int), data@[i as int]);
            assert(data@.take(i as int).push(data@[i as int]) =~= data@.take(i + 1));
        }
        if c == '\n' as u8 || c == '\r' as u8 || c == '=' as u8 {
            payload.push('=' as u8);
            payload.push(escape_shift(c));
            proof {
                assert(payload@ =~= spec_encode_payload(data@.take(i + 1)));
            }
        } else {
            payload.push(c);
            proof {
                assert(payload@ =~= spec_encode_payload(data@.take(i + 1)));
            }
        }
        i += 1;
    }
    proof {
        assert(data@.take(n as int) =~= data@);
    }
    let mut out = ybegin_vec();
    out.push('\n' as u8);
    push_all(&mut out, payload.as_slice());
    out.push('\n' as u8);
    let yend = yend_vec();
    push_all(&mut out, yend.as_slice());
    out.push('\n' as u8);
    proof {
        assert(out@ =~= spec_encode(data@));
    }
    out
}

/// No wire byte of a payload is a newline.
proof fn lemma_payload_no_newline(x: Seq<u8>)
    ensures
        forall|i: int| 0 <= i < spec_encode_payload(x).len() ==> spec_encode_payload(x)[i]
            != '\n' as u8,
    decreases x.len(),
{
    if x.len() > 0 {
        lemma_payload_no_newline(x.skip(1));
        let eb = spec_encode_byte(x[0]);
        let rest = spec_encode_payload(x.skip(1));
        assert forall|i: int| 0 <= i < spec_encode_payload(x).len() implies spec_encode_payload(
            x,
        )[i] != '\n' as u8 by {
            if i < eb.len() {
                assert(spec_encode_payload(x)[i] == eb[i]);
            } else {
                assert(spec_encode_payload(x)[i] == rest[i - eb.len()]);
            }
        }
    }
}

/// A payload line is never mistaken for a marker line.
proof fn lemma_payload_not_marker(x: Seq<u8>)
    requires
        x.len() > 0,
    ensures
        !spec_starts_with(spec_encode_payload(x), ybegin_marker()),
        !spec_starts_with(spec_encode_payload(x), yend_marker()),
        !spec_starts_with(spec_encode_payload(x), ypart_marker()),
{
    let p = spec_encode_payload(x);
    let eb = spec_encode_byte(x[0]);
    assert(p == eb + spec_encode_payload(x.skip(1)));
    if spec_needs_escape(spec_shift(x[0])) {
        assert(p[0] == '=' as u8 && p[1] == spec_escape_shift(spec_shift(x[0])));
        assert(p[1] != 'y' as u8);
        assert forall|m: Seq<u8>|
            m.len() >= 2 && m[1] == 'y' as u8 implies !spec_starts_with(p, m) by {
            if spec_starts_with(p, m) {
                assert(p.subrange(0, m.len() as int)[1] == p[1]);
            }
        }
    } else {
        assert(p[0] == spec_shift(x[0]) && p[0] != '=' as u8);
        assert forall|m: Seq<u8>|
            m.len() >= 1 && m[0] == '=' as u8 implies !spec_starts_with(p, m) by {
            if spec_starts_with(p, m) {
                assert(p.subrange(0, m.len() as int)[0] == p[0]);
            }
        }
    }
}

/// Splitting a body whose first line has no newline peels that line off.
proof fn lemma_split_first(a: Seq<u8>, rest: Seq<u8>)
    requires
        forall|i: int| 0 <= i < a.len() ==> a[i] != '\n' as u8,
    ensures
        spec_split_lines(a + seq!['\n' as u8] + rest) == seq![a] + spec_split_lines(rest),
{
    let s = a + seq!['\n' as u8] + rest;
    assert(s[a.len() as int] == '\n' as u8);
    assert(forall|j: int| 0 <= j < a.len() ==> s[j] == a[j]);
    assert(spec_is_first_of(s, '\n' as u8, a.len() as int));
    let w = choose|w: int| #[trigger] spec_is_first_of(s, '\n' as u8, w);
    assert(w == a.len());
    assert(s.take(w) =~= a);
    assert(s.skip(w + 1) =~= rest);
}

/// Decoding one encoded line restores the payload.
proof fn lemma_decode_encoded_line(x: Seq<u8>)
    ensures
        spec_decode_line(spec_encode_payload(x)) == x,
    decreases x.len(),
{
    let p = spec_encode_payload(x);
    if x.len() == 0 {
        assert(p =~= Seq::<u8>::empty());
        assert(spec_decode_line(p) =~= x);
    } else {
        lemma_decode_encoded_line(x.skip(1));
        let b = x[0];
        let c = spec_shift(b);
        let eb = spec_encode_byte(b);
        let rest = spec_encode_payload(x.skip(1));
        assert(p == eb + rest);
        if spec_needs_escape(c) {
            assert(p[0] == '=' as u8);
            assert(p[1] == spec_escape_shift(c));
            assert(spec_unshift_escaped(spec_escape_shift(c)) == b);
            assert(p.skip(2) =~= rest);
            assert(seq![b] + x.skip(1) =~= x);
        } else {
            assert(p[0] == c);
            assert(c != '=' as u8 && c != '\r' as u8);
            assert(spec_unshift_plain(c) == b);
            assert(p.skip(1) =~= rest);
            assert(seq![b] + x.skip(1) =~= x);
        }
    }
}

/// Round trip: decoding an encoded body restores the original bytes.
pub proof fn lemma_yenc_round_trip(x: Seq<u8>)
    ensures
        spec_decode(spec_encode(x)) == x,
{
    let nl = seq!['\n' as u8];
    let p = spec_encode_payload(x);
    lemma_payload_no_newline(x);
    let tail2 = yend_marker() + nl;
    let tail1 = p + nl + tail2;
    assert(spec_encode(x) =~= ybegin_marker() + nl + tail1);
    lemma_split_first(ybegin_marker(), tail1);
    assert(p + nl + tail2 =~= p + nl + tail2);
    lemma_split_first(p, tail2);
    assert(yend_marker() + nl =~= yend_marker() + nl + Seq::<u8>::empty());
    lemma_split_first(yend_marker(), Seq::<u8>::empty());
    assert(forall|i: int| !#[trigger] spec_is_first_of(Seq::<u8>::empty(), '\n' as u8, i));
    assert(spec_split_lines(Seq::<u8>::empty()) == seq![Seq::<u8>::empty()]);
    let lines = spec_split_lines(spec_encode(x));
    assert(lines =~= seq![ybegin_marker(), p, yend_marker(), Seq::<u8>::empty()]);

    // Walk the four lines through the decoder.
    assert(spec_starts_with(ybegin_marker(), ybegin_marker())) by {
        assert(ybegin_marker().subrange(0, 7) =~= ybegin_marker());
    }
    let l1 = lines.skip(1);
    let l2 = lines.skip(2);
    let l3 = lines.skip(3);
    assert(l1 =~= seq![p, yend_marker(), Seq::<u8>::empty()]);
    assert(l2 =~= seq![yend_marker(), Seq::<u8>::empty()]);
    assert(l1.skip(1) =~= l2);
    assert(spec_decode_lines(lines, false) == spec_decode_lines(l1, true));
    assert(spec_starts_with(yend_marker(), yend_marker())) by {
        assert(yend_marker().subrange(0, 5) =~= yend_marker());
    }
    assert(spec_decode_lines(l2, true) == Seq::<u8>::empty());
    if x.len() == 0 {
        assert(p =~= Seq::<u8>::empty());
        assert(spec_decode_lines(l1, true) == spec_decode_lines(l2, true));
        assert(spec_decode(spec_encode(x)) =~= x);
    } else {
        lemma_payload_not_marker(x);
        assert(p.len() > 0);
        lemma_decode_encoded_line(x);
        assert(spec_decode_lines(l1, true) == spec_decode_line(p) + spec_decode_lines(l2, true));
        assert(x + Seq::<u8>::empty() =~= x);
    }
}

} // verus!
