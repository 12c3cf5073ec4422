//! Filename deobfuscation.
//!
//! Downloads often arrive under meaningless names. Two passes repair
//! them: missing extensions are added from sniffed magic bytes, and the
//! principal (largest) file, when its name looks obfuscated and it
//! dwarfs the runner-up, is renamed to a useful hint — the download
//! directory's name — sanitized to be filesystem-safe. The character
//! classes of the heuristic are ASCII.

use vstd::prelude::*;

use crate::patterns::{spec_extension, spec_file_name};
use crate::text::{
    eq_bytes, lower_contains, lower_starts_with, push_all, spec_contains, spec_is_digit,
    spec_lower, spec_lower_seq, spec_starts_with, sub_vec,
};
use vstd::string::StringSliceAdditionalSpecFns;

verus! {

/// A directory entry as the deobfuscator sees it: a name and a size.
pub struct FileMeta {
    pub name: Vec<u8>,
    pub size: u64,
}

/// What a deobfuscation run did.
pub struct DeobfuscateResult {
    pub files_renamed: usize,
    pub extensions_fixed: usize,
}

// --- name parts ----------------------------------------------------------

/// The name without its extension (the dot stays with the extension).
pub open spec fn spec_basename(p: Seq<u8>) -> Seq<u8> {
    match spec_extension(p) {
        Some(e) => p.take(p.len() - e.len() - 1),
        None => p,
    }
}

/// The stem of the final path component: what the obfuscation heuristic
/// inspects.
pub open spec fn spec_stem(p: Seq<u8>) -> Seq<u8> {
    spec_basename(spec_file_name(p))
}

/// The extension with its dot, or nothing.
pub open spec fn spec_dotted_ext(p: Seq<u8>) -> Seq<u8> {
    match spec_extension(p) {
        Some(e) => seq!['.' as u8] + e,
        None => Seq::empty(),
    }
}

/// The extension including the leading dot, empty when there is none.
pub fn get_ext(p: &[u8]) -> (r: Vec<u8>)
    ensures
        r@ == spec_dotted_ext(p@),
{
    match crate::patterns::extension(p) {
        Some(e) => {
            let mut out: Vec<u8> = Vec::new();
            out.push('.' as u8);
            push_all(&mut out, e.as_slice());
            proof {
                assert(out@ =~= seq!['.' as u8] + e@);
            }
            out
        },
        None => Vec::new(),
    }
}

/// The path without its extension.
pub fn get_basename(p: &[u8]) -> (r: Vec<u8>)
    ensures
        r@ == spec_basename(p@),
{
    match crate::patterns::extension(p) {
        Some(e) => {
            let cut = p.len() - e.len() - 1;
            proof {
                let n = spec_file_name(p@);
                assert(e@.len() < n.len() && n.len() <= p@.len());
                assert(p@.take(p@.len() - e@.len() - 1) =~= p@.subrange(
                    0,
                    p@.len() - e@.len() - 1,
                ));
            }
            sub_vec(p, 0, cut)
        },
        None => {
            let r = sub_vec(p, 0, p.len());
            proof {
                assert(r@ =~= p@);
            }
            r
        },
    }
}

/// The name with its extension replaced (or added): basename plus the
/// dotted extension.
pub fn apply_extension(name: &[u8], dotted_ext: &[u8]) -> (r: Vec<u8>)
    ensures
        r@ == spec_basename(name@) + dotted_ext@,
{
    let mut out = get_basename(name);
    push_all(&mut out, dotted_ext);
    out
}

// --- the obfuscation heuristic -------------------------------------------

pub open spec fn spec_is_alpha(c: u8) -> bool {
    ('a' as u8 <= spec_lower(c) && spec_lower(c) <= 'z' as u8)
}

pub open spec fn spec_is_alnum(c: u8) -> bool {
    spec_is_alpha(c) || spec_is_digit(c)
}

/// Characters the heuristic counts as noise.
pub open spec fn spec_is_special(c: u8) -> bool {
    !spec_is_alnum(c) && c != ' ' as u8 && c != '-' as u8 && c != '_' as u8
}

pub open spec fn spec_is_hex(c: u8) -> bool {
    spec_is_digit(c) || ('a' as u8 <= spec_lower(c) && spec_lower(c) <= 'f' as u8)
}

pub open spec fn spec_is_vowel(c: u8) -> bool {
    spec_lower(c) == 'a' as u8 || spec_lower(c) == 'e' as u8 || spec_lower(c) == 'i' as u8
        || spec_lower(c) == 'o' as u8 || spec_lower(c) == 'u' as u8
}

/// How many bytes of `s` satisfy `p`.
pub open spec fn spec_count_if(s: Seq<u8>, p: spec_fn(u8) -> bool) -> int
    decreases s.len(),
{
    if s.len() == 0 {
        0
    } else {
        spec_count_if(s.drop_last(), p) + if p(s.last()) {
            1int
        } else {
            0int
        }
    }
}

/// Does a bare name look machine-generated? The rules of thumb: very
/// short; mostly noise characters; mostly digits with almost no
/// letters; hex-like; known generator markers; or consonant soup.
pub open spec fn spec_is_obfuscated_stem(s: Seq<u8>) -> bool {
    let n = s.len() as int;
    let specials = spec_count_if(s, |c: u8| spec_is_special(c));
    let digits = spec_count_if(s, |c: u8| spec_is_digit(c));
    let alpha = spec_count_if(s, |c: u8| spec_is_alpha(c));
    let hex = spec_count_if(s, |c: u8| spec_is_hex(c));
    let vowels = spec_count_if(s, |c: u8| spec_is_vowel(c));
    let l = spec_lower_seq(s);
    ||| n < 5
    ||| specials > n / 2
    ||| (digits > n / 2 && alpha < 3)
    ||| (hex > (n * 3) / 4 && n > 8)
    ||| spec_starts_with(l, "f7f8f9".spec_bytes())
    ||| spec_contains(l, "yenc".spec_bytes())
    ||| digits > 10
    ||| (alpha > 8 && vowels < alpha / 4)
}

/// Does this filename look obfuscated? The heuristic inspects the stem,
/// with the extension removed.
pub fn is_probably_obfuscated(filename: &[u8]) -> (r: bool)
    ensures
        r == spec_is_obfuscated_stem(spec_stem(filename@)),
{
    let name = crate::patterns::file_name(filename);
    let stem = get_basename(name.as_slice());
    proof {
        assert(spec_file_name(spec_file_name(filename@)) == spec_file_name(filename@)) by {
            let n = spec_file_name(filename@);
            if exists|i: int| #[trigger] crate::patterns::spec_is_last_of(n, '/' as u8, i) {
                let i = choose|i: int| #[trigger] crate::patterns::spec_is_last_of(
                    n,
                    '/' as u8,
                    i,
                );
                assert(crate::patterns::spec_is_last_of(filename@, '/' as u8, i));
            }
        }
    }
    let s = stem.as_slice();
    let n = s.len();
    if n < 5 {
        return true;
    }
    let mut specials: usize = 0;
    let mut digits: usize = 0;
    let mut alpha: usize = 0;
    let mut hex: usize = 0;
    let mut vowels: usize = 0;
    let mut i: usize = 0;
    while i < n
        invariant
            i <= n,
            n == s@.len(),
            specials == spec_count_if(s@.take(i as int), |c: u8| spec_is_special(c)),
            digits == spec_count_if(s@.take(i as int), |c: u8| spec_is_digit(c)),
            alpha == spec_count_if(s@.take(i as int), |c: u8| spec_is_alpha(c)),
            hex == spec_count_if(s@.take(i as int), |c: u8| spec_is_hex(c)),
            vowels == spec_count_if(s@.take(i as int), |c: u8| spec_is_vowel(c)),
            specials <= i && digits <= i && alpha <= i && hex <= i && vowels <= i,
        decreases n - i,
    {
        let c = s[i];
        proof {
            assert(s@.take(i + 1).drop_last() =~= s@.take(i as int));
            assert(s@.take(i + 1).last() == s@[i as int]);
        }
        let lc = crate::text::ascii_lower(c);
        let is_d = crate::text::is_digit(c);
        let is_a = 'a' as u8 <= lc && lc <= 'z' as u8;
        if !(is_a || is_d) && c != ' ' as u8 && c != '-' as u8 && c != '_' as u8 {
            specials += 1;
        }
        if is_d {
            digits += 1;
        }
        if is_a {
            alpha += 1;
        }
        if is_d || ('a' as u8 <= lc && lc <= 'f' as u8) {
            hex += 1;
        }
        if lc == 'a' as u8 || lc == 'e' as u8 || lc == 'i' as u8 || lc == 'o' as u8 || lc
            == 'u' as u8 {
            vowels += 1;
        }
        i += 1;
    }
    proof {
        assert(s@.take(n as int) =~= s@);
    }
    if specials > n / 2 {
        return true;
    }
    if digits > n / 2 && alpha < 3 {
        return true;
    }
    if (hex as u128) * 4 > (n as u128) * 3 && n > 8 {
        proof {
            assert(hex > (n as int * 3) / 4);
        }
        return true;
    }
    if lower_starts_with(s, "f7f8f9".as_bytes()) {
        return true;
    }
    if lower_contains(s, "yenc".as_bytes()) {
        return true;
    }
    if digits > 10 {
        return true;
    }
    if alpha > 8 && vowels < alpha / 4 {
        return true;
    }
    proof {
        assert(!(hex > (n as int * 3) / 4 && n as int > 8));
    }
    false
}

// --- sanitization ---------------------------------------------------------

/// Bytes never allowed in a name written to disk: path separators,
/// wildcard and quoting characters, and control codes.
pub open spec fn spec_is_forbidden(c: u8) -> bool {
    ||| c == '/' as u8
    ||| c == '\\' as u8
    ||| c == ':' as u8
    ||| c == '*' as u8
    ||| c == '?' as u8
    ||| c == '"' as u8
    ||| c == '<' as u8
    ||| c == '>' as u8
    ||| c == '|' as u8
    ||| c < 32
    ||| c == 127
}

/// One byte of a sanitized name: forbidden bytes become `_`.
pub open spec fn spec_sanitize_byte(c: u8) -> u8 {
    if spec_is_forbidden(c) {
        '_' as u8
    } else {
        c
    }
}

/// Make a hint filesystem-safe: every forbidden byte becomes `_`; all
/// others pass through unchanged. The result never contains a
/// forbidden byte.
pub fn sanitize_name(name: &[u8]) -> (r: Vec<u8>)
    ensures
        r@.len() == name@.len(),
        forall|i: int| 0 <= i < name@.len() ==> r@[i] == spec_sanitize_byte(#[trigger] name@[i]),
        forall|i: int| 0 <= i < r@.len() ==> !spec_is_forbidden(#[trigger] r@[i]),
{
    let n = name.len();
    let mut r: Vec<u8> = Vec::new();
    let mut i: usize = 0;
    while i < n
        invariant
            i <= n,
            n == name@.len(),
            r@.len() == i,
            forall|j: int| 0 <= j < i ==> r@[j] == spec_sanitize_byte(#[trigger] name@[j]),
            forall|j: int| 0 <= j < i ==> !spec_is_forbidden(#[trigger] r@[j]),
        decreases n - i,
    {
        let c = name[i];
        if c == '/' as u8 || c == '\\' as u8 || c == ':' as u8 || c == '*' as u8 || c == '?' as u8
            || c == '"' as u8 || c == '<' as u8 || c == '>' as u8 || c == '|' as u8 || c < 32 || c
            == 127 {
            r.push('_' as u8);
        } else {
            r.push(c);
        }
        i += 1;
    }
    r
}

// --- choosing the principal file ------------------------------------------

/// The largest file: its index and size. On equal sizes the last wins.
pub fn get_biggest_file(files: &Vec<FileMeta>) -> (r: Option<(usize, u64)>)
    ensures
        match r {
            Some((i, sz)) => i < files@.len() && sz == files@[i as int].size && (forall|j: int|
                0 <= j < files@.len() ==> (#[trigger] files@[j].size) <= sz) && (forall|j: int|
                i < j < files@.len() ==> (#[trigger] files@[j].size) < sz),
            None => files@.len() == 0,
        },
{
    let n = files.len();
    if n == 0 {
        return None;
    }
    let mut best: usize = 0;
    let mut k: usize = 1;
    while k < n
        invariant
            best < k <= n,
            n == files@.len(),
            forall|j: int| 0 <= j < k ==> (#[trigger] files@[j].size) <= files@[best as int].size,
            forall|j: int| best < j < k ==> (#[trigger] files@[j].size) < files@[
                best as int
            ].size,
        decreases n - k,
    {
        if files[k].size >= files[best].size {
            best = k;
        }
        k += 1;
    }
    Some((best, files[best].size))
}

/// The size of the largest file other than the one at `skip`.
pub fn second_biggest_size(files: &Vec<FileMeta>, skip: usize) -> (r: u64)
    ensures
        forall|j: int| 0 <= j < files@.len() && j != skip ==> (#[trigger] files@[j].size) <= r,
        r > 0 ==> exists|j: int| 0 <= j < files@.len() && j != skip && (#[trigger] files@[j].size)
            == r,
{
    let n = files.len();
    let mut best: u64 = 0;
    let mut k: usize = 0;
    while k < n
        invariant
            k <= n,
            n == files@.len(),
            forall|j: int| 0 <= j < k && j != skip ==> (#[trigger] files@[j].size) <= best,
            best > 0 ==> exists|j: int|
                0 <= j < k && j != skip && (#[trigger] files@[j].size) == best,
        decreases n - k,
    {
        if k != skip && files[k].size > best {
            best = files[k].size;
        }
        k += 1;
    }
    best
}

// --- unique names ----------------------------------------------------------

/// Is `name` among the existing names?
pub open spec fn spec_name_taken(existing: Seq<Vec<u8>>, name: Seq<u8>) -> bool {
    exists|k: int| 0 <= k < existing.len() && (#[trigger] existing[k])@ == name
}

fn name_taken(existing: &Vec<Vec<u8>>, name: &[u8]) -> (r: bool)
    ensures
        r == spec_name_taken(existing@, name@),
{
    let n = existing.len();
    let mut k: usize = 0;
    while k < n
        invariant
            k <= n,
            n == existing@.len(),
            forall|j: int| 0 <= j < k ==> (#[trigger] existing@[j])@ != name@,
        decreases n - k,
    {
        if eq_bytes(existing[k].as_slice(), name) {
            return true;
        }
        k += 1;
    }
    false
}

/// The decimal digits of a counter below 1000.
pub open spec fn spec_decimal(i: int) -> Seq<u8> {
    if i < 10 {
        seq![('0' as u8 + i) as u8]
    } else if i < 100 {
        seq![('0' as u8 + i / 10) as u8, ('0' as u8 + i % 10) as u8]
    } else {
        seq![('0' as u8 + i / 100) as u8, ('0' as u8 + (i / 10) % 10) as u8, ('0' as u8 + i
            % 10) as u8]
    }
}

fn decimal(i: u16) -> (r: Vec<u8>)
    requires
        i < 1000,
    ensures
        r@ == spec_decimal(i as int),
{
    let mut v: Vec<u8> = Vec::new();
    if i < 10 {
        v.push('0' as u8 + (i as u8));
        proof {
            assert(v@ =~= spec_decimal(i as int));
        }
    } else if i < 100 {
        v.push('0' as u8 + ((i / 10) as u8));
        v.push('0' as u8 + ((i % 10) as u8));
        proof {
            assert(v@ =~= spec_decimal(i as int));
        }
    } else {
        v.push('0' as u8 + ((i / 100) as u8));
        v.push('0' as u8 + (((i / 10) % 10) as u8));
        v.push('0' as u8 + ((i % 10) as u8));
        proof {
            assert(v@ =~= spec_decimal(i as int));
        }
    }
    v
}

/// The `i`-th fallback candidate for a taken name: `stem_i`, with the
/// extension back in place when there is one.
pub open spec fn spec_candidate(name: Seq<u8>, i: int) -> Seq<u8> {
    let stem = spec_basename(name);
    let ext = match spec_extension(name) {
        Some(e) => seq!['.' as u8] + e,
        None => Seq::<u8>::empty(),
    };
    stem + seq!['_' as u8] + spec_decimal(i) + ext
}

fn candidate(name: &[u8], i: u16) -> (r: Vec<u8>)
    requires
        i < 1000,
    ensures
        r@ == spec_candidate(name@, i as int),
{
    let mut out = get_basename(name);
    out.push('_' as u8);
    let d = decimal(i);
    push_all(&mut out, d.as_slice());
    let ext = get_ext(name);
    push_all(&mut out, ext.as_slice());
    proof {
        assert(out@ =~= spec_candidate(name@, i as int));
    }
    out
}

/// A name not yet present among `existing`: the name itself when free,
/// else the first of `name_1`, `name_2`, ... `name_999`; the original
/// name when all of those are taken too.
pub fn get_unique_filename(name: &[u8], existing: &Vec<Vec<u8>>) -> (r: Vec<u8>)
    ensures
        !spec_name_taken(existing@, name@) ==> r@ == name@,
        spec_name_taken(existing@, name@) ==> ((exists|i: int|
            1 <= i < 1000 && !spec_name_taken(existing@, #[trigger] spec_candidate(name@, i))
                && r@ == spec_candidate(name@, i) && (forall|j: int|
                1 <= j < i ==> spec_name_taken(existing@, #[trigger] spec_candidate(name@, j))))
            || (r@ == name@ && forall|i: int|
            1 <= i < 1000 ==> spec_name_taken(existing@, #[trigger] spec_candidate(name@, i)))),
{
    if !name_taken(existing, name) {
        return sub_vec_all(name);
    }
    let mut i: u16 = 1;
    while i < 1000
        invariant
            1 <= i <= 1000,
            spec_name_taken(existing@, name@),
            forall|j: int| 1 <= j < i ==> spec_name_taken(
                existing@,
                #[trigger] spec_candidate(name@, j),
            ),
        decreases 1000 - i,
    {
        let c = candidate(name, i);
        if !name_taken(existing, c.as_slice()) {
            return c;
        }
        i += 1;
    }
    sub_vec_all(name)
}

fn sub_vec_all(name: &[u8]) -> (r: Vec<u8>)
    ensures
        r@ == name@,
{
    let r = sub_vec(name, 0, name.len());
    proof {
        assert(name@.subrange(0, name@.len() as int) =~= name@);
    }
    r
}

// --- the principal-rename decision -----------------------------------------

/// Extensions never renamed in pass two (compared with case kept, as
/// the files carry them).
pub open spec fn spec_is_excluded_ext(e: Seq<u8>) -> bool {
    ||| e == ".par2".spec_bytes()
    ||| e == ".sfv".spec_bytes()
    ||| e == ".nfo".spec_bytes()
    ||| e == ".txt".spec_bytes()
    ||| e == ".srr".spec_bytes()
}

fn is_excluded_ext(e: &[u8]) -> (r: bool)
    ensures
        r == spec_is_excluded_ext(e@),
{
    eq_bytes(e, ".par2".as_bytes()) || eq_bytes(e, ".sfv".as_bytes()) || eq_bytes(
        e,
        ".nfo".as_bytes(),
    ) || eq_bytes(e, ".txt".as_bytes()) || eq_bytes(e, ".srr".as_bytes())
}

/// The plan for renaming the principal file.
pub struct RenamePlan {
    /// Which file to rename.
    pub index: usize,
    /// Its new name: the sanitized hint with the old extension.
    pub new_name: Vec<u8>,
}

/// `i` names the principal file: the largest, the last one on ties.
pub open spec fn spec_is_principal(files: Seq<FileMeta>, i: int) -> bool {
    0 <= i < files.len() && (forall|j: int|
        0 <= j < files.len() ==> (#[trigger] files[j].size) <= files[i].size) && (forall|j: int|
        i < j < files.len() ==> (#[trigger] files[j].size) < files[i].size)
}

/// The principal dwarfs every other file: at least one and a half
/// times each of them, so similar-sized files are never mis-renamed.
pub open spec fn spec_ratio_ok(files: Seq<FileMeta>, i: int) -> bool {
    forall|j: int| 0 <= j < files.len() && j != i ==> files[i].size >= ((
    #[trigger] files[j].size) * 3) / 2
}

/// All the conditions under which the file at `i` is renamed.
pub open spec fn spec_rename_eligible(files: Seq<FileMeta>, i: int) -> bool {
    &&& spec_is_principal(files, i)
    &&& !spec_is_excluded_ext(spec_dotted_ext(files[i].name@))
    &&& spec_is_obfuscated_stem(spec_stem(files[i].name@))
    &&& spec_ratio_ok(files, i)
}

/// Two principal indices are the same index.
proof fn lemma_principal_unique(files: Seq<FileMeta>, i: int, j: int)
    requires
        spec_is_principal(files, i),
        spec_is_principal(files, j),
    ensures
        i == j,
{
    if i < j {
        assert(files[j].size < files[i].size);
        assert(files[i].size <= files[j].size);
    } else if j < i {
        assert(files[i].size < files[j].size);
        assert(files[j].size <= files[i].size);
    }
}

/// Whether the largest file is renamed, and to what. It is renamed
/// exactly when no DVD/Bluray structure is present, its extension is
/// not one of the excluded set, its name looks obfuscated, and it is
/// at least one and a half times the size of the runner-up.
pub fn plan_principal_rename(
    files: &Vec<FileMeta>,
    useful_name: &[u8],
    has_ignored_folder: bool,
) -> (r: Option<RenamePlan>)
    ensures
        (r is Some) <==> (!has_ignored_folder && exists|i: int| #[trigger] spec_rename_eligible(
            files@,
            i,
        )),
        match r {
            Some(plan) => spec_rename_eligible(files@, plan.index as int) && plan.new_name@
                == spec_sanitized_hint(useful_name@, files@[plan.index as int].name@),
            None => true,
        },
{
    if has_ignored_folder {
        return None;
    }
    let (biggest, biggest_size) = match get_biggest_file(files) {
        Some(p) => p,
        None => {
            proof {
                assert(forall|i: int| !#[trigger] spec_rename_eligible(files@, i));
            }
            return None;
        },
    };
    proof {
        assert(spec_is_principal(files@, biggest as int));
    }
    let ext = get_ext(files[biggest].name.as_slice());
    if is_excluded_ext(ext.as_slice()) {
        proof {
            assert forall|i: int| !#[trigger] spec_rename_eligible(files@, i) by {
                if spec_is_principal(files@, i) {
                    lemma_principal_unique(files@, i, biggest as int);
                }
            }
        }
        return None;
    }
    if !is_probably_obfuscated(files[biggest].name.as_slice()) {
        proof {
            assert forall|i: int| !#[trigger] spec_rename_eligible(files@, i) by {
                if spec_is_principal(files@, i) {
                    lemma_principal_unique(files@, i, biggest as int);
                }
            }
        }
        return None;
    }
    let second = second_biggest_size(files, biggest);
    if second > 0 {
        let threshold = (second as u128) * 3 / 2;
        if (biggest_size as u128) < threshold {
            proof {
                let w = choose|w: int|
                    0 <= w < files@.len() && w != biggest && (#[trigger] files@[w].size) == second;
                assert(files@[biggest as int].size < (files@[w].size * 3) / 2);
                assert(!spec_ratio_ok(files@, biggest as int));
                assert forall|i: int| !#[trigger] spec_rename_eligible(files@, i) by {
                    if spec_is_principal(files@, i) {
                        lemma_principal_unique(files@, i, biggest as int);
                    }
                }
            }
            return None;
        }
    }
    proof {
        assert forall|j: int|
            0 <= j < files@.len() && j != biggest implies files@[biggest as int].size >= ((
        #[trigger] files@[j].size) * 3) / 2 by {
            assert(files@[j].size <= second);
            vstd::arithmetic::div_mod::lemma_div_is_ordered(
                files@[j].size * 3,
                second * 3,
                2,
            );
        }
        assert(spec_ratio_ok(files@, biggest as int));
        assert(spec_rename_eligible(files@, biggest as int));
    }
    let mut new_name = sanitize_name(useful_name);
    push_all(&mut new_name, ext.as_slice());
    proof {
        assert(new_name@ =~= spec_sanitized_hint(useful_name@, files@[biggest as int].name@));
    }
    Some(RenamePlan { index: biggest, new_name })
}

/// The sanitized hint with the principal file's extension kept.
pub open spec fn spec_sanitized_hint(hint: Seq<u8>, principal: Seq<u8>) -> Seq<u8> {
    hint.map_values(|c: u8| spec_sanitize_byte(c)) + spec_dotted_ext(principal)
}

/// The renames of the files that share the principal file's basename:
/// each keeps what follows the shared stem, behind the sanitized hint.
pub fn plan_related_renames(
    files: &Vec<FileMeta>,
    principal: usize,
    sanitized_hint: &[u8],
) -> (r: Vec<RenamePlan>)
    requires
        principal < files@.len(),
    ensures
        forall|k: int| 0 <= k < r@.len() ==> {
            let idx = (#[trigger] r@[k]).index as int;
            &&& idx < files@.len()
            &&& idx != principal
            &&& spec_basename(files@[idx].name@) == spec_basename(
                files@[principal as int].name@,
            )
            &&& r@[k].new_name@ == sanitized_hint@ + files@[idx].name@.skip(
                spec_basename(files@[idx].name@).len() as int,
            )
        },
        forall|idx: int|
            0 <= idx < files@.len() && idx != principal && #[trigger] spec_basename(
                files@[idx].name@,
            ) == spec_basename(files@[principal as int].name@) ==> exists|k: int|
                0 <= k < r@.len() && (#[trigger] r@[k]).index == idx,
{
    let base = get_basename(files[principal].name.as_slice());
    let n = files.len();
    let mut r: Vec<RenamePlan> = Vec::new();
    let mut k: usize = 0;
    while k < n
        invariant
            k <= n,
            n == files@.len(),
            principal < n,
            base@ == spec_basename(files@[principal as int].name@),
            forall|j: int| 0 <= j < r@.len() ==> {
                let idx = (#[trigger] r@[j]).index as int;
                &&& idx < files@.len()
                &&& idx != principal
                &&& spec_basename(files@[idx].name@) == spec_basename(
                    files@[principal as int].name@,
                )
                &&& r@[j].new_name@ == sanitized_hint@ + files@[idx].name@.skip(
                    spec_basename(files@[idx].name@).len() as int,
                )
            },
            forall|idx: int|
                0 <= idx < k && idx != principal && #[trigger] spec_basename(files@[idx].name@)
                    == spec_basename(files@[principal as int].name@) ==> exists|j: int|
                    0 <= j < r@.len() && (#[trigger] r@[j]).index == idx,
        decreases n - k,
    {
        if k != principal {
            let fb = get_basename(files[k].name.as_slice());
            if eq_bytes(fb.as_slice(), base.as_slice()) {
                let name = files[k].name.as_slice();
                let mut nn: Vec<u8> = Vec::new();
                push_all(&mut nn, sanitized_hint);
                let rest = sub_vec(name, fb.len(), name.len());
                proof {
                    assert(rest@ =~= name@.skip(fb@.len() as int));
                }
                push_all(&mut nn, rest.as_slice());
                let ghost r0 = r@;
                r.push(RenamePlan { index: k, new_name: nn });
                proof {
                    assert forall|idx: int|
                        0 <= idx < k + 1 && idx != principal && #[trigger] spec_basename(
                            files@[idx].name@,
                        ) == spec_basename(files@[principal as int].name@) implies exists|j: int|
                        0 <= j < r@.len() && (#[trigger] r@[j]).index == idx by {
                        if idx == k {
                            assert(r@[r0.len() as int].index == idx);
                        } else {
                            let j = choose|j: int|
                                0 <= j < r0.len() && (#[trigger] r0[j]).index == idx;
                            assert(r@[j].index == idx);
                        }
                    }
                }
            }
        }
        k += 1;
    }
    r
}

} // verus!
