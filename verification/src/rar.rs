//! RAR extraction decisions.
//!
//! The decompression kernel is consumed at its interface; the library
//! decides which archives are entry points, keeps extracted entries
//! inside the target directory, sums listing sizes for progress, drives
//! the progress events of a streaming extraction, and plans the
//! deletion of consumed parts.

use vstd::prelude::*;
use vstd::string::StringSliceAdditionalSpecFns;

use crate::postprocess::PostProcessingConfig;
use crate::text::{clone_bytes, eq_bytes, push_all, sub_vec};

verus! {

/// Extraction configuration and thresholds for one run.
pub struct RarExtractor {
    pub config: PostProcessingConfig,
    pub large_file_threshold: u64,
}

impl RarExtractor {
    pub fn new(config: PostProcessingConfig, large_file_threshold: u64) -> (r: Self)
        ensures
            r.config == config,
            r.large_file_threshold == large_file_threshold,
    {
        RarExtractor { config, large_file_threshold }
    }

    /// Intra-file progress sampling is worth it only for large entries.
    pub fn should_monitor(&self, file_size: u64) -> (r: bool)
        ensures
            r == (file_size > self.large_file_threshold),
    {
        file_size > self.large_file_threshold
    }
}

/// Is this path an archive the extractor starts on?
pub fn is_rar_archive(path: &[u8]) -> (r: bool)
    ensures
        r == crate::patterns::spec_is_extractable_name(crate::patterns::spec_file_name(path@)),
{
    crate::patterns::is_extractable_archive(path)
}

// --- keeping entries inside the target ------------------------------------

/// An archive entry path split at every `/`.
pub open spec fn spec_split_path(s: Seq<u8>) -> Seq<Seq<u8>>
    decreases s.len(),
{
    if exists|i: int| #[trigger] crate::yenc::spec_is_first_of(s, '/' as u8, i) {
        let i = choose|i: int| #[trigger] crate::yenc::spec_is_first_of(s, '/' as u8, i);
        seq![s.take(i)] + spec_split_path(s.skip(i + 1))
    } else {
        seq![s]
    }
}

/// A piece that names a real directory or file: not empty, not the
/// current or parent directory.
pub open spec fn spec_is_normal_piece(p: Seq<u8>) -> bool {
    p.len() > 0 && p != ".".spec_bytes() && p != "..".spec_bytes()
}

/// The pieces among `parts` that survive sanitization.
pub open spec fn spec_normal_pieces_of(parts: Seq<Seq<u8>>) -> Seq<Seq<u8>>
    decreases parts.len(),
{
    if parts.len() == 0 {
        Seq::empty()
    } else {
        spec_normal_pieces_of(parts.drop_last()) + if spec_is_normal_piece(parts.last()) {
            seq![parts.last()]
        } else {
            Seq::<Seq<u8>>::empty()
        }
    }
}

/// The pieces of a path that survive sanitization.
pub open spec fn spec_normal_pieces(s: Seq<u8>) -> Seq<Seq<u8>> {
    spec_normal_pieces_of(spec_split_path(s))
}

/// Split an entry path into its pieces between `/` separators.
fn split_path(s: &[u8]) -> (r: Vec<Vec<u8>>)
    ensures
        crate::yenc::seq_views(r@) == spec_split_path(s@),
{
    let n = s.len();
    let mut r: Vec<Vec<u8>> = Vec::new();
    let mut pos: usize = 0;
    proof {
        assert(s@.skip(0) =~= s@);
        assert(crate::yenc::seq_views(r@) + spec_split_path(s@) =~= spec_split_path(s@));
    }
    loop
        invariant
            pos <= n,
            n == s@.len(),
            spec_split_path(s@) == crate::yenc::seq_views(r@) + spec_split_path(
                s@.skip(pos as int),
            ),
        decreases n - pos,
    {
        let mut j: usize = pos;
        while j < n && s[j] != '/' as u8
            invariant
                pos <= j <= n,
                n == s@.len(),
                forall|k: int| pos <= k < j ==> s@[k] != '/' as u8,
            decreases n - j,
        {
            j += 1;
        }
        let ghost u = s@.skip(pos as int);
        if j == n {
            let piece = sub_vec(s, pos, n);
            proof {
                assert(forall|i: int| !#[trigger] crate::yenc::spec_is_first_of(
                    u,
                    '/' as u8,
                    i,
                ));
                assert(spec_split_path(u) == seq![u]);
                assert(piece@ =~= u);
                assert(crate::yenc::seq_views(r@.push(piece)) =~= crate::yenc::seq_views(r@)
                    + seq![u]);
            }
            r.push(piece);
            proof {
                assert(spec_split_path(s@) =~= crate::yenc::seq_views(r@));
            }
            return r;
        }
        let piece = sub_vec(s, pos, j);
        proof {
            let f = j - pos;
            assert(u[f] == s@[j as int]);
            assert(forall|k: int| 0 <= k < f ==> u[k] == s@[pos + k]);
            assert(crate::yenc::spec_is_first_of(u, '/' as u8, f));
            let w = choose|w: int| #[trigger] crate::yenc::spec_is_first_of(u, '/' as u8, w);
            assert(w == f);
            assert(u.take(f) =~= piece@);
            assert(u.skip(f + 1) =~= s@.skip(j + 1));
            assert(spec_split_path(u) == seq![piece@] + spec_split_path(s@.skip(j + 1)));
            assert(crate::yenc::seq_views(r@.push(piece)) =~= crate::yenc::seq_views(r@)
                + seq![piece@]);
            assert(crate::yenc::seq_views(r@) + (seq![piece@] + spec_split_path(s@.skip(j + 1)))
                =~= (crate::yenc::seq_views(r@) + seq![piece@]) + spec_split_path(s@.skip(j + 1)));
        }
        r.push(piece);
        pos = j + 1;
    }
}

/// The safe components of an archive entry path: its pieces with empty
/// ones, `.` and `..` dropped. What remains can only name something at
/// or below the extraction target.
pub fn sanitize_entry_path(path: &[u8]) -> (r: Vec<Vec<u8>>)
    ensures
        crate::yenc::seq_views(r@) == spec_normal_pieces(path@),
        forall|k: int| 0 <= k < r@.len() ==> spec_is_normal_piece((#[trigger] r@[k])@),
        forall|k: int, b: int| #![trigger r@[k]@[b]] 0 <= k < r@.len() && 0 <= b < r@[k]@.len()
            ==> r@[k]@[b] != '/' as u8,
{
    let pieces = split_path(path);
    let ghost all = spec_split_path(path@);
    let n = pieces.len();
    let mut r: Vec<Vec<u8>> = Vec::new();
    let mut i: usize = 0;
    proof {
        lemma_split_path_no_slash(path@);
        assert(crate::yenc::seq_views(r@) =~= spec_normal_pieces_of(all.take(0))) by {
            assert(all.take(0) =~= Seq::<Seq<u8>>::empty());
        }
    }
    while i < n
        invariant
            i <= n,
            n == pieces@.len(),
            crate::yenc::seq_views(pieces@) == all,
            all == spec_split_path(path@),
            crate::yenc::seq_views(r@) == spec_normal_pieces_of(all.take(i as int)),
            forall|k: int| 0 <= k < r@.len() ==> spec_is_normal_piece((#[trigger] r@[k])@),
            forall|k: int, b: int| #![trigger r@[k]@[b]]
                0 <= k < r@.len() && 0 <= b < r@[k]@.len() ==> r@[k]@[b] != '/' as u8,
            forall|k: int, b: int| #![trigger all[k][b]]
                0 <= k < all.len() && 0 <= b < all[k].len() ==> all[k][b] != '/' as u8,
        decreases n - i,
    {
        let p = &pieces[i];
        proof {
            assert(all.take(i + 1).drop_last() =~= all.take(i as int));
            assert(all.take(i + 1).last() == all[i as int]);
            assert(all[i as int] == pieces@[i as int]@);
        }
        let keep = p.len() > 0 && !eq_bytes(p.as_slice(), ".".as_bytes()) && !eq_bytes(
            p.as_slice(),
            "..".as_bytes(),
        );
        if keep {
            r.push(clone_bytes(p));
            proof {
                assert(crate::yenc::seq_views(r@) =~= spec_normal_pieces_of(all.take(i + 1)));
            }
        } else {
            proof {
                assert(crate::yenc::seq_views(r@) =~= spec_normal_pieces_of(all.take(i + 1)));
            }
        }
        i += 1;
    }
    proof {
        assert(all.take(n as int) =~= all);
    }
    r
}

/// No piece of a split path holds a separator.
proof fn lemma_split_path_no_slash(s: Seq<u8>)
    ensures
        forall|k: int, b: int| #![trigger spec_split_path(s)[k][b]]
            0 <= k < spec_split_path(s).len() && 0 <= b < spec_split_path(s)[k].len()
                ==> spec_split_path(s)[k][b] != '/' as u8,
    decreases s.len(),
{
    if exists|i: int| #[trigger] crate::yenc::spec_is_first_of(s, '/' as u8, i) {
        let i = choose|i: int| #[trigger] crate::yenc::spec_is_first_of(s, '/' as u8, i);
        lemma_split_path_no_slash(s.skip(i + 1));
        let parts = spec_split_path(s);
        assert forall|k: int, b: int| #![trigger parts[k][b]]
            0 <= k < parts.len() && 0 <= b < parts[k].len() implies parts[k][b] != '/' as u8 by {
            if k == 0 {
                assert(parts[0] == s.take(i));
                assert(s.take(i)[b] == s[b]);
            } else {
                assert(parts[k] == spec_split_path(s.skip(i + 1))[k - 1]);
            }
        }
    } else {
        let parts = spec_split_path(s);
        assert forall|k: int, b: int| #![trigger parts[k][b]]
            0 <= k < parts.len() && 0 <= b < parts[k].len() implies parts[k][b] != '/' as u8 by {
            assert(parts[0] == s);
            lemma_no_first_no_occurrence(s, '/' as u8);
        }
    }
}

/// Without a first occurrence there is no occurrence at all.
proof fn lemma_no_first_no_occurrence(s: Seq<u8>, c: u8)
    requires
        forall|i: int| !#[trigger] crate::yenc::spec_is_first_of(s, c, i),
    ensures
        forall|b: int| 0 <= b < s.len() ==> s[b] != c,
    decreases s.len(),
{
    assert forall|b: int| 0 <= b < s.len() implies s[b] != c by {
        if s[b] == c {
            lemma_some_first(s, c, b);
        }
    }
}

/// An occurrence of `c` yields a first occurrence.
proof fn lemma_some_first(s: Seq<u8>, c: u8, b: int)
    requires
        0 <= b < s.len(),
        s[b] == c,
    ensures
        exists|i: int| #[trigger] crate::yenc::spec_is_first_of(s, c, i),
    decreases b,
{
    if forall|j: int| 0 <= j < b ==> s[j] != c {
        assert(crate::yenc::spec_is_first_of(s, c, b));
    } else {
        let j = choose|j: int| 0 <= j < b && s[j] == c;
        lemma_some_first(s, c, j);
    }
}

/// Join safe components under the target directory: the pieces with
/// `/` between them.
pub open spec fn spec_join_path(parts: Seq<Seq<u8>>) -> Seq<u8>
    decreases parts.len(),
{
    if parts.len() == 0 {
        Seq::empty()
    } else if parts.len() == 1 {
        parts[0]
    } else {
        parts[0] + seq!['/' as u8] + spec_join_path(parts.skip(1))
    }
}

/// Join the sanitized components into a relative path.
pub fn join_path(parts: &Vec<Vec<u8>>) -> (r: Vec<u8>)
    ensures
        r@ == spec_join_path(crate::yenc::seq_views(parts@)),
{
    let n = parts.len();
    let mut r: Vec<u8> = Vec::new();
    if n == 0 {
        return r;
    }
    let ghost all = crate::yenc::seq_views(parts@);
    push_all(&mut r, parts[0].as_slice());
    let mut i: usize = 1;
    proof {
        assert(all.take(1) =~= seq![all[0]]);
        assert(spec_join_path(seq![all[0]]) == all[0]);
        assert(r@ =~= spec_join_path(all.take(1)));
    }
    while i < n
        invariant
            1 <= i <= n,
            n == parts@.len(),
            all == crate::yenc::seq_views(parts@),
            r@ == spec_join_path(all.take(i as int)),
        decreases n - i,
    {
        r.push('/' as u8);
        push_all(&mut r, parts[i].as_slice());
        proof {
            lemma_join_snoc(all.take(i as int), all[i as int]);
            assert(all.take(i as int).push(all[i as int]) =~= all.take(i + 1));
            assert(r@ =~= spec_join_path(all.take(i + 1)));
        }
        i += 1;
    }
    proof {
        assert(all.take(n as int) =~= all);
    }
    r
}

/// Appending one piece appends a separator and the piece.
proof fn lemma_join_snoc(parts: Seq<Seq<u8>>, p: Seq<u8>)
    requires
        parts.len() >= 1,
    ensures
        spec_join_path(parts.push(p)) == spec_join_path(parts) + seq!['/' as u8] + p,
    decreases parts.len(),
{
    if parts.len() == 1 {
        assert(parts.push(p)[0] == parts[0]);
        assert(parts.push(p).skip(1) =~= seq![p]);
        assert(spec_join_path(seq![p]) == p);
        assert(spec_join_path(parts.push(p)) == parts[0] + seq!['/' as u8] + p);
        assert(spec_join_path(parts) == parts[0]);
    } else {
        assert(parts.push(p)[0] == parts[0]);
        assert(parts.push(p).skip(1) =~= parts.skip(1).push(p));
        lemma_join_snoc(parts.skip(1), p);
        assert(parts[0] + seq!['/' as u8] + (spec_join_path(parts.skip(1)) + seq!['/' as u8] + p)
            =~= (parts[0] + seq!['/' as u8] + spec_join_path(parts.skip(1))) + seq!['/' as u8]
            + p);
    }
}

/// Path-traversal safety: splitting the joined sanitized components
/// gives back exactly those components — every one a plain name, none
/// `..`, none empty — so the joined path is relative and never reaches
/// above the directory it is joined under.
pub proof fn lemma_sanitized_path_stays_inside(parts: Seq<Seq<u8>>)
    requires
        parts.len() >= 1,
        forall|k: int| 0 <= k < parts.len() ==> spec_is_normal_piece(#[trigger] parts[k]),
        forall|k: int, b: int| #![trigger parts[k][b]]
            0 <= k < parts.len() && 0 <= b < parts[k].len() ==> parts[k][b] != '/' as u8,
    ensures
        spec_split_path(spec_join_path(parts)) == parts,
        forall|k: int| 0 <= k < spec_split_path(spec_join_path(parts)).len()
            ==> spec_is_normal_piece(#[trigger] spec_split_path(spec_join_path(parts))[k]),
    decreases parts.len(),
{
    let j = spec_join_path(parts);
    if parts.len() == 1 {
        assert(forall|b: int| 0 <= b < j.len() ==> j[b] != '/' as u8);
        assert(forall|i: int| !#[trigger] crate::yenc::spec_is_first_of(j, '/' as u8, i));
        assert(spec_split_path(j) =~= seq![parts[0]]);
        assert(seq![parts[0]] =~= parts);
    } else {
        let p0 = parts[0];
        let rest = spec_join_path(parts.skip(1));
        assert(j == p0 + seq!['/' as u8] + rest);
        assert(j[p0.len() as int] == '/' as u8);
        assert(forall|b: int| 0 <= b < p0.len() ==> j[b] == p0[b]);
        assert(crate::yenc::spec_is_first_of(j, '/' as u8, p0.len() as int));
        let w = choose|w: int| #[trigger] crate::yenc::spec_is_first_of(j, '/' as u8, w);
        assert(w == p0.len());
        assert(j.take(w) =~= p0);
        assert(j.skip(w + 1) =~= rest);
        assert(forall|k: int| 0 <= k < parts.skip(1).len() ==> spec_is_normal_piece(
            #[trigger] parts.skip(1)[k],
        ));
        assert(forall|k: int, b: int| #![trigger parts.skip(1)[k][b]]
            0 <= k < parts.skip(1).len() && 0 <= b < parts.skip(1)[k].len() ==> parts.skip(
                1,
            )[k][b] != '/' as u8);
        lemma_sanitized_path_stays_inside(parts.skip(1));
        assert(spec_split_path(j) == seq![p0] + parts.skip(1));
        assert(seq![p0] + parts.skip(1) =~= parts);
    }
}

// --- listing totals ---------------------------------------------------------

/// One listed archive entry: whether it is a directory, and its
/// unpacked size.
pub struct ArchiveEntry {
    pub is_directory: bool,
    pub unpacked_size: u64,
}

impl ArchiveEntry {
    /// What the entry adds to the byte target: nothing for a
    /// directory.
    pub open spec fn spec_weight(self) -> int {
        if self.is_directory {
            0
        } else {
            self.unpacked_size as int
        }
    }
}

/// The number of real files in a listing.
pub open spec fn spec_entry_count(entries: Seq<ArchiveEntry>) -> int
    decreases entries.len(),
{
    if entries.len() == 0 {
        0
    } else {
        spec_entry_count(entries.drop_last()) + if entries.last().is_directory {
            0int
        } else {
            1int
        }
    }
}

/// The unpacked bytes of the real files in a listing.
pub open spec fn spec_entry_bytes(entries: Seq<ArchiveEntry>) -> int
    decreases entries.len(),
{
    if entries.len() == 0 {
        0
    } else {
        spec_entry_bytes(entries.drop_last()) + if entries.last().is_directory {
            0int
        } else {
            entries.last().unpacked_size as int
        }
    }
}

/// Count the files of a listing and sum their unpacked sizes: the
/// byte-level progress target of one archive.
pub fn archive_totals(entries: &Vec<ArchiveEntry>) -> (r: (u64, u64))
    requires
        entries@.len() <= u64::MAX,
        spec_entry_bytes(entries@) <= u64::MAX,
    ensures
        r.0 == spec_entry_count(entries@),
        r.1 == spec_entry_bytes(entries@),
{
    let n = entries.len();
    let mut count: u64 = 0;
    let mut bytes: u64 = 0;
    let mut i: usize = 0;
    proof {
        assert(entries@.take(0) =~= Seq::<ArchiveEntry>::empty());
    }
    while i < n
        invariant
            i <= n,
            n == entries@.len() <= u64::MAX,
            count == spec_entry_count(entries@.take(i as int)),
            count <= i,
            bytes == spec_entry_bytes(entries@.take(i as int)),
            spec_entry_bytes(entries@) <= u64::MAX,
        decreases n - i,
    {
        proof {
            assert(entries@.take(i + 1).drop_last() =~= entries@.take(i as int));
            assert(entries@.take(i + 1).last() == entries@[i as int]);
            lemma_entry_bytes_parts(entries@, i + 1);
            lemma_entry_bytes_nonneg(entries@.skip(i + 1));
        }
        if !entries[i].is_directory {
            count = count + 1;
            bytes = bytes + entries[i].unpacked_size;
        }
        i += 1;
    }
    proof {
        assert(entries@.take(n as int) =~= entries@);
    }
    (count, bytes)
}

proof fn lemma_entry_bytes_nonneg(entries: Seq<ArchiveEntry>)
    ensures
        spec_entry_bytes(entries) >= 0,
    decreases entries.len(),
{
    if entries.len() > 0 {
        lemma_entry_bytes_nonneg(entries.drop_last());
    }
}

proof fn lemma_entry_bytes_parts(entries: Seq<ArchiveEntry>, i: int)
    requires
        0 <= i <= entries.len(),
    ensures
        spec_entry_bytes(entries) == spec_entry_bytes(entries.take(i)) + spec_entry_bytes(
            entries.skip(i),
        ),
    decreases entries.len() - i,
{
    if i == entries.len() {
        assert(entries.take(i) =~= entries);
        assert(entries.skip(i) =~= Seq::<ArchiveEntry>::empty());
    } else {
        lemma_entry_bytes_parts(entries, i + 1);
        assert(entries.take(i + 1).drop_last() =~= entries.take(i));
        assert(entries.take(i + 1).last() == entries[i]);
        let s = entries.skip(i);
        assert(s.len() > 0);
        lemma_entry_bytes_last(entries, i);
    }
}

proof fn lemma_entry_bytes_last(entries: Seq<ArchiveEntry>, i: int)
    requires
        0 <= i < entries.len(),
    ensures
        spec_entry_bytes(entries.skip(i)) == entries[i].spec_weight() + spec_entry_bytes(
            entries.skip(i + 1),
        ),
    decreases entries.len(),
{
    let s = entries.skip(i);
    if entries.len() == i + 1 {
        assert(s.len() == 1);
        assert(s.drop_last() =~= Seq::<ArchiveEntry>::empty());
        assert(s.last() == entries[i]);
        assert(entries.skip(i + 1) =~= Seq::<ArchiveEntry>::empty());
    } else {
        lemma_entry_bytes_last(entries.drop_last(), i);
        assert(entries.drop_last().skip(i) =~= s.drop_last());
        assert(entries.drop_last().skip(i + 1) =~= entries.skip(i + 1).drop_last());
        assert(s.last() == entries.last());
        assert(entries.skip(i + 1).last() == entries.last());
    }
}

/// The extraction succeeded when at least one file came out.
pub fn extraction_success(extracted_files: u64) -> (r: bool)
    ensures
        r == (extracted_files > 0),
{
    extracted_files > 0
}

// --- streaming progress ------------------------------------------------------

/// Events of a streaming extraction, sent from the decompression
/// worker to the progress driver over a bounded channel.
pub enum ExtractEvent {
    /// A new entry began: its short name, 1-based index, and the file
    /// count.
    StartFile { name: Vec<u8>, index: u64, total: u64 },
    /// An entry finished; the running byte total so far.
    FileComplete { bytes: u64 },
    /// A large entry began: sample its output length, adding it to the
    /// bytes completed before it.
    MonitorFile { path: Vec<u8>, base_bytes: u64 },
    /// The worker is done.
    Done { success: bool },
}

/// The progress driver's state between events.
pub struct ExtractMonitor {
    /// The large file being sampled, with the byte base under it.
    pub current: Option<(Vec<u8>, u64)>,
    /// What `Done` reported; `false` until then.
    pub result: bool,
    pub finished: bool,
}

impl ExtractMonitor {
    pub fn new() -> (r: Self)
        ensures
            r.current is None,
            !r.result,
            !r.finished,
    {
        ExtractMonitor { current: None, result: false, finished: false }
    }

    /// Fold one event into the state; the returned position, when
    /// given, is the new progress-bar position.
    pub fn on_event(&mut self, event: ExtractEvent) -> (pos: Option<u64>)
        ensures
            event is StartFile ==> *final(self) == *old(self) && pos is None,
            event is FileComplete ==> final(self).current is None
                && final(self).result == old(self).result
                && final(self).finished == old(self).finished
                && pos == Some(event->FileComplete_bytes),
            event is MonitorFile ==> (match final(self).current {
                Some(c) => c.0@ == event->MonitorFile_path@ && c.1 == event->MonitorFile_base_bytes,
                None => false,
            }) && final(self).result == old(self).result
                && final(self).finished == old(self).finished && pos is None,
            event is Done ==> final(self).finished
                && final(self).result == event->Done_success && pos is None,
    {
        match event {
            ExtractEvent::StartFile { .. } => None,
            ExtractEvent::FileComplete { bytes } => {
                self.current = None;
                Some(bytes)
            },
            ExtractEvent::MonitorFile { path, base_bytes } => {
                self.current = Some((path, base_bytes));
                None
            },
            ExtractEvent::Done { success } => {
                self.result = success;
                self.finished = true;
                None
            },
        }
    }

    /// The sampled position of a monitored file: the bytes before it
    /// plus its current length on disk.
    pub fn sampled_position(&self, current_len: u64) -> (r: u64)
        requires
            self.current is Some,
            (self.current->0).1 + current_len <= u64::MAX,
        ensures
            r == (self.current->0).1 + current_len,
    {
        match &self.current {
            Some(c) => c.1 + current_len,
            None => 0,
        }
    }
}

// --- deleting consumed parts -------------------------------------------------

/// The names that belong to the extracted archive's set and go when
/// deletion after extraction is configured.
pub open spec fn spec_parts_to_delete(base: Seq<u8>, names: Seq<Vec<u8>>) -> Seq<Seq<u8>>
    decreases names.len(),
{
    if names.len() == 0 {
        Seq::empty()
    } else {
        spec_parts_to_delete(base, names.drop_last()) + if crate::text::spec_starts_with(
            crate::text::spec_lower_seq(names.last()@),
            crate::text::spec_lower_seq(base),
        ) && crate::patterns::spec_is_rar_related(names.last()@) {
            seq![names.last()@]
        } else {
            Seq::<Seq<u8>>::empty()
        }
    }
}

/// Plan the deletion of an archive set: every directory entry that
/// shares the base name and is RAR-related.
pub fn rar_parts_to_delete(base: &[u8], names: &Vec<Vec<u8>>) -> (r: Vec<Vec<u8>>)
    ensures
        crate::yenc::seq_views(r@) == spec_parts_to_delete(base@, names@),
{
    let n = names.len();
    let mut r: Vec<Vec<u8>> = Vec::new();
    let mut i: usize = 0;
    proof {
        assert(crate::yenc::seq_views(r@) =~= spec_parts_to_delete(base@, names@.take(0))) by {
            assert(names@.take(0) =~= Seq::<Vec<u8>>::empty());
        }
    }
    while i < n
        invariant
            i <= n,
            n == names@.len(),
            crate::yenc::seq_views(r@) == spec_parts_to_delete(base@, names@.take(i as int)),
        decreases n - i,
    {
        proof {
            assert(names@.take(i + 1).drop_last() =~= names@.take(i as int));
            assert(names@.take(i + 1).last() == names@[i as int]);
        }
        if crate::patterns::is_same_archive(base, names[i].as_slice()) {
            r.push(clone_bytes(&names[i]));
            proof {
                assert(crate::yenc::seq_views(r@) =~= spec_parts_to_delete(
                    base@,
                    names@.take(i + 1),
                ));
            }
        } else {
            proof {
                assert(crate::yenc::seq_views(r@) =~= spec_parts_to_delete(
                    base@,
                    names@.take(i + 1),
                ));
            }
        }
        i += 1;
    }
    proof {
        assert(names@.take(n as int) =~= names@);
    }
    r
}

} // verus!
