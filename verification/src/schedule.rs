//! The NZB scheduler: dispatch order, concurrency limits, and the
//! aggregate progress meter.
//!
//! Files are started largest first (by segment count) so the tail of
//! the job is small files; concurrent files are capped well below the
//! connection count so that batches do not mass-time-out on the pool;
//! and the byte meter advances by declared sizes only, so it is
//! non-decreasing and lands exactly on the planned total.

use vstd::multiset::Multiset;
use vstd::prelude::*;

use crate::download::{spec_flatten_batches, spec_total_bytes, spec_weight_sum, NzbFile, Segment};
use crate::errors::DownloadError;
use crate::protocol::SegmentRequest;

verus! {

/// The declared sizes of a file's segments, in order.
pub open spec fn spec_byte_sizes(segs: Seq<Segment>) -> Seq<u64> {
    segs.map_values(|s: Segment| s.bytes)
}

/// The declared sizes as a vector, for the progress meter.
pub fn segment_byte_sizes(segments: &Vec<Segment>) -> (r: Vec<u64>)
    ensures
        r@ == spec_byte_sizes(segments@),
{
    let n = segments.len();
    let mut r: Vec<u64> = Vec::new();
    let mut i: usize = 0;
    while i < n
        invariant
            i <= n,
            n == segments@.len(),
            r@.len() == i,
            forall|j: int| 0 <= j < i ==> r@[j] == segments@[j].bytes,
        decreases n - i,
    {
        r.push(segments[i].bytes);
        i += 1;
    }
    proof {
        assert(r@ =~= spec_byte_sizes(segments@));
    }
    r
}

/// An empty NZB is a run-level error; anything else is accepted.
pub fn validate_nzb(files: &Vec<NzbFile>) -> (r: Result<(), DownloadError>)
    ensures
        files@.len() > 0 ==> r is Ok,
        files@.len() == 0 ==> match r {
            Err(DownloadError::InsufficientSegments { available, required }) => available == 0
                && required == 1,
            _ => false,
        },
{
    if files.len() == 0 {
        Err(DownloadError::InsufficientSegments { available: 0, required: 1 })
    } else {
        Ok(())
    }
}

/// The expected byte total of a whole NZB.
pub open spec fn spec_nzb_total_bytes(files: Seq<NzbFile>) -> int
    decreases files.len(),
{
    if files.len() == 0 {
        0
    } else {
        spec_total_bytes(files[0].segments@) + spec_nzb_total_bytes(files.skip(1))
    }
}

pub proof fn lemma_nzb_total_nonneg(files: Seq<NzbFile>)
    ensures
        spec_nzb_total_bytes(files) >= 0,
    decreases files.len(),
{
    if files.len() > 0 {
        crate::download::lemma_total_bytes_nonneg(files[0].segments@);
        lemma_nzb_total_nonneg(files.skip(1));
    }
}

/// Publish-to-meter total: the declared bytes of every segment of every
/// file.
pub fn nzb_total_bytes(files: &Vec<NzbFile>) -> (r: u64)
    requires
        spec_nzb_total_bytes(files@) <= u64::MAX,
    ensures
        r == spec_nzb_total_bytes(files@),
{
    let n = files.len();
    let mut total: u64 = 0;
    let mut i: usize = 0;
    proof {
        assert(files@.skip(0) =~= files@);
        lemma_nzb_parts(files@, 0);
    }
    while i < n
        invariant
            i <= n,
            n == files@.len(),
            spec_nzb_total_bytes(files@) <= u64::MAX,
            total == spec_nzb_total_bytes(files@) - spec_nzb_total_bytes(files@.skip(i as int)),
            total <= u64::MAX,
        decreases n - i,
    {
        proof {
            assert(files@.skip(i as int)[0] == files@[i as int]);
            assert(files@.skip(i as int).skip(1) =~= files@.skip(i + 1));
            crate::download::lemma_total_bytes_nonneg(files@[i as int].segments@);
            lemma_nzb_total_nonneg(files@.skip(i + 1));
            assert(spec_total_bytes(files@[i as int].segments@) <= u64::MAX) by {
                lemma_nzb_total_nonneg(files@.skip(i as int));
            }
        }
        let fb = crate::download::expected_size(&files[i].segments);
        total = total + fb;
        i += 1;
    }
    proof {
        assert(files@.skip(n as int) =~= Seq::<NzbFile>::empty());
    }
    total
}

proof fn lemma_nzb_parts(files: Seq<NzbFile>, i: int)
    requires
        0 <= i <= files.len(),
    ensures
        spec_nzb_total_bytes(files) - spec_nzb_total_bytes(files.skip(i)) >= 0,
    decreases i,
{
    if i == 0 {
        assert(files.skip(0) =~= files);
    } else {
        lemma_nzb_parts(files, i - 1);
        assert(files.skip(i - 1)[0] == files[i - 1]);
        assert(files.skip(i - 1).skip(1) =~= files.skip(i));
        crate::download::lemma_total_bytes_nonneg(files[i - 1].segments@);
    }
}

/// Concurrent files are capped at `connections / 5`, at least 2: each
/// file issues up to `connections` batches, so more files than that
/// starves the pool into mass acquisition timeouts.
pub fn max_concurrent_files(connections: usize) -> (r: usize)
    ensures
        r == if connections / 5 > 2 {
            connections / 5
        } else {
            2usize
        },
{
    let base = connections / 5;
    if base > 2 {
        base
    } else {
        2
    }
}

/// The file counter message is refreshed every fifth completion and on
/// the last one.
pub fn should_refresh_message(count: usize, total: usize) -> (r: bool)
    ensures
        r == (count % 5 == 0 || count == total),
{
    count % 5 == 0 || count == total
}

// --- dispatch order ------------------------------------------------------

/// Files sorted by descending segment count: the largest files start
/// first, the returned list is a permutation of the input.
pub fn sort_files_by_segments_desc(files: Vec<NzbFile>) -> (r: Vec<NzbFile>)
    ensures
        r@.len() == files@.len(),
        forall|i: int, j: int| 0 <= i < j < r@.len() ==> (#[trigger] r@[i]).segments@.len()
            >= (#[trigger] r@[j]).segments@.len(),
        r@.to_multiset() == files@.to_multiset(),
{
    broadcast use vstd::seq_lib::group_to_multiset_ensures;

    let ghost orig = files@;
    let mut rem = files;
    let mut out: Vec<NzbFile> = Vec::new();
    proof {
        assert(out@.to_multiset().add(rem@.to_multiset()) =~= orig.to_multiset());
    }
    while rem.len() > 0
        invariant
            out@.len() + rem@.len() == orig.len(),
            out@.to_multiset().add(rem@.to_multiset()) == orig.to_multiset(),
            forall|i: int, j: int| 0 <= i < j < out@.len() ==> (#[trigger] out@[i]).segments@.len()
                >= (#[trigger] out@[j]).segments@.len(),
            forall|i: int, j: int|
                0 <= i < out@.len() && 0 <= j < rem@.len() ==> (#[trigger] out@[i]).segments@.len()
                    >= (#[trigger] rem@[j]).segments@.len(),
        decreases rem@.len(),
    {
        let n = rem.len();
        let mut m: usize = 0;
        let mut k: usize = 1;
        while k < n
            invariant
                m < k <= n,
                n == rem@.len(),
                forall|j: int| 0 <= j < k ==> (#[trigger] rem@[j]).segments@.len()
                    <= rem@[m as int].segments@.len(),
            decreases n - k,
        {
            if rem[k].segments.len() > rem[m].segments.len() {
                m = k;
            }
            k += 1;
        }
        let ghost rem0 = rem@;
        let f = rem.remove(m);
        proof {
            broadcast use vstd::seq_lib::group_to_multiset_ensures;

            assert(rem@ =~= rem0.remove(m as int));
            assert(rem0.remove(m as int).to_multiset() =~= rem0.to_multiset().remove(
                rem0[m as int],
            ));
            assert(out@.push(f).to_multiset() =~= out@.to_multiset().insert(f));
            assert(out@.push(f).to_multiset().add(rem@.to_multiset()) =~= orig.to_multiset());
            assert forall|j: int| 0 <= j < rem@.len() implies (#[trigger] rem@[j]).segments@.len()
                <= f.segments@.len() by {
                if j < m {
                    assert(rem@[j] == rem0[j]);
                } else {
                    assert(rem@[j] == rem0[j + 1]);
                }
            }
        }
        out.push(f);
    }
    proof {
        broadcast use vstd::seq_lib::group_to_multiset_ensures;

        assert(rem@.to_multiset() =~= Multiset::<NzbFile>::empty());
        assert(out@.to_multiset().add(Multiset::<NzbFile>::empty()) =~= out@.to_multiset());
        assert(out@.to_multiset().len() == orig.to_multiset().len());
    }
    out
}

// --- the aggregate byte meter --------------------------------------------

/// The shared byte counter behind the progress display: it only ever
/// moves forward, by the declared size of dispatched work.
pub struct ProgressCounter {
    /// Bytes accounted so far.
    pub done: u64,
    /// The planned total, published before dispatch.
    pub total: u64,
}

impl ProgressCounter {
    pub fn new(total: u64) -> (r: Self)
        ensures
            r.done == 0,
            r.total == total,
    {
        ProgressCounter { done: 0, total }
    }

    /// Advance the meter. The counter is monotonic: the new position is
    /// never below the old one.
    pub fn inc(&mut self, amount: u64)
        requires
            old(self).done + amount <= u64::MAX,
        ensures
            final(self).done == old(self).done + amount,
            final(self).done >= old(self).done,
            final(self).total == old(self).total,
    {
        self.done = self.done + amount;
    }
}

/// The meter contribution of a whole run of batches.
pub open spec fn spec_batches_weight(batches: Seq<Vec<SegmentRequest>>, bytes: Seq<u64>) -> int
    decreases batches.len(),
{
    if batches.len() == 0 {
        0
    } else {
        spec_weight_sum(batches[0]@, bytes) + spec_batches_weight(batches.skip(1), bytes)
    }
}

proof fn lemma_weight_sum_concat(a: Seq<SegmentRequest>, b: Seq<SegmentRequest>, bytes: Seq<u64>)
    ensures
        spec_weight_sum(a + b, bytes) == spec_weight_sum(a, bytes) + spec_weight_sum(b, bytes),
    decreases a.len(),
{
    if a.len() == 0 {
        assert(a + b =~= b);
    } else {
        assert((a + b)[0] == a[0]);
        assert((a + b).skip(1) =~= a.skip(1) + b);
        lemma_weight_sum_concat(a.skip(1), b, bytes);
    }
}

proof fn lemma_batches_weight_is_flat_weight(batches: Seq<Vec<SegmentRequest>>, bytes: Seq<u64>)
    ensures
        spec_batches_weight(batches, bytes) == spec_weight_sum(
            spec_flatten_batches(batches),
            bytes,
        ),
    decreases batches.len(),
{
    if batches.len() == 0 {
        assert(spec_flatten_batches(batches) =~= Seq::<SegmentRequest>::empty());
    } else {
        lemma_batches_weight_is_flat_weight(batches.skip(1), bytes);
        lemma_weight_sum_concat(batches[0]@, spec_flatten_batches(batches.skip(1)), bytes);
    }
}

proof fn lemma_weight_canonical(reqs: Seq<SegmentRequest>, segs: Seq<Segment>, off: int)
    requires
        0 <= off,
        off + reqs.len() <= segs.len(),
        segs.len() <= u32::MAX,
        forall|i: int| 0 <= i < reqs.len() ==> (#[trigger] reqs[i]).segment_number == off + i + 1,
    ensures
        spec_weight_sum(reqs, spec_byte_sizes(segs)) == spec_total_bytes(
            segs.subrange(off, off + reqs.len()),
        ),
    decreases reqs.len(),
{
    let bytes = spec_byte_sizes(segs);
    let sub = segs.subrange(off, off + reqs.len());
    if reqs.len() == 0 {
        assert(sub =~= Seq::<Segment>::empty());
    } else {
        assert(reqs[0].segment_number == off + 1);
        assert(bytes[off] == segs[off].bytes);
        assert(sub[0] == segs[off]);
        assert(sub.skip(1) =~= segs.subrange(off + 1, off + 1 + reqs.skip(1).len()));
        assert(forall|i: int| 0 <= i < reqs.skip(1).len() ==> (#[trigger] reqs.skip(1)[i])
            .segment_number == off + 1 + i + 1);
        lemma_weight_canonical(reqs.skip(1), segs, off + 1);
    }
}

/// Progress covers the plan: when the batches partition the canonical
/// request list of a file (request `i` carries segment number `i + 1`),
/// the per-batch meter increments add up to exactly the file's declared
/// byte total.
pub proof fn lemma_progress_covers_total(batches: Seq<Vec<SegmentRequest>>, segs: Seq<Segment>)
    requires
        segs.len() <= u32::MAX,
        spec_flatten_batches(batches).len() == segs.len(),
        forall|i: int| 0 <= i < segs.len() ==> (#[trigger] spec_flatten_batches(
            batches,
        )[i]).segment_number == i + 1,
    ensures
        spec_batches_weight(batches, spec_byte_sizes(segs)) == spec_total_bytes(segs),
{
    lemma_batches_weight_is_flat_weight(batches, spec_byte_sizes(segs));
    lemma_weight_canonical(spec_flatten_batches(batches), segs, 0);
    assert(segs.subrange(0, segs.len() as int) =~= segs);
}

} // verus!
