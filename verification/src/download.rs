//! The per-file downloader: planning, batching and reassembly.
//!
//! For one file of an NZB the downloader derives the output name, checks
//! whether a complete file is already on disk, partitions the ordered
//! segment list into pipelined batches, and reassembles the fetched
//! bodies in segment order. Everything here is pure decision logic; the
//! sockets and the filesystem act on what these functions return.

use vstd::prelude::*;

use crate::protocol::SegmentRequest;
use vstd::string::StringSliceAdditionalSpecFns;

verus! {

/// One article of a file: 1-based position, opaque id, declared size.
#[derive(Clone)]
pub struct Segment {
    pub number: u32,
    pub message_id: Vec<u8>,
    pub bytes: u64,
}

/// One file of an NZB: subject, posting date, newsgroups (the first is
/// canonical), and its ordered segments.
#[derive(Clone)]
pub struct NzbFile {
    pub subject: Vec<u8>,
    pub date: Vec<u8>,
    pub groups: Vec<Vec<u8>>,
    pub segments: Vec<Segment>,
}

/// Outcome of one segment fetch.
pub struct SegmentResult {
    pub segment_number: u32,
    pub data: Option<Vec<u8>>,
    pub message_id: Vec<u8>,
}

/// Per-file outcome. The average transfer rate shown to users is derived
/// from `size` and `download_time_ms` by the caller.
pub struct DownloadResult {
    pub filename: Vec<u8>,
    pub path: Vec<u8>,
    pub size: u64,
    pub segments_downloaded: usize,
    pub segments_failed: usize,
    pub download_time_ms: u64,
    pub failed_message_ids: Vec<Vec<u8>>,
}

/// The declared byte total of a segment list.
pub open spec fn spec_total_bytes(segs: Seq<Segment>) -> int
    decreases segs.len(),
{
    if segs.len() == 0 {
        0
    } else {
        segs[0].bytes + spec_total_bytes(segs.skip(1))
    }
}

pub proof fn lemma_total_bytes_nonneg(segs: Seq<Segment>)
    ensures
        spec_total_bytes(segs) >= 0,
    decreases segs.len(),
{
    if segs.len() > 0 {
        lemma_total_bytes_nonneg(segs.skip(1));
    }
}

proof fn lemma_total_bytes_snoc(segs: Seq<Segment>, s: Segment)
    ensures
        spec_total_bytes(segs.push(s)) == spec_total_bytes(segs) + s.bytes,
    decreases segs.len(),
{
    if segs.len() == 0 {
        assert(segs.push(s)[0] == s);
        assert(segs.push(s).skip(1) =~= Seq::<Segment>::empty());
        assert(spec_total_bytes(segs.push(s)) == s.bytes + spec_total_bytes(
            segs.push(s).skip(1),
        ));
    } else {
        assert(segs.push(s).skip(1) =~= segs.skip(1).push(s));
        lemma_total_bytes_snoc(segs.skip(1), s);
    }
}

/// Sum the declared sizes of a file's segments.
pub fn expected_size(segments: &Vec<Segment>) -> (r: u64)
    requires
        spec_total_bytes(segments@) <= u64::MAX,
    ensures
        r == spec_total_bytes(segments@),
{
    let n = segments.len();
    let mut total: u64 = 0;
    let mut i: usize = 0;
    proof {
        assert(segments@.take(0) =~= Seq::<Segment>::empty());
    }
    while i < n
        invariant
            i <= n,
            n == segments@.len(),
            total == spec_total_bytes(segments@.take(i as int)),
            spec_total_bytes(segments@) <= u64::MAX,
        decreases n - i,
    {
        proof {
            lemma_total_bytes_snoc(segments@.take(i as int), segments@[i as int]);
            assert(segments@.take(i as int).push(segments@[i as int]) =~= segments@.take(i + 1));
            lemma_total_bytes_parts(segments@, i + 1);
            lemma_total_bytes_nonneg(segments@.skip(i + 1));
        }
        total = total + segments[i].bytes;
        i += 1;
    }
    proof {
        assert(segments@.take(n as int) =~= segments@);
    }
    total
}

/// A prefix-suffix split of the byte total.
pub proof fn lemma_total_bytes_parts(segs: Seq<Segment>, i: int)
    requires
        0 <= i <= segs.len(),
    ensures
        spec_total_bytes(segs) == spec_total_bytes(segs.take(i)) + spec_total_bytes(segs.skip(i)),
    decreases i,
{
    if i == 0 {
        assert(segs.take(0) =~= Seq::<Segment>::empty());
        assert(segs.skip(0) =~= segs);
    } else {
        assert(segs.len() > 0);
        assert(segs.take(i)[0] == segs[0]);
        assert(segs.take(i).skip(1) =~= segs.skip(1).take(i - 1));
        assert(segs.skip(i) =~= segs.skip(1).skip(i - 1));
        lemma_total_bytes_parts(segs.skip(1), i - 1);
    }
}

/// The resume rule: an existing file of exactly the declared size is kept
/// unless a forced re-download was asked for.
pub fn should_skip_existing(existing_len: Option<u64>, expected: u64, force_redownload: bool) -> (r:
    bool)
    ensures
        r == (!force_redownload && existing_len == Some(expected)),
{
    if force_redownload {
        false
    } else {
        match existing_len {
            Some(l) => l == expected,
            None => false,
        }
    }
}

/// The output name when no filename can be read from the subject.
pub fn fallback_filename(date: &[u8]) -> (r: Vec<u8>)
    ensures
        r@ == "unknown_file_".spec_bytes() + date@,
{
    let mut out: Vec<u8> = Vec::new();
    crate::text::push_all(&mut out, "unknown_file_".as_bytes());
    crate::text::push_all(&mut out, date);
    out
}

/// The execution records of a file's segments, all on its first group.
pub fn segment_requests(file: &NzbFile) -> (r: Vec<SegmentRequest>)
    requires
        file.groups@.len() > 0,
    ensures
        r@.len() == file.segments@.len(),
        forall|i: int| 0 <= i < r@.len() ==> (#[trigger] r@[i]).segment_number
            == file.segments@[i].number && r@[i].message_id@ == file.segments@[i].message_id@
            && r@[i].group@ == file.groups@[0]@,
{
    let group = &file.groups[0];
    let n = file.segments.len();
    let mut r: Vec<SegmentRequest> = Vec::new();
    let mut i: usize = 0;
    while i < n
        invariant
            i <= n,
            n == file.segments@.len(),
            file.groups@.len() > 0,
            group@ == file.groups@[0]@,
            r@.len() == i,
            forall|j: int| 0 <= j < i ==> (#[trigger] r@[j]).segment_number
                == file.segments@[j].number && r@[j].message_id@ == file.segments@[j].message_id@
                && r@[j].group@ == file.groups@[0]@,
        decreases n - i,
    {
        let seg = &file.segments[i];
        let req = SegmentRequest {
            message_id: crate::text::clone_bytes(&seg.message_id),
            group: crate::text::clone_bytes(group),
            segment_number: seg.number,
        };
        proof {
            assert(req.segment_number == file.segments@[i as int].number && req.message_id@
                == file.segments@[i as int].message_id@ && req.group@ == file.groups@[0]@);
        }
        r.push(req);
        i += 1;
    }
    r
}

/// The requests of all batches, joined back in dispatch order.
pub open spec fn spec_flatten_batches(batches: Seq<Vec<SegmentRequest>>) -> Seq<SegmentRequest>
    decreases batches.len(),
{
    if batches.len() == 0 {
        Seq::empty()
    } else {
        batches[0]@ + spec_flatten_batches(batches.skip(1))
    }
}

proof fn lemma_flatten_snoc(batches: Seq<Vec<SegmentRequest>>, v: Vec<SegmentRequest>)
    ensures
        spec_flatten_batches(batches.push(v)) == spec_flatten_batches(batches) + v@,
    decreases batches.len(),
{
    if batches.len() == 0 {
        assert(batches.push(v)[0] == v);
        assert(batches.push(v).skip(1) =~= Seq::<Vec<SegmentRequest>>::empty());
        assert(spec_flatten_batches(batches.push(v)) == v@ + spec_flatten_batches(
            batches.push(v).skip(1),
        ));
        assert(v@ + Seq::<SegmentRequest>::empty() =~= v@);
        assert(spec_flatten_batches(batches) + v@ =~= v@);
    } else {
        assert(batches.push(v).skip(1) =~= batches.skip(1).push(v));
        lemma_flatten_snoc(batches.skip(1), v);
        assert(batches[0]@ + (spec_flatten_batches(batches.skip(1)) + v@) =~= (batches[0]@
            + spec_flatten_batches(batches.skip(1))) + v@);
    }
}

/// Partition the ordered requests into batches of at most
/// `pipeline_size`, keeping their order: one batch is one pipelined
/// conversation on one pooled connection.
pub fn make_batches(requests: Vec<SegmentRequest>, pipeline_size: usize) -> (r: Vec<
    Vec<SegmentRequest>,
>)
    requires
        pipeline_size >= 1,
    ensures
        spec_flatten_batches(r@) == requests@,
        forall|b: int| 0 <= b < r@.len() ==> 0 < (#[trigger] r@[b])@.len() <= pipeline_size,
{
    let ghost orig = requests@;
    let mut rem = requests;
    let mut r: Vec<Vec<SegmentRequest>> = Vec::new();
    let mut cur: Vec<SegmentRequest> = Vec::new();
    proof {
        assert(spec_flatten_batches(r@) + cur@ + rem@ =~= orig);
    }
    while rem.len() > 0
        invariant
            pipeline_size >= 1,
            cur@.len() < pipeline_size,
            spec_flatten_batches(r@) + cur@ + rem@ == orig,
            forall|b: int| 0 <= b < r@.len() ==> 0 < (#[trigger] r@[b])@.len() <= pipeline_size,
        decreases rem@.len(),
    {
        let ghost cur0 = cur@;
        let ghost rem0 = rem@;
        let req = rem.remove(0);
        cur.push(req);
        proof {
            assert(rem@ =~= rem0.skip(1));
            assert(cur@ + rem@ =~= cur0 + rem0);
            assert(spec_flatten_batches(r@) + (cur@ + rem@) =~= spec_flatten_batches(r@) + cur@
                + rem@);
            assert(spec_flatten_batches(r@) + (cur0 + rem0) =~= spec_flatten_batches(r@) + cur0
                + rem0);
        }
        if cur.len() == pipeline_size {
            proof {
                lemma_flatten_snoc(r@, cur);
                assert(spec_flatten_batches(r@.push(cur)) + Seq::<SegmentRequest>::empty() + rem@
                    =~= spec_flatten_batches(r@) + cur@ + rem@);
            }
            r.push(cur);
            cur = Vec::new();
        }
    }
    if cur.len() > 0 {
        proof {
            lemma_flatten_snoc(r@, cur);
            assert(spec_flatten_batches(r@) + cur@ + rem@ =~= spec_flatten_batches(r@) + cur@);
        }
        r.push(cur);
        return r;
    }
    proof {
        assert(spec_flatten_batches(r@) + cur@ + rem@ =~= spec_flatten_batches(r@));
    }
    r
}

// --- progress weights ----------------------------------------------------

/// What one request contributes to the byte meter: the declared size of
/// its segment, or nothing for a number out of range.
pub open spec fn spec_request_weight(req: SegmentRequest, bytes: Seq<u64>) -> int {
    if 1 <= req.segment_number && req.segment_number <= bytes.len() {
        bytes[req.segment_number - 1] as int
    } else {
        0
    }
}

/// The byte meter contribution of a whole batch.
pub open spec fn spec_weight_sum(reqs: Seq<SegmentRequest>, bytes: Seq<u64>) -> int
    decreases reqs.len(),
{
    if reqs.len() == 0 {
        0
    } else {
        spec_request_weight(reqs[0], bytes) + spec_weight_sum(reqs.skip(1), bytes)
    }
}

pub proof fn lemma_weight_sum_nonneg(reqs: Seq<SegmentRequest>, bytes: Seq<u64>)
    ensures
        spec_weight_sum(reqs, bytes) >= 0,
    decreases reqs.len(),
{
    if reqs.len() > 0 {
        lemma_weight_sum_nonneg(reqs.skip(1), bytes);
    }
}

/// A prefix-suffix split of the weight sum.
pub proof fn lemma_weight_sum_parts(reqs: Seq<SegmentRequest>, bytes: Seq<u64>, i: int)
    requires
        0 <= i <= reqs.len(),
    ensures
        spec_weight_sum(reqs, bytes) == spec_weight_sum(reqs.take(i), bytes) + spec_weight_sum(
            reqs.skip(i),
            bytes,
        ),
    decreases i,
{
    if i == 0 {
        assert(reqs.take(0) =~= Seq::<SegmentRequest>::empty());
        assert(reqs.skip(0) =~= reqs);
    } else {
        assert(reqs.take(i)[0] == reqs[0]);
        assert(reqs.take(i).skip(1) =~= reqs.skip(1).take(i - 1));
        assert(reqs.skip(i) =~= reqs.skip(1).skip(i - 1));
        lemma_weight_sum_parts(reqs.skip(1), bytes, i - 1);
    }
}

/// How far to advance the byte meter for one batch: the declared sizes
/// of its segments, whatever the fetches returned, so the rate and the
/// time-remaining estimate stay stable.
pub fn batch_progress_increment(batch: &Vec<SegmentRequest>, segment_bytes: &Vec<u64>) -> (r: u64)
    requires
        spec_weight_sum(batch@, segment_bytes@) <= u64::MAX,
    ensures
        r == spec_weight_sum(batch@, segment_bytes@),
{
    let n = batch.len();
    let mut total: u64 = 0;
    let mut i: usize = 0;
    proof {
        assert(batch@.take(0) =~= Seq::<SegmentRequest>::empty());
    }
    while i < n
        invariant
            i <= n,
            n == batch@.len(),
            total == spec_weight_sum(batch@.take(i as int), segment_bytes@),
            spec_weight_sum(batch@, segment_bytes@) <= u64::MAX,
        decreases n - i,
    {
        proof {
            lemma_weight_sum_parts(batch@, segment_bytes@, i + 1);
            lemma_weight_sum_parts(batch@.take(i + 1), segment_bytes@, i as int);
            assert(batch@.take(i + 1).take(i as int) =~= batch@.take(i as int));
            assert(batch@.take(i + 1).skip(i as int) =~= seq![batch@[i as int]]);
            assert(spec_weight_sum(seq![batch@[i as int]], segment_bytes@) == spec_request_weight(
                batch@[i as int],
                segment_bytes@,
            )) by {
                let one = seq![batch@[i as int]];
                assert(one[0] == batch@[i as int]);
                assert(one.skip(1) =~= Seq::<SegmentRequest>::empty());
                assert(spec_weight_sum(one, segment_bytes@) == spec_request_weight(
                    one[0],
                    segment_bytes@,
                ) + spec_weight_sum(one.skip(1), segment_bytes@));
            }
            lemma_weight_sum_nonneg(batch@.skip(i + 1), segment_bytes@);
            lemma_weight_sum_nonneg(batch@.take(i as int), segment_bytes@);
        }
        let num = batch[i].segment_number;
        if num >= 1 && (num as usize) <= segment_bytes.len() {
            total = total + segment_bytes[(num - 1) as usize];
        }
        i += 1;
    }
    proof {
        assert(batch@.take(n as int) =~= batch@);
    }
    total
}

// --- reassembly ----------------------------------------------------------

/// The bytes of a fetch outcome, where it has any.
pub open spec fn spec_data_view(o: Option<Vec<u8>>) -> Option<Seq<u8>> {
    match o {
        Some(d) => Some(d@),
        None => None,
    }
}

/// Slots of a file, indexed by segment number minus one, after recording
/// a run of results. A fetched body lands in its slot; numbers out of
/// `[1, total]` are dropped.
pub open spec fn spec_fill_slots(total: int, results: Seq<SegmentResult>) -> Seq<Option<Seq<u8>>>
    decreases results.len(),
{
    if results.len() == 0 {
        Seq::new(total as nat, |i: int| None)
    } else {
        let prev = spec_fill_slots(total, results.drop_last());
        let last = results.last();
        match last.data {
            Some(d) => if 1 <= last.segment_number && last.segment_number <= total {
                prev.update(last.segment_number - 1, Some(d@))
            } else {
                prev
            },
            None => prev,
        }
    }
}

/// The bytes of the non-empty slots, in ascending slot order.
pub open spec fn spec_concat_slots(slots: Seq<Option<Seq<u8>>>) -> Seq<u8>
    decreases slots.len(),
{
    if slots.len() == 0 {
        Seq::empty()
    } else {
        spec_concat_slots(slots.drop_last()) + match slots.last() {
            Some(d) => d,
            None => Seq::<u8>::empty(),
        }
    }
}

/// The number of results whose fetch returned data.
pub open spec fn spec_count_ok(results: Seq<SegmentResult>) -> int
    decreases results.len(),
{
    if results.len() == 0 {
        0
    } else {
        spec_count_ok(results.drop_last()) + if results.last().data is Some {
            1int
        } else {
            0int
        }
    }
}

/// The message ids of the failed results, in result order.
pub open spec fn spec_failed_ids(results: Seq<SegmentResult>) -> Seq<Seq<u8>>
    decreases results.len(),
{
    if results.len() == 0 {
        Seq::empty()
    } else {
        spec_failed_ids(results.drop_last()) + if results.last().data is None {
            seq![results.last().message_id@]
        } else {
            Seq::<Seq<u8>>::empty()
        }
    }
}

/// The views of the slots a reassembly run built.
pub open spec fn spec_slot_views(slots: Seq<Option<Vec<u8>>>) -> Seq<Option<Seq<u8>>> {
    slots.map_values(|o: Option<Vec<u8>>| spec_data_view(o))
}

/// What reassembly yields for one file.
pub struct Assembly {
    /// The output bytes: every fetched slot, in ascending segment order.
    pub data: Vec<u8>,
    pub segments_downloaded: usize,
    pub segments_failed: usize,
    pub failed_message_ids: Vec<Vec<u8>>,
}

/// Reassemble fetched segments: store each fetched body in its slot
/// (segment number minus one; numbers out of `[1, total]` are dropped),
/// then write the non-empty slots out in ascending order.
pub fn assemble_segments(total: usize, results: &Vec<SegmentResult>) -> (r: Assembly)
    ensures
        r.data@ == spec_concat_slots(spec_fill_slots(total as int, results@)),
        r.segments_downloaded == spec_count_ok(results@),
        r.segments_failed == results@.len() - spec_count_ok(results@),
        crate::yenc::seq_views(r.failed_message_ids@) == spec_failed_ids(results@),
{
    let n = results.len();
    let mut slots: Vec<Option<Vec<u8>>> = Vec::new();
    let mut k: usize = 0;
    while k < total
        invariant
            k <= total,
            slots@.len() == k,
            forall|i: int| 0 <= i < k ==> slots@[i] is None,
        decreases total - k,
    {
        slots.push(None);
        k += 1;
    }
    proof {
        assert(spec_slot_views(slots@) =~= spec_fill_slots(total as int, results@.take(0))) by {
            assert(results@.take(0) =~= Seq::<SegmentResult>::empty());
        }
    }
    let mut downloaded: usize = 0;
    let mut failed: usize = 0;
    let mut failed_ids: Vec<Vec<u8>> = Vec::new();
    let mut i: usize = 0;
    proof {
        assert(crate::yenc::seq_views(failed_ids@) =~= spec_failed_ids(results@.take(0)));
    }
    while i < n
        invariant
            i <= n,
            n == results@.len(),
            slots@.len() == total,
            spec_slot_views(slots@) == spec_fill_slots(total as int, results@.take(i as int)),
            downloaded == spec_count_ok(results@.take(i as int)),
            downloaded <= i,
            failed == i - downloaded,
            crate::yenc::seq_views(failed_ids@) == spec_failed_ids(results@.take(i as int)),
        decreases n - i,
    {
        let res = &results[i];
        proof {
            assert(results@.take(i + 1).drop_last() =~= results@.take(i as int));
            assert(results@.take(i + 1).last() == results@[i as int]);
        }
        match &res.data {
            Some(d) => {
                downloaded += 1;
                let num = res.segment_number;
                if num >= 1 && (num as usize) <= total {
                    let idx = (num - 1) as usize;
                    slots.set(idx, Some(crate::text::clone_bytes(d)));
                    proof {
                        assert(spec_slot_views(slots@) =~= spec_fill_slots(
                            total as int,
                            results@.take(i + 1),
                        ));
                    }
                } else {
                    // A segment number outside the file: dropped, never a
                    // crash on a malformed index.
                }
            },
            None => {
                failed += 1;
                failed_ids.push(crate::text::clone_bytes(&res.message_id));
                proof {
                    assert(crate::yenc::seq_views(failed_ids@) =~= spec_failed_ids(
                        results@.take(i + 1),
                    ));
                }
            },
        }
        i += 1;
    }
    proof {
        assert(results@.take(n as int) =~= results@);
    }
    let mut data: Vec<u8> = Vec::new();
    let mut j: usize = 0;
    proof {
        assert(data@ =~= spec_concat_slots(spec_slot_views(slots@).take(0))) by {
            assert(spec_slot_views(slots@).take(0) =~= Seq::<Option<Seq<u8>>>::empty());
        }
    }
    while j < total
        invariant
            j <= total,
            slots@.len() == total,
            data@ == spec_concat_slots(spec_slot_views(slots@).take(j as int)),
            spec_slot_views(slots@) == spec_fill_slots(total as int, results@),
        decreases total - j,
    {
        proof {
            let sv = spec_slot_views(slots@);
            assert(sv.take(j + 1).drop_last() =~= sv.take(j as int));
            assert(sv.take(j + 1).last() == sv[j as int]);
            assert(sv[j as int] == spec_data_view(slots@[j as int]));
        }
        match &slots[j] {
            Some(d) => {
                crate::text::push_all(&mut data, d.as_slice());
            },
            None => {
                proof {
                    assert(data@ + Seq::<u8>::empty() =~= data@);
                }
            },
        }
        j += 1;
    }
    proof {
        assert(spec_slot_views(slots@).take(total as int) =~= spec_slot_views(slots@));
    }
    Assembly {
        data,
        segments_downloaded: downloaded,
        segments_failed: failed,
        failed_message_ids: failed_ids,
    }
}

/// The concatenation of the fetched bodies in result order.
pub open spec fn spec_ordered_data(results: Seq<SegmentResult>) -> Seq<u8>
    decreases results.len(),
{
    if results.len() == 0 {
        Seq::empty()
    } else {
        spec_ordered_data(results.drop_last()) + match results.last().data {
            Some(d) => d@,
            None => Seq::<u8>::empty(),
        }
    }
}

/// Reassembly order: when every result is present, numbered densely
/// `1..=N` in order, the output is exactly the concatenation of the
/// fetched segment bodies in ascending segment order.
pub proof fn lemma_reassembly_in_order(total: int, results: Seq<SegmentResult>)
    requires
        results.len() == total,
        forall|i: int| 0 <= i < results.len() ==> (#[trigger] results[i]).segment_number == i + 1,
        forall|i: int| 0 <= i < results.len() ==> (#[trigger] results[i]).data is Some,
    ensures
        spec_concat_slots(spec_fill_slots(total, results)) == spec_ordered_data(results),
{
    lemma_fill_slots_dense(total, results, total);
    assert(results.take(total) =~= results);
    let slots = spec_fill_slots(total, results);
    lemma_concat_matches(slots, results, total);
    assert(slots.take(total) =~= slots);
    assert(results.take(total) =~= results);
}

proof fn lemma_fill_len(total: int, results: Seq<SegmentResult>)
    requires
        total >= 0,
    ensures
        spec_fill_slots(total, results).len() == total,
    decreases results.len(),
{
    if results.len() > 0 {
        lemma_fill_len(total, results.drop_last());
    }
}

/// With dense in-order results, the first `k` slots carry the first `k`
/// bodies and the rest stay empty.
proof fn lemma_fill_slots_dense(total: int, results: Seq<SegmentResult>, k: int)
    requires
        results.len() == total,
        0 <= k <= total,
        forall|i: int| 0 <= i < results.len() ==> (#[trigger] results[i]).segment_number == i + 1,
        forall|i: int| 0 <= i < results.len() ==> (#[trigger] results[i]).data is Some,
    ensures
        spec_fill_slots(total, results.take(k)).len() == total,
        forall|i: int| 0 <= i < k ==> #[trigger] spec_fill_slots(total, results.take(k))[i]
            == spec_data_view(results[i].data),
        forall|i: int| k <= i < total ==> #[trigger] spec_fill_slots(total, results.take(k))[i]
            is None,
    decreases k,
{
    lemma_fill_len(total, results.take(k));
    if k > 0 {
        lemma_fill_slots_dense(total, results, k - 1);
        assert(results.take(k).drop_last() =~= results.take(k - 1));
        assert(results.take(k).last() == results[k - 1]);
    }
}

proof fn lemma_concat_matches(slots: Seq<Option<Seq<u8>>>, results: Seq<SegmentResult>, k: int)
    requires
        0 <= k <= slots.len(),
        k <= results.len(),
        forall|i: int| 0 <= i < k ==> #[trigger] slots[i] == spec_data_view(results[i].data),
        forall|i: int| 0 <= i < results.len() ==> (#[trigger] results[i]).data is Some,
    ensures
        spec_concat_slots(slots.take(k)) == spec_ordered_data(results.take(k)),
    decreases k,
{
    if k == 0 {
        assert(slots.take(0) =~= Seq::<Option<Seq<u8>>>::empty());
        assert(results.take(0) =~= Seq::<SegmentResult>::empty());
    } else {
        lemma_concat_matches(slots, results, k - 1);
        assert(slots.take(k).drop_last() =~= slots.take(k - 1));
        assert(results.take(k).drop_last() =~= results.take(k - 1));
        assert(slots.take(k).last() == slots[k - 1]);
        assert(results.take(k).last() == results[k - 1]);
    }
}

/// The message id of the first segment with the given number, or empty.
pub open spec fn spec_message_id_of(segs: Seq<Segment>, number: int) -> Seq<u8>
    decreases segs.len(),
{
    if segs.len() == 0 {
        Seq::empty()
    } else if segs[0].number == number {
        segs[0].message_id@
    } else {
        spec_message_id_of(segs.skip(1), number)
    }
}

fn message_id_of(segments: &Vec<Segment>, number: u32) -> (r: Vec<u8>)
    ensures
        r@ == spec_message_id_of(segments@, number as int),
{
    let n = segments.len();
    let mut i: usize = 0;
    proof {
        assert(segments@.skip(0) =~= segments@);
    }
    while i < n
        invariant
            i <= n,
            n == segments@.len(),
            spec_message_id_of(segments@, number as int) == spec_message_id_of(
                segments@.skip(i as int),
                number as int,
            ),
        decreases n - i,
    {
        proof {
            assert(segments@.skip(i as int)[0] == segments@[i as int]);
            assert(segments@.skip(i as int).skip(1) =~= segments@.skip(i + 1));
        }
        if segments[i].number == number {
            return crate::text::clone_bytes(&segments[i].message_id);
        }
        i += 1;
    }
    proof {
        assert(segments@.skip(n as int) =~= Seq::<Segment>::empty());
    }
    Vec::new()
}

/// Attach to each positional result the message id of its segment, for
/// failure reporting.
pub fn attach_message_ids(results: Vec<(u32, Option<Vec<u8>>)>, segments: &Vec<Segment>) -> (r:
    Vec<SegmentResult>)
    ensures
        r@.len() == results@.len(),
        forall|i: int| 0 <= i < r@.len() ==> (#[trigger] r@[i]).segment_number == results@[i].0
            && r@[i].data == results@[i].1 && r@[i].message_id@ == spec_message_id_of(
            segments@,
            results@[i].0 as int,
        ),
{
    let ghost orig = results@;
    let mut rem = results;
    let mut r: Vec<SegmentResult> = Vec::new();
    while rem.len() > 0
        invariant
            r@.len() + rem@.len() == orig.len(),
            rem@ =~= orig.skip(r@.len() as int),
            forall|j: int| 0 <= j < r@.len() ==> (#[trigger] r@[j]).segment_number == orig[j].0
                && r@[j].data == orig[j].1 && r@[j].message_id@ == spec_message_id_of(
                segments@,
                orig[j].0 as int,
            ),
        decreases rem@.len(),
    {
        let ghost k = r@.len() as int;
        let (num, data) = rem.remove(0);
        proof {
            assert(orig.skip(k)[0] == orig[k]);
            assert(orig.skip(k).remove(0) =~= orig.skip(k + 1));
        }
        let mid = message_id_of(segments, num);
        r.push(SegmentResult { segment_number: num, data, message_id: mid });
    }
    proof {
        assert(orig.skip(r@.len() as int).len() == 0);
    }
    r
}

// --- the per-file plan -----------------------------------------------------

/// The downloader itself: the shared pool model behind all transfers.
pub struct Downloader {
    pub pool: crate::pool::ConnectionPool,
}

impl Downloader {
    /// A downloader whose pool is capped at the configured connection
    /// count.
    pub fn new(connections: usize) -> (r: Self)
        ensures
            r.pool.wf(),
            r.pool.cap == connections,
            r.pool.idle == 0,
            r.pool.in_flight == 0,
    {
        Downloader { pool: crate::pool::ConnectionPool::new(connections) }
    }
}

/// What to do for one file of an NZB.
pub enum FilePlan {
    /// A file of exactly the declared size already exists: claim
    /// success without opening a single connection.
    SkipComplete(DownloadResult),
    /// Fetch these batches over pooled connections, then reassemble.
    Fetch(Vec<Vec<SegmentRequest>>),
}

/// Decide how one file is downloaded. Unless a re-download is forced,
/// an existing output of exactly the declared total size is complete —
/// byte-level corruption is the recovery data's business — and no
/// fetch work is planned at all. Otherwise the canonical requests are
/// batched for pipelining.
pub fn plan_file_download(
    file: &NzbFile,
    filename: Vec<u8>,
    path: Vec<u8>,
    existing_len: Option<u64>,
    force_redownload: bool,
    pipeline_size: usize,
) -> (r: FilePlan)
    requires
        file.groups@.len() > 0,
        pipeline_size >= 1,
        spec_total_bytes(file.segments@) <= u64::MAX,
    ensures
        (!force_redownload && existing_len == Some(
            spec_total_bytes(file.segments@) as u64,
        )) <==> r is SkipComplete,
        match r {
            FilePlan::SkipComplete(res) => {
                &&& res.filename@ == filename@
                &&& res.path@ == path@
                &&& res.size == spec_total_bytes(file.segments@)
                &&& res.segments_downloaded == file.segments@.len()
                &&& res.segments_failed == 0
                &&& res.download_time_ms == 0
                &&& res.failed_message_ids@.len() == 0
            },
            FilePlan::Fetch(batches) => {
                &&& spec_flatten_batches(batches@).len() == file.segments@.len()
                &&& (forall|i: int| 0 <= i < file.segments@.len()
                    ==> (#[trigger] spec_flatten_batches(batches@)[i]).segment_number
                        == file.segments@[i].number
                    && spec_flatten_batches(batches@)[i].message_id@
                        == file.segments@[i].message_id@
                    && spec_flatten_batches(batches@)[i].group@ == file.groups@[0]@)
                &&& (forall|b: int| 0 <= b < batches@.len()
                    ==> 0 < (#[trigger] batches@[b])@.len() <= pipeline_size)
            },
        },
{
    let expected = expected_size(&file.segments);
    if should_skip_existing(existing_len, expected, force_redownload) {
        return FilePlan::SkipComplete(
            DownloadResult {
                filename,
                path,
                size: expected,
                segments_downloaded: file.segments.len(),
                segments_failed: 0,
                download_time_ms: 0,
                failed_message_ids: Vec::new(),
            },
        );
    }
    let requests = segment_requests(file);
    FilePlan::Fetch(make_batches(requests, pipeline_size))
}

/// When no connection could be had for a batch inside the configured
/// wait, every one of its requests is reported failed and the file
/// goes on.
pub fn batch_failure_results(batch: &Vec<SegmentRequest>) -> (r: Vec<(u32, Option<Vec<u8>>)>)
    ensures
        r@.len() == batch@.len(),
        forall|i: int| 0 <= i < r@.len() ==> (#[trigger] r@[i]).0 == batch@[i].segment_number
            && r@[i].1 is None,
{
    let n = batch.len();
    let mut r: Vec<(u32, Option<Vec<u8>>)> = Vec::new();
    let mut i: usize = 0;
    while i < n
        invariant
            i <= n,
            n == batch@.len(),
            r@.len() == i,
            forall|j: int| 0 <= j < i ==> (#[trigger] r@[j]).0 == batch@[j].segment_number
                && r@[j].1 is None,
        decreases n - i,
    {
        r.push((batch[i].segment_number, None));
        i += 1;
    }
    r
}

/// The paths of the results with at least one failed segment, in order.
pub open spec fn spec_cleanup_paths(results: Seq<DownloadResult>) -> Seq<Seq<u8>>
    decreases results.len(),
{
    if results.len() == 0 {
        Seq::empty()
    } else {
        spec_cleanup_paths(results.drop_last()) + if results.last().segments_failed > 0 {
            seq![results.last().path@]
        } else {
            Seq::<Seq<u8>>::empty()
        }
    }
}

/// Partial files with failed segments are deletion candidates; complete
/// files never are.
pub fn cleanup_candidates(results: &Vec<DownloadResult>) -> (r: Vec<Vec<u8>>)
    ensures
        crate::yenc::seq_views(r@) == spec_cleanup_paths(results@),
{
    let n = results.len();
    let mut r: Vec<Vec<u8>> = Vec::new();
    let mut i: usize = 0;
    proof {
        assert(crate::yenc::seq_views(r@) =~= spec_cleanup_paths(results@.take(0))) by {
            assert(results@.take(0) =~= Seq::<DownloadResult>::empty());
        }
    }
    while i < n
        invariant
            i <= n,
            n == results@.len(),
            crate::yenc::seq_views(r@) == spec_cleanup_paths(results@.take(i as int)),
        decreases n - i,
    {
        proof {
            assert(results@.take(i + 1).drop_last() =~= results@.take(i as int));
            assert(results@.take(i + 1).last() == results@[i as int]);
        }
        if results[i].segments_failed > 0 {
            r.push(crate::text::clone_bytes(&results[i].path));
            proof {
                assert(crate::yenc::seq_views(r@) =~= spec_cleanup_paths(results@.take(i + 1)));
            }
        } else {
            proof {
                assert(crate::yenc::seq_views(r@) =~= spec_cleanup_paths(results@.take(i + 1)));
            }
        }
        i += 1;
    }
    proof {
        assert(results@.take(n as int) =~= results@);
    }
    r
}

} // verus!
