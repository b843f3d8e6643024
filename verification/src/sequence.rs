//! Timed AVIF sequences: choosing the demuxed stream of each track,
//! gathering and validating sample timing, and planning the re-encode that
//! keeps that timing and the repetition policy.
use crate::args::{visual_filters, visual_filters_of};
use crate::avif::{boxes, box_list, color_of, invalid, one, one_of, refuses, same_time, same_timing, sample_agrees, timing_matches, BoxRange, Samples, Track, EDTS, MOOV, TRAK};
use crate::edits::EditOperation;
use crate::error::check_cancelled;
use crate::metadata::strings_view;
use crate::text::{dec, owned, push_dec, push_signed_dec, push_str, signed_dec};
use std::sync::atomic::AtomicBool;
use crate::edits::Rational;
use crate::error::ExportError;
use vstd::prelude::*;

verus! {

/// Whether `e` refuses the sequence for the reason `t`.
pub open spec fn refused(e: ExportError, t: Seq<char>) -> bool {
    e matches ExportError::Failed(m) && m@ == "AVIF export: "@ + t
}

/// A stream that the demuxer offers, as plain values.
#[derive(Clone, Copy, Debug, Eq, PartialEq, Structural)]
pub struct StreamInfo {
    pub index: usize,
    pub id: i32,
    pub time_base: Rational,
    pub duration: i64,
    pub video: bool,
    pub av1: bool,
}

/// Whether a stream is the timed form of a track: same ID, a time base of
/// one tick of the track's timescale, and the track's positive duration.
pub open spec fn stream_matches(t: Track, s: StreamInfo) -> bool {
    &&& s.id as u32 == t.id
    &&& s.time_base == (Rational { numerator: 1, denominator: t.timescale as i32 })
    &&& s.duration > 0
    &&& s.duration as u64 == t.duration
}

/// How many streams are the timed form of a track.
pub open spec fn match_count(t: Track, ss: Seq<StreamInfo>) -> nat
    decreases ss.len(),
{
    if ss.len() == 0 {
        0
    } else {
        match_count(t, ss.drop_last()) + if stream_matches(t, ss.last()) { 1nat } else { 0nat }
    }
}

proof fn lemma_count_one(t: Track, ss: Seq<StreamInfo>, p: int)
    requires
        0 <= p < ss.len(),
        stream_matches(t, ss[p]),
    ensures
        match_count(t, ss) >= 1,
    decreases ss.len(),
{
    if p < ss.len() - 1 {
        lemma_count_one(t, ss.drop_last(), p);
    }
}

proof fn lemma_count_two(t: Track, ss: Seq<StreamInfo>, p: int, q: int)
    requires
        0 <= p < q < ss.len(),
        stream_matches(t, ss[p]),
        stream_matches(t, ss[q]),
    ensures
        match_count(t, ss) >= 2,
    decreases ss.len(),
{
    if q < ss.len() - 1 {
        lemma_count_two(t, ss.drop_last(), p, q);
    } else {
        lemma_count_one(t, ss.drop_last(), p);
    }
}

/// Chooses the demuxed stream of a track: exactly one stream must be its
/// timed form, an AV1 video stream with a nonnegative ID. Returns that
/// stream's position and ID.
pub fn select_stream(t: &Track, streams: &[StreamInfo]) -> (r: Result<(usize, u32), ExportError>)
    ensures
        match_count(*t, streams@) == 0 ==> (r matches Err(e) && refused(e, "missing timed AVIF track"@)),
        match_count(*t, streams@) >= 2 ==> (r matches Err(e) && refused(e, "ambiguous timed AVIF track"@)),
        forall|p: int| 0 <= p < streams@.len() && match_count(*t, streams@) == 1 && stream_matches(*t, #[trigger] streams@[p]) ==> (
            (!(streams@[p].video && streams@[p].av1) ==> (r matches Err(e) && refused(e, "AVIF sequence contains a non-AV1 video stream"@)))
            && ((streams@[p].video && streams@[p].av1 && streams@[p].id < 0) ==> (r matches Err(e) && refused(e, "out of range integral type conversion attempted"@)))
            && ((streams@[p].video && streams@[p].av1 && streams@[p].id >= 0) ==> r == Ok::<(usize, u32), ExportError>((p as usize, streams@[p].id as u32)))),
        r matches Ok((p, id)) ==> (p < streams@.len()
            && match_count(*t, streams@) == 1
            && stream_matches(*t, streams@[p as int])
            && streams@[p as int].video && streams@[p as int].av1
            && streams@[p as int].id >= 0 && id == streams@[p as int].id),
{
    let mut first: Option<usize> = None;
    let mut i: usize = 0;
    while i < streams.len()
        invariant
            i <= streams@.len(),
            first is None <==> match_count(*t, streams@.take(i as int)) == 0,
            first matches Some(p) ==> p < i && stream_matches(*t, streams@[p as int]) && match_count(*t, streams@.take(i as int)) == 1,
            first matches Some(p) ==> forall|q: int| 0 <= q < i && stream_matches(*t, #[trigger] streams@[q]) ==> q == p,
            first is None ==> forall|q: int| 0 <= q < i ==> !stream_matches(*t, #[trigger] streams@[q]),
        decreases streams@.len() - i,
    {
        let s = streams[i];
        assert(streams@.take(i as int + 1).drop_last() =~= streams@.take(i as int));
        let m = #[verifier::truncate] (s.id as u32) == t.id && s.time_base.numerator == 1
            && s.time_base.denominator == #[verifier::truncate] (t.timescale as i32)
            && s.duration > 0 && s.duration as u64 == t.duration;
        assert(m == stream_matches(*t, streams@[i as int]));
        if m {
            match first {
                Some(p) => {
                    proof {
                        lemma_count_two(*t, streams@, p as int, i as int);
                    }
                    return Err(invalid("ambiguous timed AVIF track"));
                },
                None => {
                    first = Some(i);
                },
            }
        }
        i = i + 1;
    }
    assert(streams@.take(streams@.len() as int) =~= streams@);
    let p = match first {
        Some(p) => p,
        None => return Err(invalid("missing timed AVIF track")),
    };
    let s = streams[p];
    if !(s.video && s.av1) {
        return Err(invalid("AVIF sequence contains a non-AV1 video stream"));
    }
    if s.id < 0 {
        return Err(invalid("out of range integral type conversion attempted"));
    }
    Ok((p, s.id as u32))
}


/// Where `x` goes among the first `p` times of `r`: after every time that
/// is not later than its own.
pub open spec fn slot(r: Seq<(i64, i64)>, x: (i64, i64), p: int) -> int
    decreases p,
{
    if p > 0 && r[p - 1].0 > x.0 {
        slot(r, x, p - 1)
    } else {
        p
    }
}

/// The samples ordered by presentation time; samples with equal times
/// keep the order in which they were demuxed.
pub open spec fn sorted_times(t: Seq<(i64, i64)>) -> Seq<(i64, i64)>
    decreases t.len(),
{
    if t.len() == 0 {
        Seq::empty()
    } else {
        let r = sorted_times(t.drop_last());
        r.insert(slot(r, t.last(), r.len() as int), t.last())
    }
}

/// Presentation times that never decrease.
pub open spec fn ordered(t: Seq<(i64, i64)>) -> bool {
    forall|i: int, j: int| 0 <= i < j < t.len() ==> #[trigger] t[i].0 <= #[trigger] t[j].0
}

/// Presentation times that always increase.
pub open spec fn increasing(t: Seq<(i64, i64)>) -> bool {
    forall|i: int, j: int| 0 <= i < j < t.len() ==> #[trigger] t[i].0 < #[trigger] t[j].0
}

/// No two samples share a presentation time.
pub open spec fn times_distinct(t: Seq<(i64, i64)>) -> bool {
    forall|i: int, j: int| 0 <= i < t.len() && 0 <= j < t.len() && i != j ==> #[trigger] t[i].0 != #[trigger] t[j].0
}

proof fn lemma_slot(r: Seq<(i64, i64)>, x: (i64, i64), p: int)
    requires
        0 <= p <= r.len(),
    ensures
        0 <= slot(r, x, p) <= p,
        forall|k: int| slot(r, x, p) <= k < p ==> #[trigger] r[k].0 > x.0,
        slot(r, x, p) > 0 ==> r[slot(r, x, p) - 1].0 <= x.0,
    decreases p,
{
    if p > 0 && r[p - 1].0 > x.0 {
        lemma_slot(r, x, p - 1);
    }
}

/// Sorting keeps every sample and orders them by presentation time.
pub proof fn lemma_sorted_times(t: Seq<(i64, i64)>)
    ensures
        sorted_times(t).len() == t.len(),
        sorted_times(t).to_multiset() == t.to_multiset(),
        ordered(sorted_times(t)),
    decreases t.len(),
{
    if t.len() == 0 {
        assert(t =~= Seq::<(i64, i64)>::empty());
    } else {
        let r = sorted_times(t.drop_last());
        let x = t.last();
        lemma_sorted_times(t.drop_last());
        lemma_slot(r, x, r.len() as int);
        let p = slot(r, x, r.len() as int);
        let s = r.insert(p, x);
        assert(t =~= t.drop_last().push(x));
        vstd::seq_lib::to_multiset_insert(r, p, x);
        vstd::seq_lib::to_multiset_build(t.drop_last(), x);
        assert(s.to_multiset() =~= t.to_multiset());
        assert(ordered(s)) by {
            assert forall|i: int, j: int| 0 <= i < j < s.len() implies #[trigger] s[i].0 <= #[trigger] s[j].0 by {
                if j < p {
                    assert(s[i] == r[i] && s[j] == r[j]);
                } else if j == p {
                    assert(s[i] == r[i] && s[j] == x);
                    assert(r[i].0 <= r[p - 1].0);
                } else if i < p {
                    assert(s[i] == r[i] && s[j] == r[j - 1]);
                } else if i == p {
                    assert(s[i] == x && s[j] == r[j - 1]);
                } else {
                    assert(s[i] == r[i - 1] && s[j] == r[j - 1]);
                }
            }
        }
    }
}

proof fn lemma_index_of(s: Seq<(i64, i64)>, a: (i64, i64)) -> (p: int)
    requires
        s.to_multiset().count(a) > 0,
    ensures
        0 <= p < s.len() && s[p] == a,
{
    broadcast use vstd::seq_lib::to_multiset_contains;
    assert(s.contains(a));
    choose|p: int| 0 <= p < s.len() && s[p] == a
}

proof fn lemma_second_index(s: Seq<(i64, i64)>, a: (i64, i64)) -> (pq: (int, int))
    requires
        s.to_multiset().count(a) >= 2,
    ensures
        0 <= pq.0 < s.len() && 0 <= pq.1 < s.len() && pq.0 != pq.1 && s[pq.0] == a && s[pq.1] == a,
{
    broadcast use vstd::seq_lib::to_multiset_remove, vstd::multiset::group_multiset_axioms;
    let p = lemma_index_of(s, a);
    assert(s.remove(p).to_multiset().count(a) == s.to_multiset().count(a) - 1);
    let q0 = lemma_index_of(s.remove(p), a);
    let q = if q0 < p { q0 } else { q0 + 1 };
    assert(s[q] == s.remove(p)[q0]);
    (p, q)
}

proof fn lemma_count_at_least_two(s: Seq<(i64, i64)>, p: int, q: int)
    requires
        0 <= p < s.len(),
        0 <= q < s.len(),
        p != q,
        s[p] == s[q],
    ensures
        s.to_multiset().count(s[p]) >= 2,
{
    broadcast use vstd::seq_lib::to_multiset_remove, vstd::seq_lib::to_multiset_contains, vstd::multiset::group_multiset_axioms;
    let a = s[p];
    let q0 = if q < p { q } else { q - 1 };
    assert(s.remove(p)[q0] == a);
    assert(s.remove(p).contains(a));
    assert(s.to_multiset().contains(a));
    assert(s.remove(p).to_multiset().count(a) >= 1);
}

/// The sorted samples have increasing times exactly when no two samples
/// share a time.
pub proof fn lemma_increasing_iff_distinct(t: Seq<(i64, i64)>)
    ensures
        increasing(sorted_times(t)) <==> times_distinct(t),
{
    broadcast use vstd::seq_lib::to_multiset_contains;
    lemma_sorted_times(t);
    let r = sorted_times(t);
    if times_distinct(t) {
        assert forall|i: int, j: int| 0 <= i < j < r.len() implies #[trigger] r[i].0 < #[trigger] r[j].0 by {
            if r[i].0 >= r[j].0 {
                if r[i] == r[j] {
                    lemma_count_at_least_two(r, i, j);
                    let pq = lemma_second_index(t, r[i]);
                    assert(t[pq.0].0 == t[pq.1].0);
                } else {
                    assert(r.contains(r[i]) && r.contains(r[j]));
                    let p = lemma_index_of(t, r[i]);
                    let q = lemma_index_of(t, r[j]);
                    assert(t[p].0 == t[q].0);
                }
            }
        }
    }
    if increasing(r) {
        assert forall|i: int, j: int| 0 <= i < t.len() && 0 <= j < t.len() && i != j implies #[trigger] t[i].0 != #[trigger] t[j].0 by {
            if t[i].0 == t[j].0 {
                if t[i] == t[j] {
                    lemma_count_at_least_two(t, i, j);
                    let pq = lemma_second_index(r, t[i]);
                    assert(r[pq.0].0 == r[pq.1].0);
                    if pq.0 < pq.1 { assert(r[pq.0].0 < r[pq.1].0); } else { assert(r[pq.1].0 < r[pq.0].0); }
                } else {
                    assert(t.contains(t[i]) && t.contains(t[j]));
                    let p = lemma_index_of(r, t[i]);
                    let q = lemma_index_of(r, t[j]);
                    if p < q { assert(r[p].0 < r[q].0); } else { assert(r[q].0 < r[p].0); }
                }
            }
        }
    }
}

/// Sorts sample times by presentation time, keeping the demuxed order of
/// equal times.
fn arrange(t: &Vec<(i64, i64)>) -> (r: Vec<(i64, i64)>)
    ensures
        r@ == sorted_times(t@),
{
    let mut r: Vec<(i64, i64)> = Vec::new();
    let mut i: usize = 0;
    while i < t.len()
        invariant
            i <= t@.len(),
            r@ == sorted_times(t@.take(i as int)),
        decreases t@.len() - i,
    {
        let x = t[i];
        proof {
            lemma_sorted_times(t@.take(i as int));
            assert(t@.take(i as int + 1).drop_last() =~= t@.take(i as int));
            assert(t@.take(i as int + 1).last() == x);
        }
        let mut p = r.len();
        while p > 0 && r[p - 1].0 > x.0
            invariant
                p <= r@.len(),
                slot(r@, x, r@.len() as int) == slot(r@, x, p as int),
            decreases p,
        {
            p = p - 1;
        }
        r.insert(p, x);
        i = i + 1;
    }
    assert(t@.take(t@.len() as int) =~= t@);
    r
}


/// Most samples in one track.
pub const FRAME_LIMIT: usize = 65536;

/// The first gathered track, from position `k` on, that a demuxed stream feeds.
pub open spec fn fed_track(ss: Seq<Samples>, stream: usize, k: int) -> Option<int>
    decreases ss.len() - k,
{
    if k < 0 || k >= ss.len() {
        None
    } else if ss[k].index == stream {
        Some(k)
    } else {
        fed_track(ss, stream, k + 1)
    }
}

/// Two gathered tracks describe the same stream.
pub open spec fn same_track(a: Samples, b: Samples) -> bool {
    &&& a.index == b.index
    &&& a.id == b.id
    &&& a.size == b.size
    &&& a.time_base == b.time_base
}

/// Why a packet of a gathered track is refused, given how many samples the
/// track already has.
pub open spec fn packet_refusal(n: int, corrupt: bool, size: usize, pts: Option<i64>) -> Option<Seq<char>> {
    if corrupt || size == 0 {
        Some("corrupt or empty AVIF sample"@)
    } else if n == FRAME_LIMIT {
        Some("animation exceeds 65536 frames"@)
    } else if pts is None {
        Some("missing sample PTS"@)
    } else {
        None
    }
}

/// Takes one demuxed packet: a packet of a stream that no gathered track
/// reads is skipped; otherwise its presentation time and duration are
/// appended to the first track that reads that stream.
pub fn take_packet(samples: &mut Vec<Samples>, stream: usize, corrupt: bool, size: usize, pts: Option<i64>, duration: i64)
    -> (r: Result<(), ExportError>)
    ensures
        match fed_track(old(samples)@, stream, 0) {
            None => r is Ok && final(samples)@ == old(samples)@,
            Some(k) => match packet_refusal(old(samples)@[k].times@.len() as int, corrupt, size, pts) {
                Some(t) => (r matches Err(e) && refused(e, t)) && final(samples)@ == old(samples)@,
                None => r is Ok
                    && final(samples)@.len() == old(samples)@.len()
                    && (forall|j: int| 0 <= j < old(samples)@.len() && j != k ==> #[trigger] final(samples)@[j] == old(samples)@[j])
                    && same_track(final(samples)@[k], old(samples)@[k])
                    && final(samples)@[k].times@ == old(samples)@[k].times@.push((pts->0, duration)),
            },
        },
{
    let mut k: usize = 0;
    while k < samples.len() && samples[k].index != stream
        invariant
            k <= samples@.len(),
            fed_track(samples@, stream, 0) == fed_track(samples@, stream, k as int),
        decreases samples@.len() - k,
    {
        k = k + 1;
    }
    if k == samples.len() {
        return Ok(());
    }
    if corrupt || size == 0 {
        return Err(invalid("corrupt or empty AVIF sample"));
    }
    if samples[k].times.len() == FRAME_LIMIT {
        return Err(invalid("animation exceeds 65536 frames"));
    }
    let t = match pts {
        Some(t) => t,
        None => return Err(invalid("missing sample PTS")),
    };
    let ghost before = samples@;
    let mut s = samples.remove(k);
    s.times.push((t, duration));
    samples.insert(k, s);
    assert forall|j: int| 0 <= j < before.len() && j != k implies #[trigger] samples@[j] == before[j] by {
        if j < k { assert(samples@[j] == before.remove(k as int)[j]); } else { assert(samples@[j] == before.remove(k as int)[j - 1]); }
    }
    Ok(())
}

/// A timed AVIF sequence: its tracks, and the samples of each timed
/// track, the color track first.
#[derive(Debug)]
pub struct Animation {
    pub tracks: Vec<Track>,
    pub samples: Vec<Samples>,
}

/// `b` is `a` with its samples in presentation order.
pub open spec fn rearranged(a: Samples, b: Samples) -> bool {
    same_track(a, b) && b.times@ == sorted_times(a.times@)
}

/// The timing of a track is usable: it has samples, as many as the
/// container declares (when it declares any), each lasting a positive
/// time, and no two at the same time.
pub open spec fn timing_valid(t: Seq<(i64, i64)>, declared: i64) -> bool {
    &&& t.len() > 0
    &&& (declared > 0 ==> declared == t.len())
    &&& forall|i: int| 0 <= i < t.len() ==> #[trigger] t[i].1 > 0
    &&& times_distinct(t)
}

/// Positions, below `n`, of the tracks with ID `c`.
pub open spec fn firsts(ss: Seq<Samples>, c: u32, n: int) -> Seq<int>
    decreases n,
{
    if n <= 0 {
        Seq::empty()
    } else if ss[n - 1].id == c {
        firsts(ss, c, n - 1).push(n - 1)
    } else {
        firsts(ss, c, n - 1)
    }
}

/// Positions, below `n`, of the tracks with another ID.
pub open spec fn rests(ss: Seq<Samples>, c: u32, n: int) -> Seq<int>
    decreases n,
{
    if n <= 0 {
        Seq::empty()
    } else if ss[n - 1].id != c {
        rests(ss, c, n - 1).push(n - 1)
    } else {
        rests(ss, c, n - 1)
    }
}

/// The gathered tracks, those with the color track's ID first, each group
/// in its own order.
pub open spec fn color_order(ss: Seq<Samples>, c: u32) -> Seq<int> {
    firsts(ss, c, ss.len() as int) + rests(ss, c, ss.len() as int)
}

proof fn lemma_order_len(ss: Seq<Samples>, c: u32, n: int)
    requires
        0 <= n,
    ensures
        firsts(ss, c, n).len() + rests(ss, c, n).len() == n,
    decreases n,
{
    if n > 0 {
        lemma_order_len(ss, c, n - 1);
    }
}

proof fn lemma_order_range(ss: Seq<Samples>, c: u32, n: int)
    requires
        0 <= n,
    ensures
        forall|j: int| 0 <= j < firsts(ss, c, n).len() ==> 0 <= #[trigger] firsts(ss, c, n)[j] < n,
        forall|j: int| 0 <= j < rests(ss, c, n).len() ==> 0 <= #[trigger] rests(ss, c, n)[j] < n,
    decreases n,
{
    if n > 0 {
        lemma_order_range(ss, c, n - 1);
        let f = firsts(ss, c, n - 1);
        let g = rests(ss, c, n - 1);
        assert forall|j: int| 0 <= j < firsts(ss, c, n).len() implies 0 <= #[trigger] firsts(ss, c, n)[j] < n by {
            if j < f.len() { assert(firsts(ss, c, n)[j] == f[j]); }
        }
        assert forall|j: int| 0 <= j < rests(ss, c, n).len() implies 0 <= #[trigger] rests(ss, c, n)[j] < n by {
            if j < g.len() { assert(rests(ss, c, n)[j] == g[j]); }
        }
    }
}

/// Two sample schedules agree: the same number of samples, each starting
/// at the same time after the first sample and lasting as long.
pub open spec fn schedules_match(l: Seq<(i64, i64)>, lt: Rational, r: Seq<(i64, i64)>, rt: Rational) -> bool {
    &&& l.len() == r.len()
    &&& forall|k: int| 0 <= k < l.len() ==> #[trigger] same_time(l[k].0 - l[0].0, r[k].0 - r[0].0, lt, rt)
        && same_time(l[k].1 as int, r[k].1 as int, lt, rt)
}

proof fn lemma_schedules(a: Samples, b: Samples)
    ensures
        timing_matches(a, b) == schedules_match(a.times@, a.time_base, b.times@, b.time_base),
{
    if timing_matches(a, b) {
        assert forall|k: int| 0 <= k < a.times@.len() implies #[trigger] same_time(a.times@[k].0 - a.times@[0].0, b.times@[k].0 - b.times@[0].0, a.time_base, b.time_base)
            && same_time(a.times@[k].1 as int, b.times@[k].1 as int, a.time_base, b.time_base) by {
            assert(sample_agrees(a, b, k));
        }
    }
    if schedules_match(a.times@, a.time_base, b.times@, b.time_base) {
        assert forall|k: int| 0 <= k < a.times@.len() implies #[trigger] sample_agrees(a, b, k) by {
            assert(same_time(a.times@[k].0 - a.times@[0].0, b.times@[k].0 - b.times@[0].0, a.time_base, b.time_base));
        }
    }
}

/// The alpha track, if any, has the color track's size and sample
/// schedule and starts at the same time.
pub open spec fn alpha_agrees(ss: Seq<Samples>, order: Seq<int>) -> bool {
    ss.len() >= 2 ==> {
        let c = ss[order[0]];
        let a = ss[order[1]];
        let ct = sorted_times(c.times@);
        let at = sorted_times(a.times@);
        &&& a.size == c.size
        &&& schedules_match(ct, c.time_base, at, a.time_base)
        &&& at[0].0 * c.time_base.denominator == ct[0].0 * a.time_base.denominator
    }
}

proof fn lemma_durations(t: Seq<(i64, i64)>)
    ensures
        (forall|i: int| 0 <= i < sorted_times(t).len() ==> #[trigger] sorted_times(t)[i].1 > 0)
            <==> (forall|i: int| 0 <= i < t.len() ==> #[trigger] t[i].1 > 0),
{
    broadcast use vstd::seq_lib::to_multiset_contains;
    lemma_sorted_times(t);
    let r = sorted_times(t);
    if forall|i: int| 0 <= i < t.len() ==> #[trigger] t[i].1 > 0 {
        assert forall|i: int| 0 <= i < r.len() implies #[trigger] r[i].1 > 0 by {
            assert(r.contains(r[i]));
            let p = lemma_index_of(t, r[i]);
        }
    }
    if forall|i: int| 0 <= i < r.len() ==> #[trigger] r[i].1 > 0 {
        assert forall|i: int| 0 <= i < t.len() implies #[trigger] t[i].1 > 0 by {
            assert(t.contains(t[i]));
            let p = lemma_index_of(r, t[i]);
        }
    }
}

/// Orders the samples of one track and checks its timing.
fn arranged_track(s: &Samples, declared: i64) -> (r: Result<Samples, ExportError>)
    ensures
        timing_valid(s.times@, declared) ==> (r matches Ok(a) && rearranged(*s, a)),
        !timing_valid(s.times@, declared) ==> (r matches Err(e) && refused(e, "missing or nonpositive sample timing"@)),
{
    let t = arrange(&s.times);
    proof {
        lemma_sorted_times(s.times@);
        lemma_increasing_iff_distinct(s.times@);
        lemma_durations(s.times@);
    }
    let n = t.len();
    if n == 0 || (declared > 0 && declared as u64 != n as u64) {
        return Err(invalid("missing or nonpositive sample timing"));
    }
    let mut i: usize = 0;
    while i < n
        invariant
            n == t@.len(),
            n > 0,
            i <= n,
            t@ == sorted_times(s.times@),
            increasing(t@) <==> times_distinct(s.times@),
            (forall|a: int| 0 <= a < t@.len() ==> #[trigger] t@[a].1 > 0) <==> (forall|a: int| 0 <= a < s.times@.len() ==> #[trigger] s.times@[a].1 > 0),
            forall|a: int| 0 <= a < i ==> #[trigger] t@[a].1 > 0,
            forall|a: int, b: int| 0 <= a < b < i ==> #[trigger] t@[a].0 < #[trigger] t@[b].0,
        decreases n - i,
    {
        if t[i].1 <= 0 {
            assert(!(forall|a: int| 0 <= a < t@.len() ==> #[trigger] t@[a].1 > 0));
            return Err(invalid("missing or nonpositive sample timing"));
        }
        if i > 0 && t[i - 1].0 >= t[i].0 {
            assert(!increasing(t@));
            return Err(invalid("missing or nonpositive sample timing"));
        }
        proof {
            assert forall|a: int, b: int| 0 <= a < b < i + 1 implies #[trigger] t@[a].0 < #[trigger] t@[b].0 by {
                if b == i && a < i - 1 {
                    assert(t@[a].0 < t@[i - 1].0);
                }
            }
        }
        i = i + 1;
    }
    Ok(Samples { index: s.index, id: s.id, size: s.size, time_base: s.time_base, times: t })
}

impl Animation {
    /// Validates gathered samples against the tracks they belong to: each
    /// track's samples are put in presentation order and must have usable
    /// timing (`declared` holds, per track, the frame count the container
    /// declares); the color track comes first, and an alpha track must
    /// match its size and schedule.
    pub fn validated(tracks: Vec<Track>, samples: Vec<Samples>, declared: &[i64]) -> (r: Result<Animation, ExportError>)
        requires
            declared@.len() == samples@.len(),
        ensures
            color_of(tracks@) is None ==> (r matches Err(e) && refused(e, "missing color track"@)),
            forall|c: int| color_of(tracks@) == Some(c) ==> {
                let order = color_order(samples@, #[trigger] tracks@[c].id);
                &&& (exists|k: int| 0 <= k < samples@.len() && !timing_valid(#[trigger] samples@[k].times@, declared@[k]))
                    ==> (r matches Err(e) && refused(e, "missing or nonpositive sample timing"@))
                &&& ((forall|k: int| 0 <= k < samples@.len() ==> timing_valid(#[trigger] samples@[k].times@, declared@[k]))
                    && !alpha_agrees(samples@, order))
                    ==> (r matches Err(e) && refused(e, "alpha dimensions or sample timing differ from color"@))
                &&& r is Ok <==> ((forall|k: int| 0 <= k < samples@.len() ==> timing_valid(#[trigger] samples@[k].times@, declared@[k]))
                    && alpha_agrees(samples@, order))
                &&& r matches Ok(a) ==> {
                    &&& a.tracks@ == tracks@
                    &&& a.samples@.len() == samples@.len()
                    &&& forall|j: int| 0 <= j < samples@.len() ==> rearranged(samples@[order[j]], #[trigger] a.samples@[j])
                }
            },
    {
        let mut c: usize = 0;
        while c < tracks.len() && tracks[c].alpha_for.is_some()
            invariant
                c <= tracks@.len(),
                forall|j: int| 0 <= j < c ==> (#[trigger] tracks@[j]).alpha_for is Some,
            decreases tracks@.len() - c,
        {
            c = c + 1;
        }
        if c == tracks.len() {
            return Err(invalid("missing color track"));
        }
        proof {
            let w = choose|i: int| 0 <= i < tracks@.len() && tracks@[i].alpha_for is None
                && forall|j: int| 0 <= j < i ==> tracks@[j].alpha_for is Some;
            assert(0 <= c < tracks@.len() && tracks@[c as int].alpha_for is None && forall|j: int| 0 <= j < c ==> tracks@[j].alpha_for is Some);
            assert(w == c as int);
            assert(color_of(tracks@) == Some(c as int));
        }
        let cid = tracks[c].id;
        let ghost ss = samples@;
        let mut front: Vec<Samples> = Vec::new();
        let mut back: Vec<Samples> = Vec::new();
        let mut k: usize = 0;
        while k < samples.len()
            invariant
                ss == samples@,
                declared@.len() == ss.len(),
                color_of(tracks@) == Some(c as int),
                c < tracks@.len(),
                cid == tracks@[c as int].id,
                k <= ss.len(),
                forall|j: int| 0 <= j < k ==> timing_valid(#[trigger] ss[j].times@, declared@[j]),
                front@.len() == firsts(ss, cid, k as int).len(),
                back@.len() == rests(ss, cid, k as int).len(),
                forall|j: int| 0 <= j < front@.len() ==> rearranged(ss[firsts(ss, cid, k as int)[j]], #[trigger] front@[j]),
                forall|j: int| 0 <= j < back@.len() ==> rearranged(ss[rests(ss, cid, k as int)[j]], #[trigger] back@[j]),
            decreases ss.len() - k,
        {
            let a = match arranged_track(&samples[k], declared[k]) {
                Ok(a) => a,
                Err(e) => return Err(e),
            };
            if a.id == cid {
                front.push(a);
            } else {
                back.push(a);
            }
            k = k + 1;
        }
        proof {
            lemma_order_len(ss, cid, ss.len() as int);
            lemma_order_range(ss, cid, ss.len() as int);
        }
        let ghost fl = front@.len();
        let ghost order = color_order(ss, cid);
        front.append(&mut back);
        let rs = front;
        assert forall|j: int| 0 <= j < ss.len() implies rearranged(ss[order[j]], #[trigger] rs@[j]) by {
            if j < fl {
                assert(order[j] == firsts(ss, cid, ss.len() as int)[j]);
            } else {
                assert(order[j] == rests(ss, cid, ss.len() as int)[j - fl]);
            }
        }
        if rs.len() >= 2 {
            let same = same_timing(&rs[0], &rs[1]);
            proof {
                lemma_schedules(rs@[0], rs@[1]);
                assert(rearranged(ss[order[0]], rs@[0]));
                assert(rearranged(ss[order[1]], rs@[1]));
                assert(0 <= order[0] < ss.len() && 0 <= order[1] < ss.len());
                assert(timing_valid(ss[order[0]].times@, declared@[order[0]]));
                assert(timing_valid(ss[order[1]].times@, declared@[order[1]]));
                lemma_sorted_times(ss[order[0]].times@);
                lemma_sorted_times(ss[order[1]].times@);
            }
            let c0 = rs[0].times[0].0 as i128;
            let a0 = rs[1].times[0].0 as i128;
            let cd = rs[0].time_base.denominator as i128;
            let ad = rs[1].time_base.denominator as i128;
            assert(-0x8000000000000000 * 0x80000000 <= a0 * cd <= 0x8000000000000000 * 0x80000000) by (nonlinear_arith)
                requires -0x8000000000000000 <= a0 <= 0x8000000000000000, -0x80000000 <= cd <= 0x80000000;
            assert(-0x8000000000000000 * 0x80000000 <= c0 * ad <= 0x8000000000000000 * 0x80000000) by (nonlinear_arith)
                requires -0x8000000000000000 <= c0 <= 0x8000000000000000, -0x80000000 <= ad <= 0x80000000;
            if rs[1].size.0 != rs[0].size.0 || rs[1].size.1 != rs[0].size.1 || !same || a0 * cd != c0 * ad {
                return Err(invalid("alpha dimensions or sample timing differ from color"));
            }
        }
        Ok(Animation { tracks, samples: rs })
    }
}


/// The first track, from position `k` on, with the given ID.
pub open spec fn track_with(ts: Seq<Track>, id: u32, k: int) -> Option<int>
    decreases ts.len() - k,
{
    if k < 0 || k >= ts.len() {
        None
    } else if ts[k].id == id {
        Some(k)
    } else {
        track_with(ts, id, k + 1)
    }
}

/// The sequence has samples and a track for its first (color) samples.
pub open spec fn sequence_wf(ts: Seq<Track>, ss: Seq<Samples>) -> bool {
    ss.len() > 0 && track_with(ts, ss[0].id, 0) is Some
}

/// The color track: the first track with the ID of the first samples.
pub open spec fn color_track(ts: Seq<Track>, ss: Seq<Samples>) -> Track {
    ts[track_with(ts, ss[0].id, 0)->0]
}

/// Whether an edit freely rotates the picture, which can expose
/// transparent corners.
pub open spec fn rotates(ops: Seq<EditOperation>) -> bool {
    exists|i: int| 0 <= i < ops.len() && ops[i] is RotateImage
}

/// Each filter after a comma.
pub open spec fn prefixed(v: Seq<Seq<char>>) -> Seq<char>
    decreases v.len(),
{
    if v.len() == 0 {
        Seq::empty()
    } else {
        prefixed(v.drop_last()) + ","@ + v.last()
    }
}

/// The filter graph that merges color and alpha, undoes premultiplication,
/// applies the edits and splits color from alpha again for the encoder.
pub open spec fn sequence_graph(c: usize, alpha: Option<usize>, premultiplied: bool, visual: Seq<Seq<char>>, alpha_output: bool) -> Seq<char> {
    let head = match alpha {
        Some(a) => "[0:"@ + dec(c as nat) + "]scale=flags=bilinear,format=rgba[color];[0:"@ + dec(a as nat)
            + "]format=gray[alpha];[color][alpha]alphamerge"@,
        None => "[0:"@ + dec(c as nat) + "]scale=flags=bilinear,format=rgba"@,
    };
    let unpremultiply = if premultiplied { ",unpremultiply=inplace=1"@ } else { Seq::<char>::empty() };
    let tail = if alpha_output {
        ",split[color][alpha];[color]format=gbrp[outv];[alpha]alphaextract,format=gray,setparams=colorspace=bt709[outa]"@
    } else {
        ",format=gbrp[outv]"@
    };
    head + unpremultiply + prefixed(visual) + tail
}

/// What re-encoding a sequence needs: whether an alpha track is written,
/// the filter graph, the loop count to declare, the encoder time base, and
/// whether an undeclared repetition policy must be restored afterwards.
#[derive(Debug)]
pub struct SequencePlan {
    pub alpha_output: bool,
    pub graph: String,
    pub loops: u32,
    pub time_base: Rational,
    pub restore_repetition: bool,
}

impl Animation {
    /// The color track.
    pub fn color(&self) -> (r: Track)
        requires
            sequence_wf(self.tracks@, self.samples@),
        ensures
            r == color_track(self.tracks@, self.samples@),
    {
        let id = self.samples[0].id;
        let mut k: usize = 0;
        while k < self.tracks.len() && self.tracks[k].id != id
            invariant
                k <= self.tracks@.len(),
                id == self.samples@[0].id,
                track_with(self.tracks@, id, 0) == track_with(self.tracks@, id, k as int),
                track_with(self.tracks@, id, 0) is Some,
            decreases self.tracks@.len() - k,
        {
            k = k + 1;
        }
        self.tracks[k]
    }

    /// Plans the re-encode of a sequence with edits: a sequence needs two
    /// samples or more, and a premultiplied color track must name the alpha
    /// track that is present.
    pub fn plan(&self, ops: &[EditOperation]) -> (r: Result<SequencePlan, ExportError>)
        requires
            sequence_wf(self.tracks@, self.samples@),
        ensures
            ({
                let color = color_track(self.tracks@, self.samples@);
                let ss = self.samples@;
                let single = ss[0].times@.len() < 2;
                let bad_reference = color.premultiplied_with matches Some(a) && !(ss.len() > 1 && ss[1].id == a);
                &&& single ==> (r matches Err(e) && refused(e, "single-frame AVIF sequences need a sequence-preserving muxer"@))
                &&& (!single && bad_reference) ==> (r matches Err(e) && refused(e, "invalid premultiplied alpha reference"@))
                &&& (!single && !bad_reference) ==> (r matches Ok(p) && {
                    let alpha_output = ss.len() > 1 || rotates(ops@);
                    &&& p.alpha_output == alpha_output
                    &&& p.graph@ == sequence_graph(ss[0].index, if ss.len() > 1 { Some(ss[1].index) } else { None },
                        color.premultiplied_with is Some, visual_filters_of(ops@), alpha_output)
                    &&& p.loops == (match color.loops { Some(n) => n, None => 1u32 })
                    &&& p.time_base == ss[0].time_base
                    &&& p.restore_repetition == color.loops is None
                })
            }),
    {
        if self.samples[0].times.len() < 2 {
            return Err(invalid("single-frame AVIF sequences need a sequence-preserving muxer"));
        }
        let color = self.color();
        let n = self.samples.len();
        if let Some(a) = color.premultiplied_with {
            if !(n > 1 && self.samples[1].id == a) {
                return Err(invalid("invalid premultiplied alpha reference"));
            }
        }
        let mut rotation = false;
        let mut i: usize = 0;
        while i < ops.len()
            invariant
                i <= ops@.len(),
                rotation <==> exists|k: int| 0 <= k < i && (#[trigger] ops@[k]) is RotateImage,
            decreases ops@.len() - i,
        {
            if let EditOperation::RotateImage(_) = ops[i] {
                rotation = true;
            }
            i = i + 1;
        }
        let alpha_output = n > 1 || rotation;
        let mut graph = owned("[0:");
        push_dec(&mut graph, self.samples[0].index as u64);
        if n > 1 {
            push_str(&mut graph, "]scale=flags=bilinear,format=rgba[color];[0:");
            push_dec(&mut graph, self.samples[1].index as u64);
            push_str(&mut graph, "]format=gray[alpha];[color][alpha]alphamerge");
        } else {
            push_str(&mut graph, "]scale=flags=bilinear,format=rgba");
        }
        let ghost head = graph@;
        if color.premultiplied_with.is_some() {
            push_str(&mut graph, ",unpremultiply=inplace=1");
        }
        let ghost middle = graph@;
        let visual = visual_filters(ops);
        let mut k: usize = 0;
        while k < visual.len()
            invariant
                k <= visual@.len(),
                graph@ == middle + prefixed(strings_view(visual@).take(k as int)),
            decreases visual@.len() - k,
        {
            push_str(&mut graph, ",");
            push_str(&mut graph, visual[k].as_str());
            proof {
                let v = strings_view(visual@);
                assert(v.take(k as int + 1).drop_last() =~= v.take(k as int));
            }
            k = k + 1;
        }
        assert(strings_view(visual@).take(visual@.len() as int) =~= strings_view(visual@));
        if alpha_output {
            push_str(&mut graph, ",split[color][alpha];[color]format=gbrp[outv];[alpha]alphaextract,format=gray,setparams=colorspace=bt709[outa]");
        } else {
            push_str(&mut graph, ",format=gbrp[outv]");
        }
        let loops = match color.loops {
            Some(l) => l,
            None => 1,
        };
        Ok(SequencePlan {
            alpha_output,
            graph,
            loops,
            time_base: self.samples[0].time_base,
            restore_repetition: color.loops.is_none(),
        })
    }
}

/// The encoder arguments that re-encode a sequence through the filter graph
/// stored at `graph`, keeping each sample's timing.
pub open spec fn sequence_args(source: Seq<char>, graph: Seq<char>, output: Seq<char>, alpha_output: bool, tb: Rational, loops: u32) -> Seq<Seq<char>> {
    seq!["-hide_banner"@, "-loglevel"@, "error"@, "-nostdin"@, "-nostats"@, "-progress"@, "pipe:1"@,
        "-xerror"@, "-err_detect"@, "explode"@, "-i"@, source, "-/filter_complex"@, graph, "-map"@, "[outv]"@]
    + (if alpha_output { seq!["-map"@, "[outa]"@, "-colorspace:v:1"@, "bt709"@] } else { Seq::empty() })
    + seq!["-map_metadata"@, "-1"@, "-c:v"@, "libaom-av1"@, "-crf"@, "0"@, "-cpu-used"@, "6"@, "-threads"@, "1"@,
        "-fps_mode"@, "passthrough"@, "-enc_time_base"@,
        signed_dec(tb.numerator as int) + "/"@ + signed_dec(tb.denominator as int), "-loop"@, dec(loops as nat), output]
}

fn push_arg(v: &mut Vec<String>, t: &str)
    ensures
        strings_view(final(v)@) == strings_view(old(v)@).push(t@),
{
    v.push(owned(t));
    assert(strings_view(v@) =~= strings_view(old(v)@).push(t@));
}

/// The encoder arguments of a planned sequence re-encode.
pub fn sequence_arguments(source: &str, graph: &str, output: &str, plan: &SequencePlan) -> (r: Vec<String>)
    ensures
        strings_view(r@) == sequence_args(source@, graph@, output@, plan.alpha_output, plan.time_base, plan.loops),
{
    let mut v: Vec<String> = Vec::new();
    push_arg(&mut v, "-hide_banner");
    push_arg(&mut v, "-loglevel");
    push_arg(&mut v, "error");
    push_arg(&mut v, "-nostdin");
    push_arg(&mut v, "-nostats");
    push_arg(&mut v, "-progress");
    push_arg(&mut v, "pipe:1");
    push_arg(&mut v, "-xerror");
    push_arg(&mut v, "-err_detect");
    push_arg(&mut v, "explode");
    push_arg(&mut v, "-i");
    push_arg(&mut v, source);
    push_arg(&mut v, "-/filter_complex");
    push_arg(&mut v, graph);
    push_arg(&mut v, "-map");
    push_arg(&mut v, "[outv]");
    let ghost first = strings_view(v@);
    if plan.alpha_output {
        push_arg(&mut v, "-map");
        push_arg(&mut v, "[outa]");
        push_arg(&mut v, "-colorspace:v:1");
        push_arg(&mut v, "bt709");
    }
    let ghost second = strings_view(v@);
    push_arg(&mut v, "-map_metadata");
    push_arg(&mut v, "-1");
    push_arg(&mut v, "-c:v");
    push_arg(&mut v, "libaom-av1");
    push_arg(&mut v, "-crf");
    push_arg(&mut v, "0");
    push_arg(&mut v, "-cpu-used");
    push_arg(&mut v, "6");
    push_arg(&mut v, "-threads");
    push_arg(&mut v, "1");
    push_arg(&mut v, "-fps_mode");
    push_arg(&mut v, "passthrough");
    push_arg(&mut v, "-enc_time_base");
    let mut base = String::new();
    push_signed_dec(&mut base, plan.time_base.numerator as i64);
    push_str(&mut base, "/");
    push_signed_dec(&mut base, plan.time_base.denominator as i64);
    push_arg(&mut v, base.as_str());
    push_arg(&mut v, "-loop");
    let loops = crate::text::decimal(plan.loops as u64);
    push_arg(&mut v, loops.as_str());
    push_arg(&mut v, output);
    let ghost spec = sequence_args(source@, graph@, output@, plan.alpha_output, plan.time_base, plan.loops);
    assert(first =~= spec.take(16));
    assert(strings_view(v@) =~= spec);
    v
}


/// The bytes with the four-byte box kind at `at` renamed `free`.
pub open spec fn renamed_free(b: Seq<u8>, at: int) -> Seq<u8> {
    b.update(at, 0x66u8).update(at + 1, 0x72u8).update(at + 2, 0x65u8).update(at + 3, 0x65u8)
}

/// Renames, in each track box from position `k` on, its edit list box
/// (when it has one) to `free`.
pub open spec fn freed_from(b: Seq<u8>, movie: Seq<BoxRange>, k: int) -> Result<Seq<u8>, Seq<char>>
    decreases movie.len() - k,
{
    if k < 0 || k >= movie.len() {
        Ok(b)
    } else if movie[k].kind != TRAK {
        freed_from(b, movie, k + 1)
    } else {
        match box_list(b, movie[k].start as int, movie[k].end as int) {
            Err(t) => Err(t),
            Ok(children) => match one_of(children, EDTS) {
                Err(t) => Err(t),
                Ok(None) => freed_from(b, movie, k + 1),
                Ok(Some(e)) => freed_from(renamed_free(b, e.header + 4), movie, k + 1),
            },
        }
    }
}

/// A saved sequence whose tracks no longer declare a repetition: every
/// track's edit list box is renamed `free`, which keeps all box offsets.
pub open spec fn edit_lists_freed(b: Seq<u8>) -> Result<Seq<u8>, Seq<char>> {
    match box_list(b, 0, b.len() as int) {
        Err(t) => Err(t),
        Ok(root) => match one_of(root, MOOV) {
            Err(t) => Err(t),
            Ok(None) => Err("saved sequence has no moov"@),
            Ok(Some(m)) => match box_list(b, m.start as int, m.end as int) {
                Err(t) => Err(t),
                Ok(movie) => freed_from(b, movie, 0),
            },
        },
    }
}

/// Removes the repetition that an encoder declared where the source
/// declared none, by renaming each track's edit list box.
pub fn free_edit_lists(bytes: &mut Vec<u8>, cancelled: &AtomicBool) -> (r: Result<(), ExportError>)
    ensures
        r is Ok ==> edit_lists_freed(old(bytes)@) == Ok::<Seq<u8>, Seq<char>>(final(bytes)@),
        r matches Err(e) ==> e is Cancelled || (edit_lists_freed(old(bytes)@) matches Err(t) && refuses(e, t)),
        r matches Err(ExportError::Cancelled) ==> old(bytes)@.len() > 0,
{
    let n = bytes.len();
    let root = match boxes(bytes.as_slice(), 0, n as u64, cancelled) {
        Ok(v) => v,
        Err(e) => return Err(e),
    };
    let m = match one(root.as_slice(), MOOV) {
        Ok(Some(m)) => m,
        Ok(None) => return Err(invalid("saved sequence has no moov")),
        Err(e) => return Err(e),
    };
    let movie = match boxes(bytes.as_slice(), m.start, m.end, cancelled) {
        Ok(v) => v,
        Err(e) => return Err(e),
    };
    assert(n > 0) by {
        if n == 0 {
            assert(root@.contains(m));
        }
    }
    let ghost initial_bytes = bytes@;
    let mut k: usize = 0;
    while k < movie.len()
        invariant
            n > 0,
            old(bytes)@.len() == n,
            k <= movie@.len(),
            bytes@.len() == n,
            crate::avif::boxes_within(movie@, n as int),
            edit_lists_freed(initial_bytes) == freed_from(bytes@, movie@, k as int),
            initial_bytes == old(bytes)@,
        decreases movie@.len() - k,
    {
        let item = movie[k];
        if item.kind == TRAK {
            let children = match boxes(bytes.as_slice(), item.start, item.end, cancelled) {
                Ok(v) => v,
                Err(e) => return Err(e),
            };
            match one(children.as_slice(), EDTS) {
                Ok(Some(e)) => {
                    assert(children@.contains(e));
                    let at = (e.header + 4) as usize;
                    bytes.set(at, 0x66u8);
                    bytes.set(at + 1, 0x72u8);
                    bytes.set(at + 2, 0x65u8);
                    bytes.set(at + 3, 0x65u8);
                },
                Ok(None) => {},
                Err(e) => return Err(e),
            }
        }
        k = k + 1;
    }
    Ok(())
}


/// The samples that output track `i` is compared with: the source track at
/// the same position, or the color track where the source has none there.
pub open spec fn expected_samples(src: Seq<Samples>, i: int) -> Samples {
    if i < src.len() { src[i] } else { src[0] }
}

/// The saved sequence keeps the source's repetition, has an alpha track
/// exactly when one was written, and has the edited size.
pub open spec fn controls_agree(src: Track, out: Track, out_samples: Seq<Samples>, alpha_output: bool, size: (u32, u32)) -> bool {
    &&& out.loops == src.loops
    &&& out_samples.len() == (if alpha_output { 2int } else { 1int })
    &&& out_samples[0].size == size
}

impl Animation {
    /// Whether the sequence has samples and a color track for them.
    pub fn well_formed(&self) -> (r: bool)
        ensures
            r == sequence_wf(self.tracks@, self.samples@),
    {
        if self.samples.len() == 0 {
            return false;
        }
        let id = self.samples[0].id;
        let mut k: usize = 0;
        while k < self.tracks.len() && self.tracks[k].id != id
            invariant
                k <= self.tracks@.len(),
                self.samples@.len() > 0,
                id == self.samples@[0].id,
                track_with(self.tracks@, id, 0) == track_with(self.tracks@, id, k as int),
            decreases self.tracks@.len() - k,
        {
            k = k + 1;
        }
        k < self.tracks.len()
    }

    /// Checks a saved re-encode against the source sequence: the same
    /// repetition, the planned alpha track, the edited size, and each
    /// track's frame count and timing.
    pub fn check_output(&self, output: &Animation, alpha_output: bool, size: (u32, u32), cancelled: &AtomicBool) -> (r: Result<(), ExportError>)
        requires
            sequence_wf(self.tracks@, self.samples@),
            sequence_wf(output.tracks@, output.samples@),
        ensures
            ({
                let agree = controls_agree(color_track(self.tracks@, self.samples@), color_track(output.tracks@, output.samples@),
                    output.samples@, alpha_output, size);
                let timed = forall|i: int| 0 <= i < output.samples@.len()
                    ==> timing_matches(expected_samples(self.samples@, i), #[trigger] output.samples@[i]);
                &&& !agree ==> (r matches Err(e) && refused(e, "saved loop or alpha controls differ"@))
                &&& (agree && !timed) ==> (r matches Err(e) && refused(e, "saved frame count or timing differs"@))
                &&& (agree && timed) ==> (r is Ok || r == Err::<(), ExportError>(ExportError::Cancelled))
            }),
    {
        let src = self.color();
        let out = output.color();
        let same_loops = match (src.loops, out.loops) {
            (Some(a), Some(b)) => a == b,
            (None, None) => true,
            _ => false,
        };
        let count: usize = if alpha_output { 2 } else { 1 };
        if !same_loops || output.samples.len() != count || output.samples[0].size.0 != size.0 || output.samples[0].size.1 != size.1 {
            return Err(invalid("saved loop or alpha controls differ"));
        }
        let mut i: usize = 0;
        while i < output.samples.len()
            invariant
                i <= output.samples@.len(),
                self.samples@.len() > 0,
                controls_agree(color_track(self.tracks@, self.samples@), color_track(output.tracks@, output.samples@),
                    output.samples@, alpha_output, size),
                forall|j: int| 0 <= j < i ==> timing_matches(expected_samples(self.samples@, j), #[trigger] output.samples@[j]),
            decreases output.samples@.len() - i,
        {
            let expected = if i < self.samples.len() { &self.samples[i] } else { &self.samples[0] };
            assert(*expected == expected_samples(self.samples@, i as int));
            if !same_timing(expected, &output.samples[i]) {
                assert(!timing_matches(expected_samples(self.samples@, i as int), output.samples@[i as int]));
                return Err(invalid("saved frame count or timing differs"));
            }
            i = i + 1;
        }
        check_cancelled(cancelled)
    }
}

} // verus!
