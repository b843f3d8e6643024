//! The filter graph of a timeline edit: the source streams are split, each
//! selected source interval is cut and retimed, and the pieces are joined
//! before the picture edits apply.
use crate::args::{codec_arguments, codecs, contains_text, join, join_with, trim_filter, trim_text, visual_filters, visual_filters_of, time_base, ExportStreams};
use crate::edits::{EditOperation, MediaKind, MediaTime, Rational, TimeRange};
use crate::error::ExportError;
use crate::metadata::strings_view;
use crate::text::{dec, owned, push_dec, push_signed_wide, push_str, signed_dec};
use vstd::prelude::*;

verus! {

/// One span of a timeline, with what the caller computed in floating
/// point: the tempo filters and the volume filter of its audio (each
/// absent when its factor is one), and the number of audio samples that
/// the span occupies on the joined timeline.
pub struct TimelineSpan {
    pub source: TimeRange,
    /// Nanoseconds of the span on the edited timeline.
    pub duration: i64,
    pub tempo: Vec<String>,
    pub volume: Option<String>,
    pub samples: u64,
}

/// `[{prefix}s0][{prefix}s1]...` for `n` outputs.
pub open spec fn split_outputs(prefix: Seq<char>, n: nat) -> Seq<char>
    decreases n,
{
    if n == 0 {
        Seq::empty()
    } else {
        split_outputs(prefix, (n - 1) as nat) + "["@ + prefix + "s"@ + dec((n - 1) as nat) + "]"@
    }
}

/// The filter that splits a source stream into one copy per span.
pub open spec fn split_filter(index: usize, split: Seq<char>, prefix: Seq<char>, n: nat) -> Seq<char> {
    "[0:"@ + dec(index as nat) + "]"@ + split + "="@ + dec(n) + split_outputs(prefix, n)
}

/// The source interval of a span, in nanoseconds.
pub open spec fn source_length(s: TimelineSpan) -> int {
    s.source.end.nanoseconds - s.source.start.nanoseconds
}

/// The video piece of span `i`: its interval, retimed to its edited
/// duration and the master rate.
pub open spec fn video_piece(i: nat, s: TimelineSpan, tb: Rational, rate: Seq<char>) -> Seq<char> {
    "[vs"@ + dec(i) + "]"@ + trim_text("trim"@, Some(s.source.start), Some(s.source.end), tb)->0
        + ",setpts=(PTS-STARTPTS)*"@ + signed_dec(s.duration as int) + "/"@ + signed_dec(source_length(s)) + "/"@ + rate
        + "[v"@ + dec(i) + "]"@
}

/// The audio filters of a span: its interval, the tempo and volume, then
/// padding and cutting to the planned sample count.
pub open spec fn audio_filters_of(s: TimelineSpan, tb: Rational) -> Seq<Seq<char>> {
    seq![trim_text("atrim"@, Some(s.source.start), Some(s.source.end), tb)->0, "asetpts=PTS-STARTPTS"@, "aformat=sample_fmts=flt"@]
        + strings_view(s.tempo@)
        + (match s.volume { Some(v) => seq![v@], None => Seq::empty() })
        + seq!["apad=whole_len="@ + dec(s.samples as nat), "atrim=end_sample="@ + dec(s.samples as nat)]
}

/// The audio piece of span `i`.
pub open spec fn audio_piece(i: nat, s: TimelineSpan, tb: Rational) -> Seq<char> {
    "[as"@ + dec(i) + "]"@ + join(audio_filters_of(s, tb), ","@) + "[a"@ + dec(i) + "]"@
}

/// The pieces of the first `k` spans.
pub open spec fn pieces(spans: Seq<TimelineSpan>, st: ExportStreams, rate: Seq<char>, k: int) -> Seq<Seq<char>>
    decreases k,
{
    if k <= 0 {
        Seq::empty()
    } else {
        pieces(spans, st, rate, k - 1)
            + (match st.video { Some((_, tb)) => seq![video_piece((k - 1) as nat, spans[k - 1], tb, rate)], None => Seq::empty() })
            + (match st.audio { Some((_, tb)) => seq![audio_piece((k - 1) as nat, spans[k - 1], tb)], None => Seq::empty() })
    }
}

/// The join inputs of the first `k` spans.
pub open spec fn join_inputs(st: ExportStreams, k: int) -> Seq<char>
    decreases k,
{
    if k <= 0 {
        Seq::empty()
    } else {
        join_inputs(st, k - 1)
            + (if st.video is Some { "[v"@ + dec((k - 1) as nat) + "]"@ } else { Seq::empty() })
            + (if st.audio is Some { "[a"@ + dec((k - 1) as nat) + "]"@ } else { Seq::empty() })
    }
}

/// The picture edits after the join; OpenH264 gets a copy filter, and an
/// empty chain is a null filter.
pub open spec fn joined_visual(ops: Seq<EditOperation>, codec: Seq<Seq<char>>) -> Seq<Seq<char>> {
    let v = visual_filters_of(ops);
    let w = if codec.contains("libopenh264"@) { v.push("copy"@) } else { v };
    if w.len() == 0 { seq!["null"@] } else { w }
}

/// The whole graph of a timeline export.
pub open spec fn timeline_graph(ops: Seq<EditOperation>, kind: MediaKind, target: Seq<char>, hardware: bool,
    st: ExportStreams, spans: Seq<TimelineSpan>, rate: Seq<char>) -> Seq<char> {
    let n = spans.len();
    let splits = (match st.video { Some((i, _)) => seq![split_filter(i, "split"@, "v"@, n)], None => Seq::empty() })
        + (match st.audio { Some((i, _)) => seq![split_filter(i, "asplit"@, "a"@, n)], None => Seq::empty() });
    let outputs = (if st.video is Some { "[joinedv]"@ } else { Seq::empty() }) + (if st.audio is Some { "[outa]"@ } else { Seq::empty() });
    let joined = join_inputs(st, n as int) + "concat=n="@ + dec(n) + ":v="@ + (if st.video is Some { "1"@ } else { "0"@ })
        + ":a="@ + (if st.audio is Some { "1"@ } else { "0"@ }) + outputs;
    let tail = if st.video is Some {
        seq!["[joinedv]"@ + join(joined_visual(ops, codecs(kind, target, hardware)), ","@) + "[outv]"@]
    } else {
        Seq::empty()
    };
    join(splits + pieces(spans, st, rate, n as int) + seq![joined] + tail, ";"@)
}

fn push_arg(v: &mut Vec<String>, t: String)
    ensures
        strings_view(final(v)@) == strings_view(old(v)@).push(t@),
{
    let ghost before = strings_view(v@);
    v.push(t);
    assert(strings_view(v@) =~= before.push(t@));
}

fn split_text(index: usize, split: &str, prefix: &str, n: usize) -> (r: String)
    ensures
        r@ == split_filter(index, split@, prefix@, n as nat),
{
    let mut r = owned("[0:");
    push_dec(&mut r, index as u64);
    push_str(&mut r, "]");
    push_str(&mut r, split);
    push_str(&mut r, "=");
    push_dec(&mut r, n as u64);
    let ghost head = r@;
    let mut k: usize = 0;
    while k < n
        invariant
            k <= n,
            r@ == head + split_outputs(prefix@, k as nat),
        decreases n - k,
    {
        push_str(&mut r, "[");
        push_str(&mut r, prefix);
        push_str(&mut r, "s");
        push_dec(&mut r, k as u64);
        push_str(&mut r, "]");
        k = k + 1;
        assert(r@ =~= head + split_outputs(prefix@, k as nat));
    }
    r
}

/// The filter graph of a timeline export: `rate` renders the master rate
/// to nine decimals.
pub fn timeline_filters(ops: &[EditOperation], kind: MediaKind, target: &str, hardware: bool, st: &ExportStreams,
    spans: &[TimelineSpan], rate: &str) -> (r: String)
    requires
        spans@.len() > 0 ==> (st.video matches Some((_, tb)) ==> tb.numerator != 0),
        spans@.len() > 0 ==> (st.audio matches Some((_, tb)) ==> tb.numerator != 0),
        forall|i: int| 0 <= i < spans@.len() ==> (#[trigger] spans@[i]).source.start.nanoseconds < spans@[i].source.end.nanoseconds,
    ensures
        r@ == timeline_graph(ops@, kind, target@, hardware, *st, spans@, rate@),
{
    let n = spans.len();
    let mut filters: Vec<String> = Vec::new();
    match st.video {
        Some((i, _)) => push_arg(&mut filters, split_text(i, "split", "v", n)),
        None => {},
    }
    match st.audio {
        Some((i, _)) => push_arg(&mut filters, split_text(i, "asplit", "a", n)),
        None => {},
    }
    let ghost splits = strings_view(filters@);
    assert(splits =~= (match st.video { Some((i, _)) => seq![split_filter(i, "split"@, "v"@, n as nat)], None => Seq::<Seq<char>>::empty() })
        + (match st.audio { Some((i, _)) => seq![split_filter(i, "asplit"@, "a"@, n as nat)], None => Seq::<Seq<char>>::empty() }));
    let mut inputs = String::new();
    let mut k: usize = 0;
    while k < n
        invariant
            k <= n,
            n == spans@.len(),
            k < n ==> (st.video matches Some((_, tb)) ==> tb.numerator != 0),
            k < n ==> (st.audio matches Some((_, tb)) ==> tb.numerator != 0),
            forall|i: int| 0 <= i < spans@.len() ==> (#[trigger] spans@[i]).source.start.nanoseconds < spans@[i].source.end.nanoseconds,
            strings_view(filters@) == splits + pieces(spans@, *st, rate@, k as int),
            inputs@ == join_inputs(*st, k as int),
        decreases n - k,
    {
        let span = &spans[k];
        let ghost before = strings_view(filters@);
        let ghost inputs_before = inputs@;
        assert(spans@[k as int].source.start.nanoseconds < spans@[k as int].source.end.nanoseconds);
        match st.video {
            Some((_, tb)) => {
                let trim = match trim_filter("trim", Some(span.source.start), Some(span.source.end), tb) {
                    Some(t) => t,
                    None => { assert(false); String::new() },
                };
                let mut piece = owned("[vs");
                push_dec(&mut piece, k as u64);
                push_str(&mut piece, "]");
                push_str(&mut piece, trim.as_str());
                push_str(&mut piece, ",setpts=(PTS-STARTPTS)*");
                push_signed_wide(&mut piece, span.duration as i128);
                push_str(&mut piece, "/");
                push_signed_wide(&mut piece, span.source.end.nanoseconds as i128 - span.source.start.nanoseconds as i128);
                push_str(&mut piece, "/");
                push_str(&mut piece, rate);
                push_str(&mut piece, "[v");
                push_dec(&mut piece, k as u64);
                push_str(&mut piece, "]");
                push_arg(&mut filters, piece);
                push_str(&mut inputs, "[v");
                push_dec(&mut inputs, k as u64);
                push_str(&mut inputs, "]");
            },
            None => {},
        }
        let ghost mid = strings_view(filters@);
        let ghost inputs_mid = inputs@;
        match st.audio {
            Some((_, tb)) => {
                let mut audio: Vec<String> = Vec::new();
                let trim = match trim_filter("atrim", Some(span.source.start), Some(span.source.end), tb) {
                    Some(t) => t,
                    None => { assert(false); String::new() },
                };
                push_arg(&mut audio, trim);
                push_arg(&mut audio, owned("asetpts=PTS-STARTPTS"));
                push_arg(&mut audio, owned("aformat=sample_fmts=flt"));
                let mut j: usize = 0;
                let ghost head = strings_view(audio@);
                while j < span.tempo.len()
                    invariant
                        j <= span.tempo@.len(),
                        strings_view(audio@) == head + strings_view(span.tempo@).take(j as int),
                    decreases span.tempo@.len() - j,
                {
                    push_arg(&mut audio, span.tempo[j].clone());
                    assert(strings_view(span.tempo@).take(j as int + 1) =~= strings_view(span.tempo@).take(j as int).push(span.tempo@[j as int]@));
                    assert(strings_view(audio@) =~= head + strings_view(span.tempo@).take(j as int + 1));
                    j = j + 1;
                }
                assert(strings_view(span.tempo@).take(span.tempo@.len() as int) =~= strings_view(span.tempo@));
                match &span.volume {
                    Some(v) => push_arg(&mut audio, v.clone()),
                    None => {},
                }
                let mut pad = owned("apad=whole_len=");
                push_dec(&mut pad, span.samples);
                push_arg(&mut audio, pad);
                let mut cut = owned("atrim=end_sample=");
                push_dec(&mut cut, span.samples);
                push_arg(&mut audio, cut);
                assert(strings_view(audio@) =~= audio_filters_of(spans@[k as int], tb));
                let mut piece = owned("[as");
                push_dec(&mut piece, k as u64);
                push_str(&mut piece, "]");
                let joined = join_with(&audio, ",");
                push_str(&mut piece, joined.as_str());
                push_str(&mut piece, "[a");
                push_dec(&mut piece, k as u64);
                push_str(&mut piece, "]");
                push_arg(&mut filters, piece);
                push_str(&mut inputs, "[a");
                push_dec(&mut inputs, k as u64);
                push_str(&mut inputs, "]");
            },
            None => {},
        }
        proof {
            assert(strings_view(filters@) =~= splits + pieces(spans@, *st, rate@, k as int + 1));
            assert(inputs@ =~= join_inputs(*st, k as int + 1));
        }
        k = k + 1;
    }
    let mut joined = inputs;
    push_str(&mut joined, "concat=n=");
    push_dec(&mut joined, n as u64);
    push_str(&mut joined, if st.video.is_some() { ":v=1" } else { ":v=0" });
    push_str(&mut joined, if st.audio.is_some() { ":a=1" } else { ":a=0" });
    if st.video.is_some() {
        push_str(&mut joined, "[joinedv]");
    }
    if st.audio.is_some() {
        push_str(&mut joined, "[outa]");
    }
    let ghost outputs = (if st.video is Some { "[joinedv]"@ } else { Seq::<char>::empty() }) + (if st.audio is Some { "[outa]"@ } else { Seq::<char>::empty() });
    assert(joined@ =~= join_inputs(*st, n as int) + "concat=n="@ + dec(n as nat) + ":v="@ + (if st.video is Some { "1"@ } else { "0"@ })
        + ":a="@ + (if st.audio is Some { "1"@ } else { "0"@ }) + outputs) by {
        reveal_strlit(":v=1");
        reveal_strlit(":v=0");
        reveal_strlit(":a=1");
        reveal_strlit(":a=0");
        reveal_strlit(":v=");
        reveal_strlit(":a=");
        reveal_strlit("1");
        reveal_strlit("0");
    }
    let ghost joined_view = joined@;
    push_arg(&mut filters, joined);
    let ghost body = strings_view(filters@);
    assert(body =~= splits + pieces(spans@, *st, rate@, n as int) + seq![joined_view]);
    if st.video.is_some() {
        let mut visual = visual_filters(ops);
        let codec = codec_arguments(kind, target, hardware);
        if contains_text(&codec, "libopenh264") {
            push_arg(&mut visual, owned("copy"));
        }
        let ghost w = strings_view(visual@);
        if visual.len() == 0 {
            push_arg(&mut visual, owned("null"));
        }
        assert(strings_view(visual@) =~= joined_visual(ops@, codecs(kind, target@, hardware)));
        let mut tail = owned("[joinedv]");
        let chain = join_with(&visual, ",");
        push_str(&mut tail, chain.as_str());
        push_str(&mut tail, "[outv]");
        push_arg(&mut filters, tail);
    }
    assert(strings_view(filters@) =~= body + (if st.video is Some {
        seq!["[joinedv]"@ + join(joined_visual(ops@, codecs(kind, target@, hardware)), ","@) + "[outv]"@]
    } else {
        Seq::<Seq<char>>::empty()
    }));
    join_with(&filters, ";")
}


/// Whether every span covers a nonempty interval of the source.
pub open spec fn spans_ordered(spans: Seq<TimelineSpan>) -> bool {
    forall|i: int| 0 <= i < spans.len() ==> (#[trigger] spans[i]).source.start.nanoseconds < spans[i].source.end.nanoseconds
}

/// Checks the spans a timeline edit renders: a timeline with no span is
/// refused; `Ok(ordered)` says whether every span covers a nonempty
/// interval, which the timeline runtime guarantees.
pub fn check_timeline(spans: &[TimelineSpan]) -> (r: Result<bool, ExportError>)
    ensures
        spans@.len() == 0 <==> r matches Err(ExportError::InvalidTimeline),
        r is Err ==> spans@.len() == 0,
        r matches Ok(b) ==> b == spans_ordered(spans@),
{
    if spans.len() == 0 {
        return Err(ExportError::InvalidTimeline);
    }
    let mut i: usize = 0;
    while i < spans.len()
        invariant
            i <= spans@.len(),
            forall|k: int| 0 <= k < i ==> (#[trigger] spans@[k]).source.start.nanoseconds < spans@[k].source.end.nanoseconds,
        decreases spans@.len() - i,
    {
        if spans[i].source.start.nanoseconds >= spans[i].source.end.nanoseconds {
            return Ok(false);
        }
        i = i + 1;
    }
    Ok(true)
}
} // verus!
