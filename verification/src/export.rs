//! The decisions of an export around the encoder process: which requests
//! are refused before anything is prepared, how the encoder's arguments are
//! staged and adapted for analysis, how its progress and diagnostics are
//! read, and when its output may be published.
use crate::args::{state_of, trim_valid, EditState};
use crate::edits::{EditOperation, MediaKind, MediaTime};
use crate::loudness::split_pieces;
use crate::parse::{find_in, lemma_find_from, lemma_find_shift};
use crate::audio_options::sub_chars;
use crate::error::ExportError;
use crate::metadata::strings_view;
use crate::parse::{parse_in, parse_unsigned, trim, trim_bounds};
use crate::sequence::rotates;
use crate::path::{extension_equals, extension_is};
use crate::text::{chars_of, owned, push_str, same_text};
use vstd::prelude::*;

verus! {

/// Whether an edit selects timeline spans.
pub open spec fn has_timeline(ops: Seq<EditOperation>) -> bool {
    exists|i: int| 0 <= i < ops.len() && ops[i] is Timeline
}

/// The checks made before anything is prepared: the target must not be
/// the source, free rotation is for images, the trim must be valid, and a
/// timeline cannot edit an image. Returns the edit state.
pub fn preflight(kind: MediaKind, ops: &[EditOperation], same_path: bool) -> (r: Result<EditState, ExportError>)
    ensures
        same_path ==> (r matches Err(ExportError::SameAsSource)),
        !same_path && kind != MediaKind::Image && rotates(ops@) ==> (r matches Err(ExportError::Failed(m))
            && m@ == "Free rotation currently supports images only"@),
        !same_path && !(kind != MediaKind::Image && rotates(ops@)) ==> ({
            let s = state_of(ops@);
            &&& !trim_valid(s) ==> (r matches Err(ExportError::InvalidTrim))
            &&& (trim_valid(s) && kind == MediaKind::Image && has_timeline(ops@)) ==> (r matches Err(ExportError::InvalidTimeline))
            &&& (trim_valid(s) && !(kind == MediaKind::Image && has_timeline(ops@))) ==> r == Ok::<EditState, ExportError>(s)
        }),
{
    if same_path {
        return Err(ExportError::SameAsSource);
    }
    let mut rotation = false;
    let mut timeline = false;
    let mut i: usize = 0;
    while i < ops.len()
        invariant
            i <= ops@.len(),
            rotation <==> exists|k: int| 0 <= k < i && (#[trigger] ops@[k]) is RotateImage,
            timeline <==> exists|k: int| 0 <= k < i && (#[trigger] ops@[k]) is Timeline,
        decreases ops@.len() - i,
    {
        match &ops[i] {
            EditOperation::RotateImage(_) => rotation = true,
            EditOperation::Timeline(_) => timeline = true,
            _ => {},
        }
        i = i + 1;
    }
    if kind != MediaKind::Image && rotation {
        return Err(ExportError::Failed(owned("Free rotation currently supports images only")));
    }
    let state = EditState::from_operations(ops);
    if !state.trim_is_valid() {
        return Err(ExportError::InvalidTrim);
    }
    if timeline && kind == MediaKind::Image {
        return Err(ExportError::InvalidTimeline);
    }
    Ok(state)
}

/// The medium whose frames a trimmed output must still contain.
pub open spec fn medium_name(kind: MediaKind) -> Seq<char> {
    if kind == MediaKind::Audio { "Audio"@ } else { "Video"@ }
}

/// Why a current-frame export to `target` is refused before any work: the
/// target is the source file itself, or it is not a `.png` file.
pub open spec fn frame_target_refusal(target: Seq<char>, same_file: bool) -> Option<Seq<char>> {
    if same_file {
        Some(Seq::empty())
    } else if !extension_is(target, "png"@) {
        Some("Current frame export requires a PNG target"@)
    } else {
        None
    }
}

/// Checks the target of a current-frame export; `same_file` says whether it
/// names the source file.
pub fn frame_target(target: &str, same_file: bool) -> (r: Result<(), ExportError>)
    ensures
        r is Ok <==> frame_target_refusal(target@, same_file) is None,
        same_file ==> r matches Err(ExportError::SameAsSource),
        !same_file && r is Err ==> (r matches Err(ExportError::Failed(m))
            && frame_target_refusal(target@, same_file) == Some(m@)),
{
    if same_file {
        return Err(ExportError::SameAsSource);
    }
    if !extension_equals(target, "png") {
        return Err(ExportError::Failed(owned("Current frame export requires a PNG target")));
    }
    Ok(())
}

/// Whether an encoded output may replace the target: a trimmed export must
/// still contain a frame of its medium, and no output may be empty.
pub fn publish_check(trimmed: Option<MediaKind>, found_frame: bool, length: u64) -> (r: Result<(), ExportError>)
    ensures
        (trimmed is Some && !found_frame) ==> (r matches Err(ExportError::Failed(m))
            && m@ == "trim contains no "@ + medium_name(trimmed->0) + " frames; choose a wider range"@),
        !(trimmed is Some && !found_frame) && length == 0 ==> (r matches Err(ExportError::Failed(m))
            && m@ == "encoder produced an empty file"@),
        !(trimmed is Some && !found_frame) && length > 0 ==> r is Ok,
{
    if let Some(kind) = trimmed {
        if !found_frame {
            let mut m = owned("trim contains no ");
            if kind == MediaKind::Audio {
                push_str(&mut m, "Audio");
            } else {
                push_str(&mut m, "Video");
            }
            push_str(&mut m, " frames; choose a wider range");
            return Err(ExportError::Failed(m));
        }
    }
    if length == 0 {
        return Err(ExportError::Failed(owned("encoder produced an empty file")));
    }
    Ok(())
}

/// The failure of an encoder run: its diagnostics without surrounding white
/// space, or, when it printed none, its exit status.
pub fn encode_failure(diagnostics: &str, status: &str) -> (r: ExportError)
    ensures
        r matches ExportError::Failed(m) && m@ == if trim(diagnostics@).len() == 0 {
            "process exited with "@ + status@
        } else {
            trim(diagnostics@)
        },
{
    let text = chars_of(diagnostics);
    let (a, b) = trim_bounds(&text, 0, text.len());
    assert(text@.subrange(0, text@.len() as int) =~= text@);
    if a == b {
        let mut m = owned("process exited with ");
        push_str(&mut m, status);
        ExportError::Failed(m)
    } else {
        let m = crate::parse::string_of(&text.as_slice()[a..b]);
        ExportError::Failed(m)
    }
}

/// The failure of an analysis run, with its diagnostics.
pub fn analysis_failure(diagnostics: &str) -> (r: ExportError)
    ensures
        r matches ExportError::Failed(m) && m@ == "Audio analysis failed: "@ + trim(diagnostics@),
{
    let text = chars_of(diagnostics);
    let (a, b) = trim_bounds(&text, 0, text.len());
    assert(text@.subrange(0, text@.len() as int) =~= text@);
    let mut m = owned("Audio analysis failed: ");
    let t = crate::parse::string_of(&text.as_slice()[a..b]);
    push_str(&mut m, t.as_str());
    ExportError::Failed(m)
}

/// The first position of `t` among the arguments.
pub open spec fn first_index(v: Seq<Seq<char>>, t: Seq<char>, k: int) -> Option<int>
    decreases v.len() - k,
{
    if k < 0 || k >= v.len() {
        None
    } else if v[k] == t {
        Some(k)
    } else {
        first_index(v, t, k + 1)
    }
}

fn position(v: &Vec<String>, t: &str) -> (r: Option<usize>)
    ensures
        r matches Some(i) ==> first_index(strings_view(v@), t@, 0) == Some(i as int),
        r is None ==> first_index(strings_view(v@), t@, 0) is None,
{
    let mut i: usize = 0;
    while i < v.len()
        invariant
            i <= v@.len(),
            first_index(strings_view(v@), t@, 0) == first_index(strings_view(v@), t@, i as int),
        decreases v@.len() - i,
    {
        if same_text(v[i].as_str(), t) {
            assert(strings_view(v@)[i as int] == t@);
            return Some(i);
        }
        i = i + 1;
    }
    None
}

/// An argument that has a value after it.
pub open spec fn has_value(v: Seq<Seq<char>>, t: Seq<char>) -> bool {
    first_index(v, t, 0) matches Some(i) && i + 1 < v.len()
}

/// A filter graph is kept in a staged file rather than on the command line:
/// the first `-filter_complex` and its graph become `-/filter_complex` and
/// the file's path. Returns the arguments and the graph to store, if any.
pub fn stage_graph(arguments: Vec<String>, path: &str) -> (r: (Vec<String>, Option<String>))
    requires
        first_index(strings_view(arguments@), "-filter_complex"@, 0) matches Some(i) ==> i + 1 < arguments@.len(),
    ensures
        match first_index(strings_view(arguments@), "-filter_complex"@, 0) {
            None => strings_view(r.0@) == strings_view(arguments@) && r.1 is None,
            Some(i) => strings_view(r.0@) == strings_view(arguments@).update(i, "-/filter_complex"@).update(i + 1, path@)
                && (r.1 matches Some(g) && g@ == strings_view(arguments@)[i + 1]),
        },
{
    let mut arguments = arguments;
    let ghost before = strings_view(arguments@);
    match position(&arguments, "-filter_complex") {
        None => (arguments, None),
        Some(i) => {
            let n = arguments.len();
            assert(i + 1 < n);
            let next: usize = i + 1;
            let graph = arguments[next].clone();
            assert(graph@ == before[i + 1]);
            arguments.set(i, owned("-/filter_complex"));
            arguments.set(i + 1, owned(path));
            assert(strings_view(arguments@) =~= before.update(i as int, "-/filter_complex"@).update(i + 1, path@));
            (arguments, Some(graph))
        },
    }
}

/// The arguments with the value after the first `-loglevel` set to `info`.
pub open spec fn with_info(v: Seq<Seq<char>>) -> Seq<Seq<char>> {
    v.update(first_index(v, "-loglevel"@, 0)->0 + 1, "info"@)
}

/// The arguments of an export turned into those of an analysis run: the
/// log level raised to `info`, audio decoded as 64-bit floats, and the
/// output replaced by the null muxer.
pub open spec fn analysis_args(v: Seq<Seq<char>>) -> Seq<Seq<char>> {
    let v1 = with_info(v);
    let codec = first_index(v1, "-c:a"@, 0)->0;
    let edited = v1.update(codec + 1, "pcm_f64le"@);
    let kept = if edited.len() > 0 { edited.drop_last() } else { edited };
    kept + seq!["-f"@, "null"@, "-"@]
}

/// Adapts export arguments for an analysis run.
pub fn analysis_arguments(arguments: Vec<String>) -> (r: Vec<String>)
    requires
        has_value(strings_view(arguments@), "-loglevel"@),
        has_value(with_info(strings_view(arguments@)), "-c:a"@),
    ensures
        strings_view(r@) == analysis_args(strings_view(arguments@)),
{
    let mut v = arguments;
    let ghost before = strings_view(v@);
    let level = match position(&v, "-loglevel") {
        Some(i) => i,
        None => { assert(false); 0 },
    };
    let n = v.len();
    assert(level + 1 < n);
    let next: usize = level + 1;
    v.set(next, owned("info"));
    let ghost mid = strings_view(v@);
    assert(mid =~= before.update(level + 1, "info"@));
    let codec = match position(&v, "-c:a") {
        Some(i) => i,
        None => { assert(false); 0 },
    };
    v.set(codec + 1, owned("pcm_f64le"));
    let ghost edited = strings_view(v@);
    assert(edited =~= mid.update(codec + 1, "pcm_f64le"@));
    v.pop();
    let ghost kept = strings_view(v@);
    assert(kept =~= if edited.len() > 0 { edited.drop_last() } else { edited });
    v.push(owned("-f"));
    v.push(owned("null"));
    v.push(owned("-"));
    assert(strings_view(v@) =~= kept + seq!["-f"@, "null"@, "-"@]);
    v
}

/// The progress that a line of the encoder's progress report gives, in
/// microseconds of output.
pub open spec fn progress_of(line: Seq<char>) -> Option<nat> {
    let p = "out_time_us="@;
    if line.len() >= p.len() && line.take(p.len() as int) == p {
        parse_unsigned(line.skip(p.len() as int), u64::MAX as nat)
    } else {
        None
    }
}

/// Reads a progress line.
pub fn progress_micros(line: &str) -> (r: Option<u64>)
    ensures
        r == match progress_of(line@) { Some(v) => Some(v as u64), None => None::<u64> },
{
    let text = chars_of(line);
    let p = chars_of("out_time_us=");
    proof { reveal_strlit("out_time_us="); }
    assert(p@ == "out_time_us="@);
    if !crate::parse::matches_here(&text, &p, 0) {
        proof {
            if text@.len() >= p@.len() && text@.take(p@.len() as int) == p@ {
                assert(text@.subrange(0, p@.len() as int) =~= text@.take(p@.len() as int));
            }
        }
        return None;
    }
    assert(text@.subrange(0, p@.len() as int) =~= text@.take(p@.len() as int));
    assert(text@.subrange(p@.len() as int, text@.len() as int) =~= text@.skip(p@.len() as int));
    parse_in(&text, p.len(), text.len(), u64::MAX)
}

/// Most diagnostic bytes kept from an encoder run.
pub const DIAGNOSTIC_LIMIT: usize = 16384;

/// Keeps the last diagnostic bytes: appends a chunk, then drops the oldest
/// bytes beyond the limit.
pub fn keep_tail(tail: &mut Vec<u8>, chunk: &[u8])
    requires
        old(tail)@.len() <= DIAGNOSTIC_LIMIT,
    ensures
        ({
            let all = old(tail)@ + chunk@;
            final(tail)@ == if all.len() > DIAGNOSTIC_LIMIT { all.skip(all.len() - DIAGNOSTIC_LIMIT) } else { all }
        }),
{
    let ghost all = old(tail)@ + chunk@;
    let t = tail.len();
    let c = chunk.len();
    let from_tail: usize = if c >= DIAGNOSTIC_LIMIT { t } else if t > DIAGNOSTIC_LIMIT - c { t - (DIAGNOSTIC_LIMIT - c) } else { 0 };
    let from_chunk: usize = if c >= DIAGNOSTIC_LIMIT { c - DIAGNOSTIC_LIMIT } else { 0 };
    let mut kept: Vec<u8> = Vec::new();
    let mut i: usize = from_tail;
    while i < t
        invariant
            from_tail <= i <= t,
            t == tail@.len(),
            kept@ == tail@.subrange(from_tail as int, i as int),
        decreases t - i,
    {
        kept.push(tail[i]);
        assert(kept@ =~= tail@.subrange(from_tail as int, i as int + 1));
        i = i + 1;
    }
    let mut j: usize = from_chunk;
    while j < c
        invariant
            from_chunk <= j <= c,
            c == chunk@.len(),
            kept@ == tail@.subrange(from_tail as int, t as int) + chunk@.subrange(from_chunk as int, j as int),
        decreases c - j,
    {
        kept.push(chunk[j]);
        assert(kept@ =~= tail@.subrange(from_tail as int, t as int) + chunk@.subrange(from_chunk as int, j as int + 1));
        j = j + 1;
    }
    assert(kept@ =~= if all.len() > DIAGNOSTIC_LIMIT { all.skip(all.len() - DIAGNOSTIC_LIMIT) } else { all });
    *tail = kept;
}


/// Whether a demuxer's comma-separated format names include Matroska or WebM.
pub open spec fn names_matroska(name: Seq<char>) -> bool {
    exists|i: int| 0 <= i < split_pieces(name, ","@).len()
        && (#[trigger] split_pieces(name, ","@)[i] == "matroska"@ || split_pieces(name, ","@)[i] == "webm"@)
}

/// Whether a demuxer's format names include Matroska or WebM, whose
/// durations count from the first timestamp.
pub fn is_matroska(name: &str) -> (r: bool)
    ensures
        r == names_matroska(name@),
{
    let text = chars_of(name);
    let comma = chars_of(",");
    let matroska = chars_of("matroska");
    let webm = chars_of("webm");
    proof {
        reveal_strlit(",");
    }
    let ghost p = ","@;
    assert(comma@ == p);
    let ghost all = split_pieces(text@, p);
    let n = text.len();
    let mut cur: usize = 0;
    let ghost mut done: Seq<Seq<char>> = Seq::empty();
    assert(text@.skip(0) =~= text@);
    assert(all =~= done + split_pieces(text@.skip(0), p));
    loop
        invariant
            n == text@.len(),
            cur <= n,
            comma@ == p,
            p == ","@,
            p.len() == 1,
            text@ == name@,
            all == split_pieces(name@, p),
            all == done + split_pieces(text@.skip(cur as int), p),
            forall|i: int| 0 <= i < done.len() ==> !(#[trigger] done[i] == "matroska"@ || done[i] == "webm"@),
            matroska@ == "matroska"@,
            webm@ == "webm"@,
        decreases n - cur,
    {
        let next = find_in(&text, &comma, cur);
        proof {
            lemma_find_shift(text@, p, cur as int, cur as int);
            lemma_find_from(text@, p, cur as int);
            assert(text@.skip(cur as int).skip(0) =~= text@.skip(cur as int));
        }
        let end = match next {
            Some(k) => k,
            None => n,
        };
        let piece = sub_chars(&text, cur, end);
        let ghost rest = text@.skip(cur as int);
        proof {
            match next {
                Some(k) => {
                    assert(piece@ =~= rest.take(k - cur));
                    assert(rest.skip(k - cur + p.len()) =~= text@.skip(k + p.len()));
                    assert(split_pieces(rest, p) == seq![piece@] + split_pieces(text@.skip(k + p.len()), p));
                },
                None => {
                    assert(piece@ =~= rest);
                    assert(split_pieces(rest, p) == seq![piece@]);
                },
            }
            assert(split_pieces(rest, p)[0] == piece@);
        }
        let is_matroska_piece = same_chars(&piece, &matroska);
        let is_webm_piece = same_chars(&piece, &webm);
        if is_matroska_piece || is_webm_piece {
            proof {
                assert(piece@ == "matroska"@ || piece@ == "webm"@);
                assert(all[done.len() as int] == piece@);
                assert(split_pieces(name@, ","@)[done.len() as int] == "matroska"@ || split_pieces(name@, ","@)[done.len() as int] == "webm"@);
            }
            return true;
        }
        proof {
            done = done.push(piece@);
        }
        match next {
            Some(k) => {
                cur = k + comma.len();
                assert(split_pieces(rest, p) =~= seq![piece@] + split_pieces(text@.skip(cur as int), p));
                assert(all =~= done + split_pieces(text@.skip(cur as int), p));
            },
            None => {
                assert(all =~= done);
                return false;
            },
        }
    }
}

fn same_chars(a: &Vec<char>, b: &Vec<char>) -> (r: bool)
    ensures
        r == (a@ == b@),
{
    if a.len() != b.len() {
        return false;
    }
    let mut i: usize = 0;
    while i < a.len()
        invariant
            i <= a@.len(),
            a@.len() == b@.len(),
            forall|k: int| 0 <= k < i ==> a@[k] == b@[k],
        decreases a@.len() - i,
    {
        if a[i] != b[i] {
            return false;
        }
        i = i + 1;
    }
    assert(a@ =~= b@);
    true
}

/// The source duration in nanoseconds: the container's duration in
/// microseconds, for Matroska and WebM less the first timestamp, when it is
/// positive and representable.
pub open spec fn duration_of(duration: i64, origin: Option<i64>) -> Option<int> {
    let d = match origin {
        Some(o) => duration - o,
        None => duration as int,
    };
    if d < i64::MIN || d > i64::MAX || d <= 0 || d * 1000 > i64::MAX {
        None
    } else {
        Some(d * 1000)
    }
}

/// Converts a probed duration.
pub fn source_duration(duration: i64, origin: Option<i64>) -> (r: Option<MediaTime>)
    ensures
        match duration_of(duration, origin) {
            Some(ns) => r matches Some(t) && t.nanoseconds == ns,
            None => r is None,
        },
{
    let d = match origin {
        Some(o) => match duration.checked_sub(o) {
            Some(d) => d,
            None => return None,
        },
        None => duration,
    };
    if d <= 0 {
        return None;
    }
    match d.checked_mul(1000) {
        Some(ns) => Some(MediaTime::from_nanoseconds(ns)),
        None => None,
    }
}

} // verus!
