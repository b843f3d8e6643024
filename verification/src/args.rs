//! Encoder arguments: codecs by target, visual filters of the edit
//! history, and trim filters in stream ticks.
use crate::edits::{EditOperation, Factor, ImageResize, ImageRotation, MediaKind, MediaTime, PixelCrop, Rational, ResampleFilter};
use crate::metadata::strings_view;
use crate::path::{extension, extension_of};
use crate::text::{dec, eq_ignore_case, owned, push_dec, push_signed_dec, push_signed_wide, push_str, same_ignoring_ascii_case, same_text, signed_dec};
use vstd::prelude::*;
use vstd::utf8::*;

verus! {

/// Whether the target's extension is `lit`, ignoring ASCII case.
pub open spec fn ext_is(target: Seq<char>, lit: Seq<char>) -> bool {
    match extension_of(target) {
        Some(e) => same_ignoring_ascii_case(encode_utf8(e), encode_utf8(lit)),
        None => false,
    }
}

/// Encoder choices by document kind, target extension and hardware use.
pub open spec fn codecs(kind: MediaKind, target: Seq<char>, hardware: bool) -> Seq<Seq<char>> {
    match kind {
        MediaKind::Video => if hardware {
            seq!["-c:v"@, "h264_mf"@, "-hw_encoding"@, "1"@, "-c:a"@, "aac"@]
        } else if ext_is(target, "webm"@) {
            seq!["-c:v"@, "libvpx-vp9"@, "-c:a"@, "libopus"@]
        } else if ext_is(target, "avi"@) {
            seq!["-c:v"@, "mpeg4"@, "-c:a"@, "pcm_s16le"@]
        } else if ext_is(target, "wmv"@) {
            seq!["-c:v"@, "wmv2"@, "-c:a"@, "wmav2"@]
        } else {
            seq!["-c:v"@, "libopenh264"@, "-c:a"@, "aac"@]
        },
        MediaKind::Audio => if ext_is(target, "mp3"@) {
            seq!["-c:a"@, "libmp3lame"@]
        } else if ext_is(target, "ogg"@) || ext_is(target, "opus"@) {
            seq!["-c:a"@, "libopus"@]
        } else if ext_is(target, "wav"@) {
            seq!["-c:a"@, "pcm_s16le"@]
        } else if ext_is(target, "flac"@) {
            seq!["-c:a"@, "flac"@]
        } else {
            seq!["-c:a"@, "aac"@]
        },
        MediaKind::Image => if ext_is(target, "avif"@) {
            seq!["-c:v"@, "libaom-av1"@, "-still-picture"@, "1"@]
        } else if ext_is(target, "webp"@) {
            seq!["-c:v"@, "libwebp"@]
        } else if ext_is(target, "jpg"@) || ext_is(target, "jpeg"@) {
            seq!["-c:v"@, "mjpeg"@]
        } else if ext_is(target, "png"@) {
            seq!["-c:v"@, "png"@]
        } else if ext_is(target, "gif"@) {
            seq!["-c:v"@, "gif"@]
        } else if ext_is(target, "tif"@) || ext_is(target, "tiff"@) {
            seq!["-c:v"@, "tiff"@]
        } else if ext_is(target, "bmp"@) {
            seq!["-c:v"@, "bmp"@]
        } else {
            Seq::empty()
        },
    }
}

fn has_extension(ext: &Option<String>, lit: &str) -> (r: bool)
    ensures
        r == match *ext {
            Some(e) => same_ignoring_ascii_case(encode_utf8(e@), encode_utf8(lit@)),
            None => false,
        },
{
    match ext {
        Some(e) => eq_ignore_case(e.as_str(), lit),
        None => false,
    }
}

fn strings(parts: &[&str]) -> (r: Vec<String>)
    ensures
        strings_view(r@) == Seq::new(parts@.len(), |i: int| parts@[i]@),
{
    let mut r: Vec<String> = Vec::new();
    let mut i: usize = 0;
    while i < parts.len()
        invariant
            i <= parts@.len(),
            r@.len() == i,
            forall|k: int| 0 <= k < i ==> #[trigger] r@[k]@ == parts@[k]@,
        decreases parts@.len() - i,
    {
        let t = owned(parts[i]);
        r.push(t);
        i = i + 1;
    }
    assert(strings_view(r@) =~= Seq::new(parts@.len(), |k: int| parts@[k]@));
    r
}

/// The encoder arguments for a target.
pub fn codec_arguments(kind: MediaKind, target: &str, hardware: bool) -> (r: Vec<String>)
    ensures
        strings_view(r@) == codecs(kind, target@, hardware),
{
    let ext = extension(target);
    assert(forall|lit: Seq<char>| #[trigger] ext_is(target@, lit) == match ext {
        Some(e) => same_ignoring_ascii_case(encode_utf8(e@), encode_utf8(lit)),
        None => false,
    });
    let parts: Vec<&str> = match kind {
        MediaKind::Video => if hardware {
            vec!["-c:v", "h264_mf", "-hw_encoding", "1", "-c:a", "aac"]
        } else if has_extension(&ext, "webm") {
            vec!["-c:v", "libvpx-vp9", "-c:a", "libopus"]
        } else if has_extension(&ext, "avi") {
            vec!["-c:v", "mpeg4", "-c:a", "pcm_s16le"]
        } else if has_extension(&ext, "wmv") {
            vec!["-c:v", "wmv2", "-c:a", "wmav2"]
        } else {
            vec!["-c:v", "libopenh264", "-c:a", "aac"]
        },
        MediaKind::Audio => if has_extension(&ext, "mp3") {
            vec!["-c:a", "libmp3lame"]
        } else if has_extension(&ext, "ogg") || has_extension(&ext, "opus") {
            vec!["-c:a", "libopus"]
        } else if has_extension(&ext, "wav") {
            vec!["-c:a", "pcm_s16le"]
        } else if has_extension(&ext, "flac") {
            vec!["-c:a", "flac"]
        } else {
            vec!["-c:a", "aac"]
        },
        MediaKind::Image => if has_extension(&ext, "avif") {
            vec!["-c:v", "libaom-av1", "-still-picture", "1"]
        } else if has_extension(&ext, "webp") {
            vec!["-c:v", "libwebp"]
        } else if has_extension(&ext, "jpg") || has_extension(&ext, "jpeg") {
            vec!["-c:v", "mjpeg"]
        } else if has_extension(&ext, "png") {
            vec!["-c:v", "png"]
        } else if has_extension(&ext, "gif") {
            vec!["-c:v", "gif"]
        } else if has_extension(&ext, "tif") || has_extension(&ext, "tiff") {
            vec!["-c:v", "tiff"]
        } else if has_extension(&ext, "bmp") {
            vec!["-c:v", "bmp"]
        } else {
            Vec::new()
        },
    };
    let r = strings(parts.as_slice());
    assert(Seq::new(parts@.len(), |i: int| parts@[i]@) =~= codecs(kind, target@, hardware));
    r
}

/// Whether the hardware encoder can produce the target: video, except WebM.
pub open spec fn hardware_target(kind: MediaKind, target: Seq<char>) -> bool {
    kind is Video && !ext_is(target, "webm"@)
}

pub fn hardware_encode_supported_target(kind: MediaKind, target: &str) -> (r: bool)
    ensures
        r == hardware_target(kind, target@),
{
    let ext = extension(target);
    matches!(kind, MediaKind::Video) && !has_extension(&ext, "webm")
}

/// The filter of a free rotation: quarter and half turns by transposition
/// and flips, other angles by a premultiplied bilinear rotation onto the
/// rotated canvas.
pub open spec fn rotate_filter(r: ImageRotation) -> Seq<char> {
    if r.tenths == 0 {
        "null"@
    } else if r.tenths == 900 {
        "transpose=clock"@
    } else if r.tenths == -900 {
        "transpose=cclock"@
    } else if r.tenths == 1800 || r.tenths == -1800 {
        "hflip,vflip"@
    } else {
        "format=gbrap,premultiply=inplace=1,rotate="@ + signed_dec(r.tenths as int) + "*PI/1800:ow="@ + dec(r.width as nat)
            + ":oh="@ + dec(r.height as nat) + ":c=black@0:bilinear=1,unpremultiply=inplace=1,format=rgba"@
    }
}

pub open spec fn scale_flags(f: ResampleFilter) -> Seq<char> {
    match f {
        ResampleFilter::Nearest => "neighbor"@,
        ResampleFilter::Bilinear => "bilinear"@,
        ResampleFilter::Bicubic => "bicubic"@,
        ResampleFilter::Lanczos => "lanczos"@,
    }
}

/// The filter of a resize: nearest-neighbour scaling of RGBA, or
/// premultiplied 16-bit scaling for interpolating filters.
pub open spec fn resize_filter(r: ImageResize) -> Seq<char> {
    let scale = "scale="@ + dec(r.width as nat) + ":"@ + dec(r.height as nat) + ":flags="@ + scale_flags(r.filter);
    if r.filter is Nearest {
        "format=rgba,"@ + scale + ",format=rgba"@
    } else {
        "format=gbrap16le,premultiply=inplace=1,"@ + scale + ",unpremultiply=inplace=1,format=rgba"@
    }
}

pub open spec fn crop_filter(c: PixelCrop) -> Seq<char> {
    "crop="@ + dec(c.width as nat) + ":"@ + dec(c.height as nat) + ":"@ + dec(c.x as nat) + ":"@ + dec(c.y as nat) + ":exact=1"@
}

/// The filter of one visual edit; timing and audio edits have none.
pub open spec fn visual_filter(op: EditOperation) -> Option<Seq<char>> {
    match op {
        EditOperation::RotateImage(r) => Some(rotate_filter(r)),
        EditOperation::Resize(r) => Some(resize_filter(r)),
        EditOperation::Crop(c) => Some(crop_filter(c)),
        EditOperation::RotateClockwise => Some("transpose=clock"@),
        EditOperation::RotateCounterclockwise => Some("transpose=cclock"@),
        EditOperation::FlipHorizontal => Some("hflip"@),
        EditOperation::FlipVertical => Some("vflip"@),
        _ => None,
    }
}

/// The filters of the visual edits, in edit order.
pub open spec fn visual_filters_of(ops: Seq<EditOperation>) -> Seq<Seq<char>>
    decreases ops.len(),
{
    if ops.len() == 0 {
        Seq::empty()
    } else {
        let r = visual_filters_of(ops.drop_last());
        match visual_filter(ops.last()) {
            Some(f) => r.push(f),
            None => r,
        }
    }
}

fn rotate_text(r: ImageRotation) -> (t: String)
    ensures
        t@ == rotate_filter(r),
{
    let tenths = r.tenths();
    if tenths == 0 {
        owned("null")
    } else if tenths == 900 {
        owned("transpose=clock")
    } else if tenths == -900 {
        owned("transpose=cclock")
    } else if tenths == 1800 || tenths == -1800 {
        owned("hflip,vflip")
    } else {
        let (width, height) = r.size();
        let mut t = owned("format=gbrap,premultiply=inplace=1,rotate=");
        push_signed_dec(&mut t, tenths as i64);
        push_str(&mut t, "*PI/1800:ow=");
        push_dec(&mut t, width as u64);
        push_str(&mut t, ":oh=");
        push_dec(&mut t, height as u64);
        push_str(&mut t, ":c=black@0:bilinear=1,unpremultiply=inplace=1,format=rgba");
        t
    }
}

fn resize_text(r: ImageResize) -> (t: String)
    ensures
        t@ == resize_filter(r),
{
    let (width, height) = r.size();
    let flags = match r.filter {
        ResampleFilter::Nearest => "neighbor",
        ResampleFilter::Bilinear => "bilinear",
        ResampleFilter::Bicubic => "bicubic",
        ResampleFilter::Lanczos => "lanczos",
    };
    let mut scale = owned("scale=");
    push_dec(&mut scale, width as u64);
    push_str(&mut scale, ":");
    push_dec(&mut scale, height as u64);
    push_str(&mut scale, ":flags=");
    push_str(&mut scale, flags);
    if matches!(r.filter, ResampleFilter::Nearest) {
        let mut t = owned("format=rgba,");
        push_str(&mut t, scale.as_str());
        push_str(&mut t, ",format=rgba");
        t
    } else {
        let mut t = owned("format=gbrap16le,premultiply=inplace=1,");
        push_str(&mut t, scale.as_str());
        push_str(&mut t, ",unpremultiply=inplace=1,format=rgba");
        t
    }
}

fn crop_text(c: PixelCrop) -> (t: String)
    ensures
        t@ == crop_filter(c),
{
    let mut t = owned("crop=");
    push_dec(&mut t, c.width as u64);
    push_str(&mut t, ":");
    push_dec(&mut t, c.height as u64);
    push_str(&mut t, ":");
    push_dec(&mut t, c.x as u64);
    push_str(&mut t, ":");
    push_dec(&mut t, c.y as u64);
    push_str(&mut t, ":exact=1");
    t
}

fn visual_text(op: &EditOperation) -> (r: Option<String>)
    ensures
        match visual_filter(*op) {
            Some(f) => r matches Some(t) && t@ == f,
            None => r is None,
        },
{
    match op {
        EditOperation::RotateImage(r) => Some(rotate_text(*r)),
        EditOperation::Resize(r) => Some(resize_text(*r)),
        EditOperation::Crop(c) => Some(crop_text(*c)),
        EditOperation::RotateClockwise => Some(owned("transpose=clock")),
        EditOperation::RotateCounterclockwise => Some(owned("transpose=cclock")),
        EditOperation::FlipHorizontal => Some(owned("hflip")),
        EditOperation::FlipVertical => Some(owned("vflip")),
        _ => None,
    }
}

/// The filters of the visual edits, in edit order.
pub fn visual_filters(ops: &[EditOperation]) -> (r: Vec<String>)
    ensures
        strings_view(r@) == visual_filters_of(ops@),
{
    let mut r: Vec<String> = Vec::new();
    let mut i: usize = 0;
    while i < ops.len()
        invariant
            i <= ops@.len(),
            strings_view(r@) == visual_filters_of(ops@.take(i as int)),
        decreases ops@.len() - i,
    {
        let ghost before = r@;
        assert(ops@.take(i as int + 1).drop_last() =~= ops@.take(i as int));
        match visual_text(&ops[i]) {
            Some(t) => {
                r.push(t);
                assert(strings_view(r@) =~= strings_view(before).push(t@));
            },
            None => {},
        }
        i = i + 1;
    }
    assert(ops@.take(ops@.len() as int) =~= ops@);
    r
}

/// `a / b` rounded toward zero, as integer division does.
pub open spec fn toward_zero(a: int, b: int) -> int {
    if b > 0 {
        if a >= 0 { a / b } else { -((-a) / b) }
    } else {
        if a >= 0 { -(a / (-b)) } else { (-a) / (-b) }
    }
}

/// The first tick at or after a time: nanoseconds scaled to the time base,
/// rounded up for times from zero on.
pub open spec fn ticks(ns: int, tb: Rational) -> int {
    let numerator = ns * tb.denominator;
    let denominator = 1000000000 * tb.numerator;
    toward_zero(numerator + denominator - 1, denominator)
}

/// The trim filter of a source interval: from the first tick at or after
/// the start (zero without one) to the first tick at or after the end.
pub open spec fn trim_text(name: Seq<char>, start: Option<MediaTime>, end: Option<MediaTime>, tb: Rational) -> Option<Seq<char>> {
    match (start, end) {
        (Some(s), Some(e)) => if s.nanoseconds < e.nanoseconds {
            Some(name + "=start_pts="@ + signed_dec(ticks(s.nanoseconds as int, tb)) + ":end_pts="@ + signed_dec(ticks(e.nanoseconds as int, tb)))
        } else {
            None
        },
        (Some(s), None) => Some(name + "=start_pts="@ + signed_dec(ticks(s.nanoseconds as int, tb))),
        (None, Some(e)) => Some(name + "=start_pts=0:end_pts="@ + signed_dec(ticks(e.nanoseconds as int, tb))),
        (None, None) => None,
    }
}

fn tick(t: MediaTime, tb: Rational) -> (r: i128)
    requires
        tb.numerator != 0,
    ensures
        r == ticks(t.nanoseconds as int, tb),
{
    let ns = t.nanoseconds as i128;
    let den = tb.denominator as i128;
    assert(-0x8000000000000000 * 0x80000000 <= ns * den <= 0x8000000000000000 * 0x80000000) by (nonlinear_arith)
        requires -0x8000000000000000 <= ns <= 0x8000000000000000, -0x80000000 <= den <= 0x80000000;
    let numerator = ns * den;
    let denominator = 1000000000i128 * tb.numerator as i128;
    let a = numerator + denominator - 1;
    if denominator > 0 {
        if a >= 0 { a / denominator } else { -((-a) / denominator) }
    } else {
        if a >= 0 { -(a / (-denominator)) } else { (-a) / (-denominator) }
    }
}

/// The trim filter named `name` for the trim points, in ticks of `tb`.
pub fn trim_filter(name: &str, start: Option<MediaTime>, end: Option<MediaTime>, tb: Rational) -> (r: Option<String>)
    requires
        (start is Some || end is Some) ==> tb.numerator != 0,
    ensures
        match trim_text(name@, start, end, tb) {
            Some(t) => r matches Some(s) && s@ == t,
            None => r is None,
        },
{
    match (start, end) {
        (Some(s), Some(e)) => {
            if s.nanoseconds < e.nanoseconds {
                let mut t = owned(name);
                push_str(&mut t, "=start_pts=");
                push_signed_wide(&mut t, tick(s, tb));
                push_str(&mut t, ":end_pts=");
                push_signed_wide(&mut t, tick(e, tb));
                Some(t)
            } else {
                None
            }
        },
        (Some(s), None) => {
            let mut t = owned(name);
            push_str(&mut t, "=start_pts=");
            push_signed_wide(&mut t, tick(s, tb));
            Some(t)
        },
        (None, Some(e)) => {
            let mut t = owned(name);
            push_str(&mut t, "=start_pts=0:end_pts=");
            push_signed_wide(&mut t, tick(e, tb));
            Some(t)
        },
        (None, None) => None,
    }
}

/// The bits of the factor 1.0.
pub const UNIT_FACTOR: u32 = 0x3f800000;

/// The trim points, rate and volume that an edit history sets: each is the
/// value of its last edit.
#[derive(Clone, Copy, Debug, Eq, PartialEq, Structural)]
pub struct EditState {
    pub trim_start: Option<MediaTime>,
    pub trim_end: Option<MediaTime>,
    pub rate: Factor,
    pub volume: Factor,
}

pub open spec fn state_of(ops: Seq<EditOperation>) -> EditState
    decreases ops.len(),
{
    if ops.len() == 0 {
        EditState { trim_start: None, trim_end: None, rate: Factor { bits: UNIT_FACTOR }, volume: Factor { bits: UNIT_FACTOR } }
    } else {
        let s = state_of(ops.drop_last());
        match ops.last() {
            EditOperation::SetTrimStart(t) => EditState { trim_start: Some(t), ..s },
            EditOperation::SetTrimEnd(t) => EditState { trim_end: Some(t), ..s },
            EditOperation::SetRate(f) => EditState { rate: f, ..s },
            EditOperation::SetVolume(f) => EditState { volume: f, ..s },
            _ => s,
        }
    }
}

/// Trim points are valid when not negative and the start, zero without
/// one, is earlier than the end.
pub open spec fn trim_valid(s: EditState) -> bool {
    let start = match s.trim_start { Some(t) => t.nanoseconds as int, None => 0 };
    &&& start >= 0
    &&& (s.trim_end matches Some(e) ==> start < e.nanoseconds)
}

impl EditState {
    pub fn from_operations(ops: &[EditOperation]) -> (r: EditState)
        ensures
            r == state_of(ops@),
    {
        let mut r = EditState { trim_start: None, trim_end: None, rate: Factor { bits: UNIT_FACTOR }, volume: Factor { bits: UNIT_FACTOR } };
        let mut i: usize = 0;
        while i < ops.len()
            invariant
                i <= ops@.len(),
                r == state_of(ops@.take(i as int)),
            decreases ops@.len() - i,
        {
            assert(ops@.take(i as int + 1).drop_last() =~= ops@.take(i as int));
            match &ops[i] {
                EditOperation::SetTrimStart(t) => r.trim_start = Some(*t),
                EditOperation::SetTrimEnd(t) => r.trim_end = Some(*t),
                EditOperation::SetRate(f) => r.rate = *f,
                EditOperation::SetVolume(f) => r.volume = *f,
                _ => {},
            }
            i = i + 1;
        }
        assert(ops@.take(ops@.len() as int) =~= ops@);
        r
    }

    pub fn trim_is_valid(&self) -> (r: bool)
        ensures
            r == trim_valid(*self),
    {
        let start: i64 = match self.trim_start { Some(t) => t.nanoseconds, None => 0 };
        start >= 0 && match self.trim_end { Some(e) => start < e.nanoseconds, None => true }
    }

    pub fn trimmed(&self) -> (r: bool)
        ensures
            r == (self.trim_start is Some || self.trim_end is Some),
    {
        self.trim_start.is_some() || self.trim_end.is_some()
    }
}

/// Renderings of the rate and volume, which are floating point: the rate
/// to four decimals, the tempo filters that realize it, and the volume to
/// four decimals. Each is present only when its factor is not one.
pub struct FactorTexts {
    pub rate: Option<String>,
    pub tempo: Vec<String>,
    pub volume: Option<String>,
}

pub open spec fn opt_view(o: Option<String>) -> Option<Seq<char>> {
    match o {
        Some(s) => Some(s@),
        None => None,
    }
}

/// Video filters: the visual edits, the trim, and the timestamp reset with
/// the rate.
pub open spec fn video_chain(visual: Seq<Seq<char>>, s: EditState, tb: Option<Rational>, rate: Option<Seq<char>>) -> Seq<Seq<char>> {
    let trimmed = match tb {
        Some(b) => match trim_text("trim"@, s.trim_start, s.trim_end, b) { Some(t) => visual.push(t), None => visual },
        None => visual,
    };
    if s.trim_start is Some || s.trim_end is Some || rate is Some {
        trimmed.push(match rate { None => "setpts=PTS-STARTPTS"@, Some(r) => "setpts=(PTS-STARTPTS)/"@ + r })
    } else {
        trimmed
    }
}

/// Audio filters: the trim with its timestamp reset, the tempo, the volume.
pub open spec fn audio_chain(s: EditState, tb: Option<Rational>, tempo: Seq<Seq<char>>, rate: Option<Seq<char>>, volume: Option<Seq<char>>) -> Seq<Seq<char>> {
    let trimmed = match tb {
        Some(b) => match trim_text("atrim"@, s.trim_start, s.trim_end, b) {
            Some(t) => seq![t, "asetpts=PTS-STARTPTS"@],
            None => Seq::empty(),
        },
        None => Seq::empty(),
    };
    let tempoed = if rate is Some { trimmed + tempo } else { trimmed };
    match volume {
        Some(v) => tempoed.push("volume="@ + v),
        None => tempoed,
    }
}

/// Time bases that trim filters can use.
pub open spec fn base_ok(tb: Option<Rational>) -> bool {
    tb matches Some(b) ==> b.numerator != 0
}

/// A trim needs a time base that counts positive ticks.
pub open spec fn trims_countable(s: EditState, tb: Option<Rational>) -> bool {
    (s.trim_start is Some || s.trim_end is Some) ==> base_ok(tb)
}

pub fn video_filters(visual: Vec<String>, s: &EditState, tb: Option<Rational>, rate: &Option<String>) -> (r: Vec<String>)
    requires
        trims_countable(*s, tb),
    ensures
        strings_view(r@) == video_chain(strings_view(visual@), *s, tb, opt_view(*rate)),
{
    let mut filters = visual;
    let ghost start = strings_view(filters@);
    match tb {
        Some(b) => match trim_filter("trim", s.trim_start, s.trim_end, b) {
            Some(t) => {
                proof { reveal_strlit("trim"); }
                filters.push(t);
                assert(strings_view(filters@) =~= start.push(t@));
            },
            None => {},
        },
        None => {},
    }
    let ghost trimmed = strings_view(filters@);
    if s.trim_start.is_some() || s.trim_end.is_some() || rate.is_some() {
        let reset = match rate {
            None => owned("setpts=PTS-STARTPTS"),
            Some(r) => {
                let mut t = owned("setpts=(PTS-STARTPTS)/");
                push_str(&mut t, r.as_str());
                t
            },
        };
        filters.push(reset);
        assert(strings_view(filters@) =~= trimmed.push(reset@));
    }
    filters
}

pub fn audio_filters(s: &EditState, tb: Option<Rational>, texts: &FactorTexts) -> (r: Vec<String>)
    requires
        trims_countable(*s, tb),
    ensures
        strings_view(r@) == audio_chain(*s, tb, strings_view(texts.tempo@), opt_view(texts.rate), opt_view(texts.volume)),
{
    let mut filters: Vec<String> = Vec::new();
    match tb {
        Some(b) => match trim_filter("atrim", s.trim_start, s.trim_end, b) {
            Some(t) => {
                filters.push(t);
                filters.push(owned("asetpts=PTS-STARTPTS"));
            },
            None => {},
        },
        None => {},
    }
    let ghost trimmed = strings_view(filters@);
    assert(trimmed =~= match tb {
        Some(b) => match trim_text("atrim"@, s.trim_start, s.trim_end, b) {
            Some(t) => seq![t, "asetpts=PTS-STARTPTS"@],
            None => Seq::<Seq<char>>::empty(),
        },
        None => Seq::<Seq<char>>::empty(),
    });
    if texts.rate.is_some() {
        let mut i: usize = 0;
        while i < texts.tempo.len()
            invariant
                i <= texts.tempo@.len(),
                strings_view(filters@) == trimmed + strings_view(texts.tempo@).take(i as int),
            decreases texts.tempo@.len() - i,
        {
            let ghost before = strings_view(filters@);
            let t = owned(texts.tempo[i].as_str());
            filters.push(t);
            assert(strings_view(filters@) =~= before.push(t@));
            assert(strings_view(texts.tempo@).take(i as int + 1) =~= strings_view(texts.tempo@).take(i as int).push(t@));
            i = i + 1;
            assert(strings_view(filters@) =~= trimmed + strings_view(texts.tempo@).take(i as int));
        }
        assert(strings_view(texts.tempo@).take(texts.tempo@.len() as int) =~= strings_view(texts.tempo@));
    }
    let ghost tempoed = strings_view(filters@);
    match &texts.volume {
        Some(v) => {
            let mut t = owned("volume=");
            push_str(&mut t, v.as_str());
            filters.push(t);
            assert(strings_view(filters@) =~= tempoed.push(t@));
        },
        None => {},
    }
    filters
}

/// The parts joined by a separator.
pub open spec fn join(parts: Seq<Seq<char>>, sep: Seq<char>) -> Seq<char>
    decreases parts.len(),
{
    if parts.len() == 0 {
        Seq::empty()
    } else if parts.len() == 1 {
        parts[0]
    } else {
        join(parts.drop_last(), sep) + sep + parts.last()
    }
}

pub fn join_with(parts: &Vec<String>, sep: &str) -> (r: String)
    ensures
        r@ == join(strings_view(parts@), sep@),
{
    let mut r = String::new();
    let mut i: usize = 0;
    while i < parts.len()
        invariant
            i <= parts@.len(),
            r@ == join(strings_view(parts@).take(i as int), sep@),
        decreases parts@.len() - i,
    {
        let ghost t = strings_view(parts@).take(i as int + 1);
        assert(t.drop_last() =~= strings_view(parts@).take(i as int));
        if i > 0 {
            push_str(&mut r, sep);
        } else {
            assert(r@ =~= Seq::<char>::empty());
        }
        push_str(&mut r, parts[i].as_str());
        i = i + 1;
        assert(r@ =~= join(strings_view(parts@).take(i as int), sep@));
    }
    assert(strings_view(parts@).take(parts@.len() as int) =~= strings_view(parts@));
    r
}

/// The selected streams: index and time base of the best video and audio.
#[derive(Clone, Copy, Debug)]
pub struct ExportStreams {
    pub video: Option<(usize, Rational)>,
    pub audio: Option<(usize, Rational)>,
}

pub open spec fn time_base(s: Option<(usize, Rational)>) -> Option<Rational> {
    match s {
        Some((_, b)) => Some(b),
        None => None,
    }
}

/// `-map 0:index` for each selected stream, video first.
pub open spec fn stream_maps(st: ExportStreams) -> Seq<Seq<char>> {
    (match st.video { Some((i, _)) => seq!["-map"@, "0:"@ + dec(i as nat)], None => Seq::empty() })
        + (match st.audio { Some((i, _)) => seq!["-map"@, "0:"@ + dec(i as nat)], None => Seq::empty() })
}

/// An option followed by the joined filters, when there are any.
pub open spec fn filter_option(option: Seq<char>, filters: Seq<Seq<char>>) -> Seq<Seq<char>> {
    if filters.len() > 0 { seq![option, join(filters, ","@)] } else { Seq::empty() }
}

/// Filter arguments by document kind. OpenH264 gets a copy filter so that
/// no negative stride reaches the encoder.
pub open spec fn filter_arguments(kind: MediaKind, ops: Seq<EditOperation>, st: ExportStreams, codec: Seq<Seq<char>>,
    rate: Option<Seq<char>>, tempo: Seq<Seq<char>>, volume: Option<Seq<char>>) -> Seq<Seq<char>> {
    let state = state_of(ops);
    let visual = visual_filters_of(ops);
    let audio = filter_option("-af"@, audio_chain(state, time_base(st.audio), tempo, rate, volume));
    match kind {
        MediaKind::Image => filter_option("-vf"@, visual) + seq!["-frames:v"@, "1"@],
        MediaKind::Video => {
            let v = video_chain(visual, state, time_base(st.video), rate);
            filter_option("-vf"@, if codec.contains("libopenh264"@) { v.push("copy"@) } else { v }) + audio
        },
        MediaKind::Audio => audio,
    }
}

/// The encoder's arguments for an export. With a timeline graph, the graph
/// selects and joins the intervals; otherwise the selected streams are
/// mapped and the edits become per-stream filters.
pub open spec fn export_args(source: Seq<char>, target: Seq<char>, kind: MediaKind, ops: Seq<EditOperation>, hardware: bool,
    st: ExportStreams, rate: Option<Seq<char>>, tempo: Seq<Seq<char>>, volume: Option<Seq<char>>, graph: Option<Seq<char>>) -> Seq<Seq<char>> {
    let head = seq!["-hide_banner"@, "-loglevel"@, "error"@, "-y"@, "-nostdin"@, "-nostats"@, "-progress"@, "pipe:1"@, "-i"@, source, "-map_metadata"@, "0"@];
    let codec = codecs(kind, target, hardware);
    match graph {
        Some(g) => head + seq!["-copyts"@, "-start_at_zero"@, "-filter_complex"@, g]
            + (if st.video is Some { seq!["-map"@, "[outv]"@] } else { Seq::empty() })
            + (if st.audio is Some { seq!["-map"@, "[outa]"@] } else { Seq::empty() })
            + codec + seq![target],
        None => {
            let state = state_of(ops);
            let maps = if st.video is Some || st.audio is Some {
                (if state.trim_start is Some || state.trim_end is Some { seq!["-copyts"@, "-start_at_zero"@] } else { Seq::empty() })
                    + stream_maps(st)
            } else {
                Seq::empty()
            };
            head + maps + filter_arguments(kind, ops, st, codec, rate, tempo, volume) + codec + seq![target]
        },
    }
}

fn append(v: &mut Vec<String>, parts: Vec<String>)
    ensures
        strings_view(final(v)@) == strings_view(old(v)@) + strings_view(parts@),
{
    let ghost start = strings_view(v@);
    let mut i: usize = 0;
    while i < parts.len()
        invariant
            i <= parts@.len(),
            strings_view(v@) == start + strings_view(parts@).take(i as int),
        decreases parts@.len() - i,
    {
        let ghost before = strings_view(v@);
        let t = owned(parts[i].as_str());
        v.push(t);
        assert(strings_view(v@) =~= before.push(t@));
        assert(strings_view(parts@).take(i as int + 1) =~= strings_view(parts@).take(i as int).push(t@));
        i = i + 1;
    }
    assert(strings_view(parts@).take(parts@.len() as int) =~= strings_view(parts@));
}

fn push_text(v: &mut Vec<String>, t: &str)
    ensures
        strings_view(final(v)@) == strings_view(old(v)@).push(t@),
{
    let ghost start = strings_view(v@);
    let s = owned(t);
    v.push(s);
    assert(strings_view(v@) =~= start.push(t@));
}

fn push_map(v: &mut Vec<String>, index: usize)
    ensures
        strings_view(final(v)@) == strings_view(old(v)@) + seq!["-map"@, "0:"@ + dec(index as nat)],
{
    let ghost start = strings_view(v@);
    push_text(v, "-map");
    let mut t = owned("0:");
    push_dec(&mut t, index as u64);
    push_text(v, t.as_str());
    assert(strings_view(v@) =~= start + seq!["-map"@, "0:"@ + dec(index as nat)]);
}

fn push_filters(v: &mut Vec<String>, option: &str, filters: &Vec<String>)
    ensures
        strings_view(final(v)@) == strings_view(old(v)@) + filter_option(option@, strings_view(filters@)),
{
    let ghost start = strings_view(v@);
    if filters.len() > 0 {
        push_text(v, option);
        let joined = join_with(filters, ",");
        proof { reveal_strlit(","); }
        push_text(v, joined.as_str());
        assert(strings_view(v@) =~= start + filter_option(option@, strings_view(filters@)));
    } else {
        assert(strings_view(v@) =~= start + filter_option(option@, strings_view(filters@)));
    }
}

pub fn contains_text(v: &Vec<String>, t: &str) -> (r: bool)
    ensures
        r == strings_view(v@).contains(t@),
{
    let mut i: usize = 0;
    while i < v.len()
        invariant
            i <= v@.len(),
            forall|k: int| 0 <= k < i ==> strings_view(v@)[k] != t@,
        decreases v@.len() - i,
    {
        if same_text(v[i].as_str(), t) {
            assert(strings_view(v@)[i as int] == t@);
            return true;
        }
        i = i + 1;
    }
    false
}

/// The encoder's arguments for an export; see [`export_args`].
#[verifier::rlimit(40)]
pub fn ffmpeg_arguments(source: &str, target: &str, kind: MediaKind, ops: &[EditOperation], hardware: bool,
    streams: &ExportStreams, texts: &FactorTexts, graph: &Option<String>) -> (r: Vec<String>)
    requires
        trims_countable(state_of(ops@), time_base(streams.video)),
        trims_countable(state_of(ops@), time_base(streams.audio)),
    ensures
        strings_view(r@) == export_args(source@, target@, kind, ops@, hardware, *streams,
            opt_view(texts.rate), strings_view(texts.tempo@), opt_view(texts.volume), opt_view(*graph)),
{
    let head = strings(&["-hide_banner", "-loglevel", "error", "-y", "-nostdin", "-nostats", "-progress", "pipe:1", "-i"]);
    let mut args = head;
    push_text(&mut args, source);
    push_text(&mut args, "-map_metadata");
    push_text(&mut args, "0");
    let ghost head_view = seq!["-hide_banner"@, "-loglevel"@, "error"@, "-y"@, "-nostdin"@, "-nostats"@, "-progress"@, "pipe:1"@, "-i"@, source@, "-map_metadata"@, "0"@];
    assert(strings_view(args@) =~= head_view);
    let codec = codec_arguments(kind, target, hardware);
    match graph {
        Some(g) => {
            push_text(&mut args, "-copyts");
            push_text(&mut args, "-start_at_zero");
            push_text(&mut args, "-filter_complex");
            push_text(&mut args, g.as_str());
            let ghost a1 = strings_view(args@);
            if streams.video.is_some() {
                push_text(&mut args, "-map");
                push_text(&mut args, "[outv]");
            }
            let ghost a2 = strings_view(args@);
            assert(a2 =~= a1 + (if streams.video is Some { seq!["-map"@, "[outv]"@] } else { Seq::<Seq<char>>::empty() }));
            if streams.audio.is_some() {
                push_text(&mut args, "-map");
                push_text(&mut args, "[outa]");
            }
            let ghost a3 = strings_view(args@);
            assert(a3 =~= a2 + (if streams.audio is Some { seq!["-map"@, "[outa]"@] } else { Seq::<Seq<char>>::empty() }));
            append(&mut args, codec);
            push_text(&mut args, target);
            return args;
        },
        None => {},
    }
    let state = EditState::from_operations(ops);
    let ghost a0 = strings_view(args@);
    if streams.video.is_some() || streams.audio.is_some() {
        if state.trimmed() {
            push_text(&mut args, "-copyts");
            push_text(&mut args, "-start_at_zero");
        }
        let ghost a1 = strings_view(args@);
        match streams.video {
            Some((index, _)) => push_map(&mut args, index),
            None => {},
        }
        match streams.audio {
            Some((index, _)) => push_map(&mut args, index),
            None => {},
        }
        assert(strings_view(args@) =~= a1 + stream_maps(*streams));
    }
    let ghost a_maps = strings_view(args@);
    let visual = visual_filters(ops);
    let has_openh264 = contains_text(&codec, "libopenh264");
    let tb_video = match streams.video { Some((_, b)) => Some(b), None => None };
    let tb_audio = match streams.audio { Some((_, b)) => Some(b), None => None };
    let ghost state_v = state_of(ops@);
    let ghost codec_v = strings_view(codec@);
    let ghost audio_v = filter_option("-af"@, audio_chain(state_v, time_base(streams.audio), strings_view(texts.tempo@), opt_view(texts.rate), opt_view(texts.volume)));
    match kind {
        MediaKind::Image => {
            push_filters(&mut args, "-vf", &visual);
            push_text(&mut args, "-frames:v");
            push_text(&mut args, "1");
            assert(strings_view(args@) =~= a_maps + (filter_option("-vf"@, visual_filters_of(ops@)) + seq!["-frames:v"@, "1"@]));
        },
        MediaKind::Video => {
            let mut video = video_filters(visual, &state, tb_video, &texts.rate);
            let ghost v0 = strings_view(video@);
            if has_openh264 {
                let c = owned("copy");
                video.push(c);
                assert(strings_view(video@) =~= v0.push("copy"@));
            }
            assert(strings_view(video@) == if codec_v.contains("libopenh264"@) { v0.push("copy"@) } else { v0 });
            push_filters(&mut args, "-vf", &video);
            let ghost a_video = strings_view(args@);
            let audio = audio_filters(&state, tb_audio, texts);
            push_filters(&mut args, "-af", &audio);
            assert(strings_view(args@) =~= a_maps + (filter_option("-vf"@, strings_view(video@)) + audio_v));
        },
        MediaKind::Audio => {
            let audio = audio_filters(&state, tb_audio, texts);
            push_filters(&mut args, "-af", &audio);
            assert(strings_view(args@) =~= a_maps + audio_v);
        },
    }
    let ghost a_filters = strings_view(args@);
    assert(a_filters =~= a_maps + filter_arguments(kind, ops@, *streams, strings_view(codec@),
        opt_view(texts.rate), strings_view(texts.tempo@), opt_view(texts.volume)));
    append(&mut args, codec);
    push_text(&mut args, target);
    args
}

} // verus!
