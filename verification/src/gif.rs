//! GIF animation: its frame delays and repetition, their translation into
//! the controls of other animated formats, and turning RGBA snapshots into
//! palette frames whose transparency follows the snapshot's alpha.
use crate::error::{check_cancelled, ExportError};
use crate::formats::Format;
use gif::{DecodeOptions, Encoder, Frame, MemoryLimit, Repeat};
use std::borrow::Cow;
use std::sync::atomic::AtomicBool;
use crate::path::{extension_equals, extension_is};
use crate::png::{anim_view, AnimView, PngMetadata};
use crate::text::{owned, push_str};
use vstd::prelude::*;

verus! {

/// Whether a path names a GIF file.
pub fn gif_path(path: &str) -> (r: bool)
    ensures
        r == extension_is(path@, "gif"@),
{
    extension_equals(path, "gif")
}

/// The error of a refused GIF export.
pub(crate) fn invalid(message: &str) -> (e: ExportError)
    ensures
        e matches ExportError::Failed(m) && m@ == "GIF export: "@ + message@,
{
    let mut m = owned("GIF export: ");
    push_str(&mut m, message);
    ExportError::Failed(m)
}

/// How often a GIF repeats after its first play.
#[derive(Clone, Copy, Debug, Eq, PartialEq, Structural)]
pub enum GifRepeat {
    Finite(u16),
    Infinite,
}

/// The frame delays, in hundredths of a second, and the repetition of a GIF.
#[derive(Debug)]
pub struct GifAnimation {
    pub delays: Vec<u16>,
    pub repeat: GifRepeat,
}

/// Total plays: GIF counts repeats after the first play (and no loop
/// extension as no repeat), other formats count plays, zero meaning endless.
pub open spec fn plays_of(repeat: GifRepeat) -> nat {
    match repeat {
        GifRepeat::Infinite => 0,
        GifRepeat::Finite(n) => n as nat + 1,
    }
}

/// An APNG delay: the GIF delay as numerator over a denominator of 100.
/// A GIF source refuses WebP output when it is animated and plays more
/// often than WebP can record.
pub open spec fn gif_refuses(gif: GifAnimation, format: Format) -> bool {
    format is Webp && gif.delays@.len() > 1 && plays_of(gif.repeat) > u16::MAX
}

pub open spec fn png_delay(d: u16) -> u32 {
    (d as nat * 65536 + 100) as u32
}

/// A WebP delay in milliseconds.
pub open spec fn webp_delay(d: u16) -> u32 {
    (d as nat * 10) as u32
}

impl GifAnimation {
    /// Whether there is more than one frame.
    pub fn is_animated(&self) -> (r: bool)
        ensures
            r == (self.delays@.len() > 1),
    {
        self.delays.len() > 1
    }

    /// The total number of plays.
    pub fn plays(&self) -> (r: u32)
        ensures
            r == plays_of(self.repeat),
    {
        match self.repeat {
            GifRepeat::Infinite => 0,
            GifRepeat::Finite(n) => n as u32 + 1,
        }
    }

    /// The total plays for WebP, which counts at most 65535.
    pub fn webp_plays(&self) -> (r: Result<u16, ExportError>)
        ensures
            plays_of(self.repeat) <= u16::MAX ==> r == Ok::<u16, ExportError>(plays_of(self.repeat) as u16),
            plays_of(self.repeat) > u16::MAX ==> (r matches Err(ExportError::Failed(m)) && m@ == "GIF export: "@
                + "65536 total plays exceed WebP's 65535-play limit; use GIF or APNG to retain repetition"@),
    {
        let plays = self.plays();
        if plays > 65535 {
            Err(invalid("65536 total plays exceed WebP's 65535-play limit; use GIF or APNG to retain repetition"))
        } else {
            Ok(plays as u16)
        }
    }

    /// Whether this source refuses an image format: an animation whose total
    /// plays exceed WebP's limit cannot become WebP.
    pub fn refuses(&self, format: Format) -> (r: bool)
        ensures
            r == gif_refuses(*self, format),
    {
        match format {
            Format::Webp => self.is_animated() && self.webp_plays().is_err(),
            _ => false,
        }
    }

    /// The frame delays for WebP, in milliseconds.
    pub fn webp_delays(&self) -> (r: Vec<u32>)
        ensures
            r@ == self.delays@.map_values(|d: u16| webp_delay(d)),
    {
        let mut r: Vec<u32> = Vec::new();
        let mut i: usize = 0;
        while i < self.delays.len()
            invariant
                i <= self.delays@.len(),
                r@ == self.delays@.take(i as int).map_values(|d: u16| webp_delay(d)),
            decreases self.delays@.len() - i,
        {
            r.push(self.delays[i] as u32 * 10);
            assert(r@ =~= self.delays@.take(i as int + 1).map_values(|d: u16| webp_delay(d)));
            i = i + 1;
        }
        assert(self.delays@.take(self.delays@.len() as int) =~= self.delays@);
        r
    }

    /// The APNG controls of the same animation: total plays, and each
    /// delay over a denominator of 100, every frame shown.
    pub fn png_metadata(&self) -> (r: PngMetadata)
        ensures
            r.chunks@.len() == 0,
            anim_view(r.animation) == Some(AnimView {
                plays: plays_of(self.repeat) as u32,
                delays: self.delays@.map_values(|d: u16| png_delay(d)),
                includes_default: true,
            }),
    {
        let mut delays: Vec<u32> = Vec::new();
        let mut i: usize = 0;
        while i < self.delays.len()
            invariant
                i <= self.delays@.len(),
                delays@ == self.delays@.take(i as int).map_values(|d: u16| png_delay(d)),
            decreases self.delays@.len() - i,
        {
            delays.push(self.delays[i] as u32 * 65536 + 100);
            assert(delays@ =~= self.delays@.take(i as int + 1).map_values(|d: u16| png_delay(d)));
            i = i + 1;
        }
        assert(self.delays@.take(self.delays@.len() as int) =~= self.delays@);
        PngMetadata::from_animation(self.plays(), delays)
    }

    /// Whether two animations have the same delays and repetition.
    pub fn same_controls(&self, other: &GifAnimation) -> (r: bool)
        ensures
            r == (self.delays@ == other.delays@ && self.repeat == other.repeat),
    {
        if self.delays.len() != other.delays.len() {
            return false;
        }
        let mut i: usize = 0;
        while i < self.delays.len()
            invariant
                i <= self.delays@.len(),
                self.delays@.len() == other.delays@.len(),
                forall|k: int| 0 <= k < i ==> self.delays@[k] == other.delays@[k],
            decreases self.delays@.len() - i,
        {
            if self.delays[i] != other.delays[i] {
                return false;
            }
            i = i + 1;
        }
        assert(self.delays@ =~= other.delays@);
        self.repeat == other.repeat
    }
}

/// A pixel after thresholding: alpha below 128 clears the whole pixel,
/// any other alpha becomes opaque.
pub open spec fn thresholded(p: Seq<u8>, i: int) -> u8 {
    let base = i - i % 4;
    if p[base + 3] < 128 { 0 } else if i % 4 == 3 { 255 } else { p[i] }
}

/// The pixels thresholded, whole pixels only.
pub open spec fn thresholded_all(p: Seq<u8>) -> Seq<u8> {
    Seq::new(p.len(), |i: int| if i - i % 4 + 3 < p.len() { thresholded(p, i) } else { p[i] })
}

/// Thresholds the alpha of RGBA pixels in place.
pub fn threshold_alpha(pixels: &mut Vec<u8>)
    ensures
        final(pixels)@ == thresholded_all(old(pixels)@),
{
    let ghost before = pixels@;
    let n = pixels.len();
    let mut i: usize = 0;
    while n - i >= 4
        invariant
            n == pixels@.len(),
            n == before.len(),
            i % 4 == 0,
            i <= n,
            forall|k: int| 0 <= k < i ==> pixels@[k] == #[trigger] thresholded_all(before)[k],
            forall|k: int| i <= k < n ==> pixels@[k] == before[k],
        decreases n - i,
    {
        if pixels[i + 3] < 128 {
            pixels.set(i, 0);
            pixels.set(i + 1, 0);
            pixels.set(i + 2, 0);
            pixels.set(i + 3, 0);
        } else {
            pixels.set(i + 3, 255);
        }
        proof {
            assert forall|k: int| 0 <= k < i + 4 implies pixels@[k] == #[trigger] thresholded_all(before)[k] by {
                if k >= i {
                    assert(k - k % 4 == i);
                }
            }
        }
        i = i + 4;
    }
    assert forall|k: int| 0 <= k < n implies pixels@[k] == #[trigger] thresholded_all(before)[k] by {
        if k >= i {
            assert(k - k % 4 + 3 >= n);
        }
    }
    assert(pixels@ =~= thresholded_all(before));
}


/// What `gif::Frame::from_rgba_speed` makes of RGBA pixels at speed 10:
/// one palette index per pixel, the RGB palette, and the transparent index.
pub uninterp spec fn quantized(width: u16, height: u16, pixels: Seq<u8>) -> (Seq<u8>, Option<Seq<u8>>, Option<u8>);

/// The bytes of an optional vector.
pub open spec fn opt_bytes(o: Option<Vec<u8>>) -> Option<Seq<u8>> {
    match o {
        Some(v) => Some(v@),
        None => None,
    }
}

/// Trusted: `gif::Frame::from_rgba_speed` builds an indexed frame from RGBA
/// pixels (an exact palette for at most 256 colors, NeuQuant otherwise). It
/// is a function of its arguments; its buffer holds one index per pixel and
/// its palette is always present, with at most 256 RGB entries. It panics
/// unless there are exactly `width * height * 4` bytes. The call is made on
/// a copy; on thresholded pixels it would leave them unchanged anyway.
#[verifier::external_body]
fn quantize(width: u16, height: u16, pixels: &[u8]) -> (r: (Vec<u8>, Option<Vec<u8>>, Option<u8>))
    requires
        pixels@.len() == width as nat * height as nat * 4,
    ensures
        quantized(width, height, pixels@) == (r.0@, opt_bytes(r.1), r.2),
        r.0@.len() == width as nat * height as nat,
        r.1 is Some,
        opt_bytes(r.1)->0.len() % 3 == 0,
        opt_bytes(r.1)->0.len() <= 768,
{
    let mut copy = pixels.to_vec();
    let frame = gif::Frame::from_rgba_speed(width, height, &mut copy, 10);
    (frame.buffer.into_owned(), frame.palette, frame.transparent)
}

/// The squared distance between a palette entry and the color of the
/// pixel at byte `at`.
pub open spec fn distance(palette: Seq<u8>, e: int, px: Seq<u8>, at: int) -> int {
    (palette[3 * e] - px[at]) * (palette[3 * e] - px[at])
        + (palette[3 * e + 1] - px[at + 1]) * (palette[3 * e + 1] - px[at + 1])
        + (palette[3 * e + 2] - px[at + 2]) * (palette[3 * e + 2] - px[at + 2])
}

/// The entry among the first `k`, other than the transparent one, closest
/// to the pixel at byte `at`; the first of equally close entries.
pub open spec fn closest(palette: Seq<u8>, t: u8, px: Seq<u8>, at: int, k: int) -> Option<int>
    decreases k,
{
    if k <= 0 {
        None
    } else {
        let b = closest(palette, t, px, at, k - 1);
        if k - 1 == t as int {
            b
        } else {
            match b {
                None => Some(k - 1),
                Some(i) => if distance(palette, k - 1, px, at) < distance(palette, i, px, at) { Some(k - 1) } else { Some(i) },
            }
        }
    }
}

/// The palette index of pixel `i` once transparency follows alpha: a
/// transparent pixel takes the transparent index, and a visible pixel that
/// was given it takes the closest other entry instead.
pub open spec fn fixed_index(buffer: Seq<u8>, palette: Seq<u8>, t: u8, px: Seq<u8>, i: int) -> u8 {
    if px[4 * i + 3] == 0 {
        t
    } else if buffer[i] == t {
        match closest(palette, t, px, 4 * i, (palette.len() / 3) as int) {
            Some(j) => j as u8,
            None => buffer[i],
        }
    } else {
        buffer[i]
    }
}

/// One indexed GIF frame.
#[derive(Debug)]
pub struct GifFrame {
    pub width: u16,
    pub height: u16,
    pub buffer: Vec<u8>,
    pub palette: Option<Vec<u8>>,
    pub transparent: Option<u8>,
    pub delay: u16,
    pub dispose: GifDisposal,
}

pub struct GifFrameView {
    pub width: u16,
    pub height: u16,
    pub buffer: Seq<u8>,
    pub palette: Option<Seq<u8>>,
    pub transparent: Option<u8>,
    pub delay: u16,
    pub dispose: GifDisposal,
}

impl View for GifFrame {
    type V = GifFrameView;

    open spec fn view(&self) -> GifFrameView {
        GifFrameView {
            width: self.width, height: self.height, buffer: self.buffer@, palette: opt_bytes(self.palette),
            transparent: self.transparent, delay: self.delay, dispose: self.dispose,
        }
    }
}

pub open spec fn frames_view(v: Seq<GifFrame>) -> Seq<GifFrameView> {
    Seq::new(v.len(), |i: int| v[i]@)
}

/// The palette frame of an RGBA snapshot: its thresholded pixels quantized,
/// with transparent pixels on the transparent index and visible pixels off
/// it; no delay, and the previous frame kept.
pub open spec fn palette_frame_view(width: u16, height: u16, pixels: Seq<u8>) -> GifFrameView {
    let t = thresholded_all(pixels);
    let q = quantized(width, height, t);
    GifFrameView {
        width, height,
        buffer: match q.2 {
            None => q.0,
            Some(x) => Seq::new(q.0.len(), |i: int| fixed_index(q.0, q.1->0, x, t, i)),
        },
        palette: q.1, transparent: q.2, delay: 0, dispose: GifDisposal::Keep,
    }
}

/// What a viewer does with a frame before showing the next one.
#[derive(Clone, Copy, Debug, Eq, PartialEq, Structural)]
pub enum GifDisposal {
    Any,
    Keep,
    Background,
    Previous,
}

proof fn lemma_closest_range(palette: Seq<u8>, t: u8, px: Seq<u8>, at: int, k: int)
    ensures
        closest(palette, t, px, at, k) matches Some(j) ==> 0 <= j < k && j != t as int,
    decreases k,
{
    if k > 0 {
        lemma_closest_range(palette, t, px, at, k - 1);
    }
}

fn gap(a: u8, b: u8) -> (r: i32)
    ensures
        r == (a - b) * (a - b),
        0 <= r <= 65025,
{
    let d = a as i32 - b as i32;
    assert(0 <= d * d <= 65025) by (nonlinear_arith)
        requires -255 <= d <= 255;
    d * d
}

fn closest_entry(palette: &Vec<u8>, t: u8, px: &Vec<u8>, at: usize) -> (r: Option<usize>)
    requires
        at + 3 <= px@.len(),
        palette@.len() <= 768,
    ensures
        r matches Some(j) ==> closest(palette@, t, px@, at as int, (palette@.len() / 3) as int) == Some(j as int),
        r is None ==> closest(palette@, t, px@, at as int, (palette@.len() / 3) as int) is None,
{
    let n = palette.len() / 3;
    let plen = px.len();
    let mut best: Option<(usize, i32)> = None;
    let mut k: usize = 0;
    while k < n
        invariant
            n == palette@.len() / 3,
            n <= 256,
            k <= n,
            at + 3 <= px@.len(),
            plen == px@.len(),
            match best {
                Some((j, d)) => closest(palette@, t, px@, at as int, k as int) == Some(j as int)
                    && d == distance(palette@, j as int, px@, at as int) && j < k,
                None => closest(palette@, t, px@, at as int, k as int) is None,
            },
        decreases n - k,
    {
        if k != t as usize {
            let g0 = gap(palette[3 * k], px[at]);
            let g1 = gap(palette[3 * k + 1], px[at + 1]);
            let g2 = gap(palette[3 * k + 2], px[at + 2]);
            let d = g0 + g1 + g2;
            match best {
                Some((j, bd)) => {
                    if d < bd {
                        best = Some((k, d));
                    }
                },
                None => {
                    best = Some((k, d));
                },
            }
        }
        k = k + 1;
    }
    match best {
        Some((j, _)) => Some(j),
        None => None,
    }
}

/// Turns an RGBA snapshot into a palette frame: alpha is thresholded in
/// place, the pixels are quantized, and where a transparent index exists,
/// transparent pixels take it and visible pixels never do.
pub fn palette_frame(width: u16, height: u16, pixels: &mut Vec<u8>) -> (r: GifFrame)
    requires
        old(pixels)@.len() == width as nat * height as nat * 4,
    ensures
        final(pixels)@ == thresholded_all(old(pixels)@),
        r@ == palette_frame_view(width, height, old(pixels)@),
        r.buffer@.len() == width as nat * height as nat,
        ({
            let q = quantized(width, height, final(pixels)@);
            &&& r.width == width && r.height == height && r.delay == 0 && r.dispose == GifDisposal::Keep
            &&& opt_bytes(r.palette) == q.1
            &&& r.transparent == q.2
            &&& r.buffer@ == match q.2 {
                None => q.0,
                Some(t) => Seq::new(q.0.len(), |i: int| fixed_index(q.0, q.1->0, t, final(pixels)@, i)),
            }
        }),
{
    threshold_alpha(pixels);
    let (buffer, palette, transparent) = quantize(width, height, pixels.as_slice());
    let ghost q0 = buffer@;
    let t = match transparent {
        Some(t) => t,
        None => return GifFrame { width, height, buffer, palette, transparent, delay: 0, dispose: GifDisposal::Keep },
    };
    let entries = match &palette {
        Some(p) => p,
        None => { assert(false); return GifFrame { width, height, buffer, palette, transparent, delay: 0, dispose: GifDisposal::Keep }; },
    };
    let count = buffer.len();
    let plen = pixels.len();
    let mut fixed: Vec<u8> = Vec::new();
    let mut i: usize = 0;
    while i < count
        invariant
            count == q0.len(),
            count == width as nat * height as nat,
            pixels@.len() == count * 4,
            plen == pixels@.len(),
            buffer@ == q0,
            entries@.len() <= 768,
            i <= count,
            fixed@.len() == i,
            forall|k: int| 0 <= k < i ==> fixed@[k] == #[trigger] fixed_index(q0, entries@, t, pixels@, k),
        decreases count - i,
    {
        let at = 4 * i;
        let index = if pixels[at + 3] == 0 {
            t
        } else if buffer[i] == t {
            match closest_entry(entries, t, pixels, at) {
                Some(j) => {
                    proof { lemma_closest_range(entries@, t, pixels@, at as int, (entries@.len() / 3) as int); }
                    j as u8
                },
                None => buffer[i],
            }
        } else {
            buffer[i]
        };
        fixed.push(index);
        i = i + 1;
    }
    assert(fixed@ =~= Seq::new(q0.len(), |k: int| fixed_index(q0, entries@, t, pixels@, k)));
    GifFrame { width, height, buffer: fixed, palette, transparent, delay: 0, dispose: GifDisposal::Keep }
}


/// Most bytes of one decoded canvas or frame.
pub const CANVAS_LIMIT: u64 = 536870912;
/// Most frames of an animation.
pub const FRAME_LIMIT: usize = 65536;

/// Whether an error refuses a GIF export, or reports cancellation.
pub open spec fn gif_refusal(e: ExportError) -> bool {
    e is Cancelled || (e matches ExportError::Failed(m) && m@.len() >= 12 && m@.take(12) == "GIF export: "@)
}

proof fn lemma_invalid_refuses(m: Seq<char>, t: Seq<char>)
    requires
        m == "GIF export: "@ + t,
    ensures
        m.len() >= 12 && m.take(12) == "GIF export: "@,
{
    reveal_strlit("GIF export: ");
    assert(m.take(12) =~= "GIF export: "@);
}

fn refuse(message: &str) -> (e: ExportError)
    ensures
        gif_refusal(e),
        e matches ExportError::Failed(m) && m@ == "GIF export: "@ + message@,
{
    let e = invalid(message);
    proof {
        if let ExportError::Failed(m) = &e {
            lemma_invalid_refuses(m@, message@);
        }
    }
    e
}

/// The bytes of an RGBA canvas.
fn canvas_bytes(width: u16, height: u16) -> (r: u64)
    ensures
        r == width as nat * height as nat * 4,
{
    let w = width as u64;
    let h = height as u64;
    assert(w * h <= 65535 * 65535) by (nonlinear_arith)
        requires w <= 65535, h <= 65535;
    w * h * 4
}

/// The canvas size that the GIF decoder reads from the header of `bytes`,
/// or its error text.
pub uninterp spec fn gif_canvas_of(bytes: Seq<u8>, limit: u64) -> Result<(u16, u16), Seq<char>>;

/// The delay of each of the first `most` frames that the GIF decoder
/// decodes from `bytes`, in order, with the repetition it read (`None` for
/// endless), or its error text.
pub uninterp spec fn gif_frames_of(bytes: Seq<u8>, limit: u64, most: usize) -> Result<(Seq<u16>, Option<u16>), Seq<char>>;

/// Trusted: `gif::DecodeOptions::read_info`, with frame consistency and LZW
/// end-code checks and at most `limit` bytes of memory per frame, opens a
/// GIF held in memory; the result is the canvas `width` and `height`, or
/// the decoder's error text.
#[verifier::external_body]
fn gif_header(bytes: &[u8], limit: u64) -> (r: Result<(u16, u16), String>)
    requires
        limit > 0,
    ensures
        match r {
            Ok(c) => gif_canvas_of(bytes@, limit) == Ok::<(u16, u16), Seq<char>>(c),
            Err(t) => gif_canvas_of(bytes@, limit) == Err::<(u16, u16), Seq<char>>(t@),
        },
{
    let mut options = DecodeOptions::new();
    options.check_frame_consistency(true);
    options.check_lzw_end_code(true);
    options.set_memory_limit(MemoryLimit::Bytes(limit.try_into().expect("positive limit")));
    options.read_info(bytes).map(|decoder| (decoder.width(), decoder.height())).map_err(|e| e.to_string())
}

/// Trusted: with the same options, `gif::Decoder::read_next_frame` called
/// until it gives no frame or has given `most`; the result is each decoded
/// frame's `delay`, then `Decoder::repeat`, or the decoder's first error
/// text. `Iterator::take` stops the decoding after `most` frames.
#[verifier::external_body]
fn gif_frames(bytes: &[u8], limit: u64, most: usize) -> (r: Result<(Vec<u16>, Option<u16>), String>)
    requires
        limit > 0,
    ensures
        match r {
            Ok((d, n)) => gif_frames_of(bytes@, limit, most) == Ok::<(Seq<u16>, Option<u16>), Seq<char>>((d@, n))
                && d@.len() <= most,
            Err(t) => gif_frames_of(bytes@, limit, most) == Err::<(Seq<u16>, Option<u16>), Seq<char>>(t@),
        },
{
    let mut options = DecodeOptions::new();
    options.check_frame_consistency(true);
    options.check_lzw_end_code(true);
    options.set_memory_limit(MemoryLimit::Bytes(limit.try_into().expect("positive limit")));
    let mut decoder = options.read_info(bytes).map_err(|e| e.to_string())?;
    let frames = std::iter::from_fn(|| decoder.read_next_frame().map(|f| f.map(|f| f.delay)).transpose()).take(most);
    let delays = frames.collect::<Result<Vec<u16>, _>>().map_err(|e| e.to_string())?;
    let repeat = match decoder.repeat() { Repeat::Finite(n) => Some(n), Repeat::Infinite => None };
    Ok((delays, repeat))
}

pub open spec fn repeat_of(n: Option<u16>) -> GifRepeat {
    match n {
        Some(k) => GifRepeat::Finite(k),
        None => GifRepeat::Infinite,
    }
}

/// What reading a GIF gives: its delays and repetition, refused when the
/// canvas exceeds 512 MiB, when it has more than 65536 frames or none, or
/// when the decoder refuses it; decoding stops at the first frame past the
/// limit.
pub open spec fn gif_read(bytes: Seq<u8>) -> Result<(Seq<u16>, GifRepeat), Seq<char>> {
    match gif_canvas_of(bytes, CANVAS_LIMIT) {
        Err(t) => Err(t),
        Ok((w, h)) => if w * h * 4 > CANVAS_LIMIT {
            Err("canvas exceeds 512 MiB"@)
        } else {
            match gif_frames_of(bytes, CANVAS_LIMIT, (FRAME_LIMIT + 1) as usize) {
                Err(t) => Err(t),
                Ok((d, n)) => if d.len() > FRAME_LIMIT {
                    Err("animation exceeds 65536 frames"@)
                } else if d.len() == 0 {
                    Err("no image frames"@)
                } else {
                    Ok((d, repeat_of(n)))
                },
            }
        },
    }
}

/// Whether an error reports reading `bytes`: cancellation, or the refusal
/// that `gif_read` names.
pub open spec fn gif_read_reports(e: ExportError, bytes: Seq<u8>) -> bool {
    e is Cancelled || (e matches ExportError::Failed(m) && (gif_read(bytes) matches Err(t) && m@ == "GIF export: "@ + t))
}

impl GifAnimation {
    fn decode(bytes: &[u8], cancelled: &AtomicBool) -> (r: Result<GifAnimation, ExportError>)
        ensures
            r matches Ok(a) ==> gif_read(bytes@) == Ok::<(Seq<u16>, GifRepeat), Seq<char>>((a.delays@, a.repeat)),
            r matches Err(e) ==> gif_refusal(e) && gif_read_reports(e, bytes@),
    {
        let (width, height) = match gif_header(bytes, CANVAS_LIMIT) {
            Ok(c) => c,
            Err(t) => return Err(refuse(t.as_str())),
        };
        if canvas_bytes(width, height) > CANVAS_LIMIT {
            return Err(refuse("canvas exceeds 512 MiB"));
        }
        match check_cancelled(cancelled) {
            Ok(()) => {},
            Err(e) => return Err(e),
        }
        let (delays, repeat) = match gif_frames(bytes, CANVAS_LIMIT, FRAME_LIMIT + 1) {
            Ok(f) => f,
            Err(t) => return Err(refuse(t.as_str())),
        };
        if delays.len() > FRAME_LIMIT {
            return Err(refuse("animation exceeds 65536 frames"));
        }
        if delays.len() == 0 {
            return Err(refuse("no image frames"));
        }
        let repeat = match repeat {
            Some(n) => GifRepeat::Finite(n),
            None => GifRepeat::Infinite,
        };
        Ok(GifAnimation { delays, repeat })
    }

    /// Reads the frame delays and repetition of a GIF, decoding every frame
    /// so that damaged image data is refused too.
    pub fn read(bytes: &[u8], cancelled: &AtomicBool) -> (r: Result<GifAnimation, ExportError>)
        ensures
            r matches Ok(a) ==> gif_read(bytes@) == Ok::<(Seq<u16>, GifRepeat), Seq<char>>((a.delays@, a.repeat))
                && 1 <= a.delays@.len() <= FRAME_LIMIT,
            r matches Err(e) ==> gif_refusal(e) && gif_read_reports(e, bytes@),
    {
        let result = Self::decode(bytes, cancelled);
        match check_cancelled(cancelled) {
            Ok(()) => {},
            Err(e) => return Err(e),
        }
        result
    }
}

/// The header of a PNG snapshot: size, color type and bit depth by their
/// PNG numbers, and the frame and play counts of its animation control.
#[derive(Clone, Copy, Debug)]
pub struct SnapshotHeader {
    pub width: u32,
    pub height: u32,
    pub color_type: u8,
    pub bit_depth: u8,
    pub animation: Option<(u32, u32)>,
}

/// The header that `png::Decoder::read_info`, with at most `limit` bytes of
/// decoder memory, reads from the PNG at `start`: width, height, colour type
/// and bit depth by their PNG numbers, and the frame and play counts of
/// its animation control; or its error text.
pub uninterp spec fn snapshot_header_of(bytes: Seq<u8>, start: int, limit: int) -> Result<(u32, u32, u8, u8, Option<(u32, u32)>), Seq<char>>;

/// The `size` bytes that `png::Reader::next_frame` decodes from the PNG at
/// `start`, read to its end by `finish`, with the count of input bytes that
/// the decoder consumed; or its error text.
pub uninterp spec fn snapshot_pixels_of(bytes: Seq<u8>, start: int, limit: int, size: int) -> Result<(Seq<u8>, u64), Seq<char>>;

/// Trusted: `png::Decoder::read_info`, with at most `limit` bytes of
/// decoder memory, reads the header of the PNG that starts at `start`; the
/// result is the named header, or the decoder's error text.
#[verifier::external_body]
fn snapshot_header(bytes: &[u8], start: usize, limit: usize) -> (r: Result<SnapshotHeader, String>)
    requires
        start <= bytes@.len(),
    ensures
        match r {
            Ok(h) => snapshot_header_of(bytes@, start as int, limit as int)
                == Ok::<(u32, u32, u8, u8, Option<(u32, u32)>), Seq<char>>((h.width, h.height, h.color_type, h.bit_depth, h.animation)),
            Err(t) => snapshot_header_of(bytes@, start as int, limit as int) == Err::<(u32, u32, u8, u8, Option<(u32, u32)>), Seq<char>>(t@),
        },
{
    let mut decoder = png::Decoder::new(std::io::Cursor::new(&bytes[start..]));
    decoder.set_limits(png::Limits { bytes: limit });
    let reader = decoder.read_info().map_err(|e| e.to_string())?;
    let info = reader.info();
    Ok(SnapshotHeader { width: info.width, height: info.height, color_type: info.color_type as u8,
        bit_depth: info.bit_depth as u8, animation: info.animation_control.map(|a| (a.num_frames, a.num_plays)) })
}

/// Trusted: `png::Reader::next_frame` then `png::Reader::finish` decode the
/// PNG that starts at `start` into `size` bytes and read it to its end; the
/// result is the named pixels and consumed count, or the decoder's error
/// text. The decoder consumes only what it has read, so the count is within
/// the input.
#[verifier::external_body]
fn snapshot_pixels(bytes: &[u8], start: usize, limit: usize, size: usize) -> (r: Result<(Vec<u8>, u64), String>)
    requires
        start <= bytes@.len(),
    ensures
        match r {
            Ok((p, used)) => snapshot_pixels_of(bytes@, start as int, limit as int, size as int)
                == Ok::<(Seq<u8>, u64), Seq<char>>((p@, used)) && p@.len() == size && used <= bytes@.len() - start,
            Err(t) => snapshot_pixels_of(bytes@, start as int, limit as int, size as int) == Err::<(Seq<u8>, u64), Seq<char>>(t@),
        },
{
    let mut cursor = std::io::Cursor::new(&bytes[start..]);
    let mut decoder = png::Decoder::new(&mut cursor);
    decoder.set_limits(png::Limits { bytes: limit });
    let mut reader = decoder.read_info().map_err(|e| e.to_string())?;
    let mut pixels = vec![0; size];
    reader.next_frame(&mut pixels).map_err(|e| e.to_string())?;
    reader.finish().map_err(|e| e.to_string())?;
    drop(reader);
    Ok((pixels, cursor.position()))
}

/// Reading the static 8-bit RGBA PNG snapshot at `start`: its size, its
/// pixels and where the next snapshot starts, or the refusal.
pub open spec fn snapshot_spec(bytes: Seq<u8>, start: int) -> Result<(u16, u16, Seq<u8>, int), Seq<char>> {
    match snapshot_header_of(bytes, start, 536870912) {
        Err(t) => Err(t),
        Ok((w, h, c, d, a)) => if w > 65535 || h > 65535 {
            Err("out of range integral type conversion attempted"@)
        } else if c != 6 || d != 8 || a is Some {
            Err("expected static RGBA8 PNG snapshot"@)
        } else if w * h * 4 > CANVAS_LIMIT {
            Err("canvas exceeds 512 MiB"@)
        } else {
            match snapshot_pixels_of(bytes, start, 536870912, w * h * 4) {
                Err(t) => Err(t),
                Ok((p, used)) => Ok((w as u16, h as u16, p, start + used)),
            }
        },
    }
}

/// Reads the static 8-bit RGBA PNG snapshot at `start`: its size, its
/// pixels, and where the next snapshot starts.
fn read_snapshot(bytes: &[u8], start: usize) -> (r: Result<(u16, u16, Vec<u8>, usize), ExportError>)
    requires
        start <= bytes@.len(),
    ensures
        r matches Ok((w, h, p, next)) ==> snapshot_spec(bytes@, start as int) == Ok::<(u16, u16, Seq<u8>, int), Seq<char>>((w, h, p@, next as int))
            && p@.len() == w as nat * h as nat * 4 && start <= next <= bytes@.len(),
        r matches Err(e) ==> (e matches ExportError::Failed(m) && (snapshot_spec(bytes@, start as int) matches Err(t)
            && m@ == "GIF export: "@ + t)),
{
    let limit: usize = 536870912;
    let header = match snapshot_header(bytes, start, limit) {
        Ok(h) => h,
        Err(t) => return Err(refuse(t.as_str())),
    };
    if header.width > 65535 || header.height > 65535 {
        return Err(refuse("out of range integral type conversion attempted"));
    }
    let width = header.width as u16;
    let height = header.height as u16;
    if header.color_type != 6 || header.bit_depth != 8 || header.animation.is_some() {
        return Err(refuse("expected static RGBA8 PNG snapshot"));
    }
    let size = canvas_bytes(width, height);
    if size > CANVAS_LIMIT {
        return Err(refuse("canvas exceeds 512 MiB"));
    }
    let (pixels, used) = match snapshot_pixels(bytes, start, limit, size as usize) {
        Ok(r) => r,
        Err(t) => return Err(refuse(t.as_str())),
    };
    let total = bytes.len();
    assert(used <= total - start);
    let consumed = used as usize;
    assert(consumed == used);
    let ghost header_of = snapshot_header_of(bytes@, start as int, limit as int);
    assert(header_of == Ok::<(u32, u32, u8, u8, Option<(u32, u32)>), Seq<char>>((header.width, header.height, 6u8, 8u8, None)));
    assert(size == header.width * header.height * 4);
    Ok((width, height, pixels, start + consumed))
}

/// The frame that a snapshot becomes: its palette frame, shown for `delay`
/// and cleared before the next.
pub open spec fn gif_frame_of(width: u16, height: u16, pixels: Seq<u8>, delay: u16) -> GifFrameView {
    GifFrameView { delay, dispose: GifDisposal::Background, ..palette_frame_view(width, height, pixels) }
}

/// The frames from frame `i` on, after `acc`: frame 0 from the first
/// snapshot, each later one from the snapshot at `pos`, which must have the
/// first one's size; with where the snapshots end.
pub open spec fn snapshot_frames(staged: Seq<u8>, width: u16, height: u16, first: Seq<u8>, delays: Seq<u16>, i: int, pos: int,
    acc: Seq<GifFrameView>) -> Result<(Seq<GifFrameView>, int), Seq<char>>
    decreases delays.len() - i,
{
    if i < 0 || i >= delays.len() {
        Ok((acc, pos))
    } else if i == 0 {
        snapshot_frames(staged, width, height, first, delays, 1, pos, acc.push(gif_frame_of(width, height, first, delays[0])))
    } else {
        match snapshot_spec(staged, pos) {
            Err(t) => Err(t),
            Ok((w, h, p, next)) => if w != width || h != height {
                Err("encoded frame dimensions differ"@)
            } else {
                snapshot_frames(staged, width, height, first, delays, i + 1, next, acc.push(gif_frame_of(width, height, p, delays[i])))
            },
        }
    }
}

/// The repetition count a GIF records, `None` for endless.
pub open spec fn repeat_count(r: GifRepeat) -> Option<u16> {
    match r {
        GifRepeat::Finite(n) => Some(n),
        GifRepeat::Infinite => None,
    }
}

/// The bytes that `gif::Encoder` writes for a canvas, a repetition and
/// frames, or its error text.
pub uninterp spec fn gif_encoded(width: u16, height: u16, repeat: Option<u16>, frames: Seq<GifFrameView>) -> Result<Seq<u8>, Seq<char>>;

#[verifier::external_type_specification]
#[verifier::external_body]
pub struct ExDisposalMethod(gif::DisposalMethod);

/// Trusted: the `gif::DisposalMethod` of the same name.
#[verifier::external_body]
fn gif_disposal(d: GifDisposal) -> gif::DisposalMethod {
    match d {
        GifDisposal::Any => gif::DisposalMethod::Any,
        GifDisposal::Keep => gif::DisposalMethod::Keep,
        GifDisposal::Background => gif::DisposalMethod::Background,
        GifDisposal::Previous => gif::DisposalMethod::Previous,
    }
}

/// Trusted: `gif::Encoder::new` in memory for the canvas with no global
/// palette, `set_repeat` with the repetition (`None` for endless), then
/// `write_frame` for each frame at the canvas origin with its palette,
/// transparency, delay and disposal, and `into_inner`; the result is the
/// named bytes, or the first error text. `write_frame` asserts in debug
/// builds that a frame with a zero side has an empty buffer.
#[verifier::external_body]
fn encode_gif(width: u16, height: u16, repeat: Option<u16>, frames: &[GifFrame]) -> (r: Result<Vec<u8>, String>)
    requires
        forall|i: int| 0 <= i < frames@.len() ==> ((#[trigger] frames@[i]).width > 0 && frames@[i].height > 0) || frames@[i].buffer@.len() == 0,
    ensures
        match r {
            Ok(o) => gif_encoded(width, height, repeat, frames_view(frames@)) == Ok::<Seq<u8>, Seq<char>>(o@),
            Err(t) => gif_encoded(width, height, repeat, frames_view(frames@)) == Err::<Seq<u8>, Seq<char>>(t@),
        },
{
    let mut encoder = Encoder::new(Vec::new(), width, height, &[]).map_err(|e| e.to_string())?;
    encoder.set_repeat(repeat.map_or(Repeat::Infinite, Repeat::Finite)).map_err(|e| e.to_string())?;
    frames.iter().try_for_each(|f| encoder.write_frame(&Frame { width: f.width, height: f.height,
        buffer: Cow::Borrowed(&f.buffer), palette: f.palette.clone(), transparent: f.transparent,
        delay: f.delay, dispose: gif_disposal(f.dispose), ..Frame::default() })).map_err(|e| e.to_string())?;
    encoder.into_inner().map_err(|e| e.to_string())
}

/// What writing the snapshots in `staged` as an animation with `delays` and
/// `repeat` gives: one frame per delay, the first snapshot giving the
/// canvas; no snapshot may be left over; and the written GIF must read back
/// with the same delays and repetition.
pub open spec fn gif_written(delays: Seq<u16>, repeat: GifRepeat, staged: Seq<u8>) -> Result<Seq<u8>, Seq<char>> {
    match snapshot_spec(staged, 0) {
        Err(t) => Err(t),
        Ok((w, h, first, next)) => match snapshot_frames(staged, w, h, first, delays, 0, next, Seq::empty()) {
            Err(t) => Err(t),
            Ok((frames, end)) => if end < staged.len() {
                Err("encoder added animation frames"@)
            } else {
                match gif_encoded(w, h, repeat_count(repeat), frames) {
                    Err(t) => Err(t),
                    Ok(out) => match gif_read(out) {
                        Err(t) => Err(t),
                        Ok((d, r)) => if d == delays && r == repeat {
                            Ok(out)
                        } else {
                            Err("saved animation controls did not match source"@)
                        },
                    },
                }
            },
        },
    }
}

/// Whether an error reports writing `staged`: cancellation, or the refusal
/// that `gif_written` names.
pub open spec fn gif_written_reports(e: ExportError, delays: Seq<u16>, repeat: GifRepeat, staged: Seq<u8>) -> bool {
    e is Cancelled || (e matches ExportError::Failed(m) && (gif_written(delays, repeat, staged) matches Err(t) && m@ == "GIF export: "@ + t))
}

impl GifAnimation {
    #[verifier::rlimit(40)]
    fn encode(&self, staged: &[u8], cancelled: &AtomicBool) -> (r: Result<Vec<u8>, ExportError>)
        ensures
            r matches Ok(out) ==> gif_written(self.delays@, self.repeat, staged@) == Ok::<Seq<u8>, Seq<char>>(out@),
            r matches Err(e) ==> gif_written_reports(e, self.delays@, self.repeat, staged@),
    {
        let (width, height, first, mut pos) = match read_snapshot(staged, 0) {
            Ok(s) => s,
            Err(e) => return Err(e),
        };
        let ghost first_pixels = first@;
        let ghost start = pos as int;
        let mut pixels = first;
        let mut frames: Vec<GifFrame> = Vec::new();
        let mut i: usize = 0;
        assert(frames_view(frames@) =~= Seq::<GifFrameView>::empty());
        while i < self.delays.len()
            invariant
                i <= self.delays@.len(),
                pos <= staged@.len(),
                pixels@.len() == width as nat * height as nat * 4,
                i == 0 ==> pixels@ == first_pixels,
                snapshot_spec(staged@, 0) == Ok::<(u16, u16, Seq<u8>, int), Seq<char>>((width, height, first_pixels, start)),
                snapshot_frames(staged@, width, height, first_pixels, self.delays@, 0, start, Seq::empty())
                    == snapshot_frames(staged@, width, height, first_pixels, self.delays@, i as int, pos as int, frames_view(frames@)),
                forall|k: int| 0 <= k < frames@.len() ==> (#[trigger] frames@[k]).width == width && frames@[k].height == height
                    && frames@[k].buffer@.len() == width as nat * height as nat,
            decreases self.delays@.len() - i,
        {
            match check_cancelled(cancelled) {
                Ok(()) => {},
                Err(e) => return Err(e),
            }
            let ghost before = frames_view(frames@);
            if i != 0 {
                let (w, h, next, after) = match read_snapshot(staged, pos) {
                    Ok(s) => s,
                    Err(e) => return Err(e),
                };
                if w != width || h != height {
                    return Err(refuse("encoded frame dimensions differ"));
                }
                pixels = next;
                pos = after;
            }
            let ghost source = pixels@;
            let mut frame = palette_frame(width, height, &mut pixels);
            frame.delay = self.delays[i];
            frame.dispose = GifDisposal::Background;
            assert(frame@ == gif_frame_of(width, height, source, self.delays@[i as int]));
            frames.push(frame);
            assert(frames_view(frames@) =~= before.push(gif_frame_of(width, height, source, self.delays@[i as int])));
            i = i + 1;
        }
        if pos < staged.len() {
            return Err(refuse("encoder added animation frames"));
        }
        let repeat = match self.repeat {
            GifRepeat::Finite(n) => Some(n),
            GifRepeat::Infinite => None,
        };
        assert forall|k: int| 0 <= k < frames@.len() implies ((#[trigger] frames@[k]).width > 0 && frames@[k].height > 0)
            || frames@[k].buffer@.len() == 0 by {
            if width == 0 || height == 0 {
                assert(width as nat * height as nat == 0) by (nonlinear_arith)
                    requires width == 0 || height == 0;
            }
        }
        let out = match encode_gif(width, height, repeat, frames.as_slice()) {
            Ok(o) => o,
            Err(t) => return Err(refuse(t.as_str())),
        };
        let back = match GifAnimation::read(out.as_slice(), cancelled) {
            Ok(a) => a,
            Err(e) => return Err(e),
        };
        if !back.same_controls(self) {
            return Err(refuse("saved animation controls did not match source"));
        }
        match check_cancelled(cancelled) {
            Ok(()) => {},
            Err(e) => return Err(e),
        }
        Ok(out)
    }

    /// Writes the encoder's RGBA snapshots, one PNG per frame in `staged`,
    /// as this animation's GIF: each frame thresholded and quantized, shown
    /// for its delay and cleared before the next; the snapshots must have
    /// one size and match the frame count, and the written GIF must read
    /// back with the same delays and repetition.
    pub fn apply(&self, staged: &[u8], cancelled: &AtomicBool) -> (r: Result<Vec<u8>, ExportError>)
        ensures
            r matches Ok(out) ==> gif_written(self.delays@, self.repeat, staged@) == Ok::<Seq<u8>, Seq<char>>(out@)
                && gif_read(out@) == Ok::<(Seq<u16>, GifRepeat), Seq<char>>((self.delays@, self.repeat)),
            r matches Err(e) ==> gif_written_reports(e, self.delays@, self.repeat, staged@),
    {
        let result = self.encode(staged, cancelled);
        match check_cancelled(cancelled) {
            Ok(()) => {},
            Err(e) => return Err(e),
        }
        result
    }
}

} // verus!
