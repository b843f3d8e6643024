//! Judging the transparency of an encoded image from what the `image`
//! crate's decoders give: the composed RGBA frames of an animation, or the
//! samples of a still image.
use crate::error::ExportError;
use crate::formats::{alpha16, alpha16_kind, alpha8, alpha8_kind, format_accepts, most, most_transparent, rgba, rgba_kind, Format, Transparency};
use crate::gif::gif_path;
use crate::path::{extension_equals, extension_is};
use crate::png::png_path;
use crate::text::{owned, push_str};
use image::AnimationDecoder;
use image::DynamicImage::{
    ImageLuma16, ImageLuma8, ImageLumaA16, ImageLumaA8, ImageRgb16, ImageRgb32F, ImageRgb8, ImageRgba16, ImageRgba32F, ImageRgba8,
};
use image::{ColorType, ImageReader};
use std::io::Cursor;
use crate::images::StillSamples::{
    Luma16, Luma8, LumaA16, LumaA8, Other, Rgb16, Rgb32F, Rgb8, Rgba16, Rgba32F, Rgba8,
};
use image::ImageDecoder;
use vstd::prelude::*;

verus! {

/// Whether the decoder that the `image` crate picks for `bytes` reports a
/// colour type with alpha, or its error text.
pub uninterp spec fn image_alpha_of(bytes: Seq<u8>) -> Result<bool, Seq<char>>;

/// The composed RGBA8 frames that `image`'s GIF decoder gives, or `None` on
/// an error.
pub uninterp spec fn gif_composed_of(bytes: Seq<u8>) -> Option<Seq<Seq<u8>>>;

/// The composed RGBA8 frames that `image`'s APNG decoder gives, or `None`.
pub uninterp spec fn apng_composed_of(bytes: Seq<u8>) -> Option<Seq<Seq<u8>>>;

/// The composed RGBA8 frames that `image`'s WebP decoder gives, or `None`.
pub uninterp spec fn webp_composed_of(bytes: Seq<u8>) -> Option<Seq<Seq<u8>>>;

/// The colour type that `image`'s PNG decoder reports, or `None` when it
/// refuses the header.
pub uninterp spec fn png_color_of(bytes: Seq<u8>) -> Option<ImageColor>;

/// The still image that `image` decodes, by sample layout, or `None` on an
/// error.
pub uninterp spec fn still_samples_of(bytes: Seq<u8>) -> Option<StillSamplesView>;

/// The colour types of `image`'s decoders; `Other` for one that a later
/// version adds.
#[derive(Clone, Copy, Debug, Eq, PartialEq, Structural)]
pub enum ImageColor {
    L8,
    La8,
    Rgb8,
    Rgba8,
    L16,
    La16,
    Rgb16,
    Rgba16,
    Rgb32F,
    Rgba32F,
    Other,
}

/// Whether a colour type has alpha in 16-bit samples, a precision that
/// composed RGBA8 frames would round away.
pub open spec fn wide_alpha_spec(c: ImageColor) -> bool {
    c == ImageColor::La16 || c == ImageColor::Rgba16
}

pub fn wide_alpha(c: ImageColor) -> (r: bool)
    ensures
        r == wide_alpha_spec(c),
{
    match c {
        ImageColor::La16 | ImageColor::Rgba16 => true,
        _ => false,
    }
}

/// The samples of a decoded still image, by layout; 32-bit float samples
/// are not held, only their layout.
pub enum StillSamples {
    Luma8(Vec<u8>),
    LumaA8(Vec<u8>),
    Rgb8(Vec<u8>),
    Rgba8(Vec<u8>),
    Luma16(Vec<u16>),
    LumaA16(Vec<u16>),
    Rgb16(Vec<u16>),
    Rgba16(Vec<u16>),
    Rgb32F,
    Rgba32F,
    Other,
}

pub enum StillSamplesView {
    Luma8(Seq<u8>),
    LumaA8(Seq<u8>),
    Rgb8(Seq<u8>),
    Rgba8(Seq<u8>),
    Luma16(Seq<u16>),
    LumaA16(Seq<u16>),
    Rgb16(Seq<u16>),
    Rgba16(Seq<u16>),
    Rgb32F,
    Rgba32F,
    Other,
}

impl View for StillSamples {
    type V = StillSamplesView;

    open spec fn view(&self) -> StillSamplesView {
        match self {
            StillSamples::Luma8(a) => StillSamplesView::Luma8(a@),
            StillSamples::LumaA8(a) => StillSamplesView::LumaA8(a@),
            StillSamples::Rgb8(a) => StillSamplesView::Rgb8(a@),
            StillSamples::Rgba8(a) => StillSamplesView::Rgba8(a@),
            StillSamples::Luma16(b) => StillSamplesView::Luma16(b@),
            StillSamples::LumaA16(b) => StillSamplesView::LumaA16(b@),
            StillSamples::Rgb16(b) => StillSamplesView::Rgb16(b@),
            StillSamples::Rgba16(b) => StillSamplesView::Rgba16(b@),
            StillSamples::Rgb32F => StillSamplesView::Rgb32F,
            StillSamples::Rgba32F => StillSamplesView::Rgba32F,
            StillSamples::Other => StillSamplesView::Other,
        }
    }
}

pub open spec fn rows(s: Seq<Vec<u8>>) -> Seq<Seq<u8>> {
    Seq::new(s.len(), |i: int| s[i]@)
}

/// Trusted: `image::ImageReader::with_guessed_format` on the bytes, then
/// `into_decoder` and `ColorType::has_alpha` of its colour type; an error
/// is reported as its text.
#[verifier::external_body]
fn decoder_alpha(bytes: &[u8]) -> (r: Result<bool, String>)
    ensures
        match r {
            Ok(b) => image_alpha_of(bytes@) == Ok::<bool, Seq<char>>(b),
            Err(t) => image_alpha_of(bytes@) == Err::<bool, Seq<char>>(t@),
        },
{
    let reader = ImageReader::new(Cursor::new(bytes)).with_guessed_format().map_err(|e| e.to_string())?;
    reader.into_decoder().map(|d| d.color_type().has_alpha()).map_err(|e| e.to_string())
}

/// Trusted: `image::codecs::gif::GifDecoder` with default limits, its
/// frames composed by `into_frames`, each as raw RGBA8 bytes.
#[verifier::external_body]
fn gif_composed(bytes: &[u8]) -> (r: Option<Vec<Vec<u8>>>)
    ensures
        match r {
            Some(f) => gif_composed_of(bytes@) == Some(rows(f@)),
            None => gif_composed_of(bytes@) is None,
        },
{
    let mut decoder = image::codecs::gif::GifDecoder::new(Cursor::new(bytes)).ok()?;
    decoder.set_limits(image::Limits::default()).ok()?;
    decoder.into_frames().map(|f| f.map(|f| f.into_buffer().into_raw())).collect::<Result<Vec<_>, _>>().ok()
}

/// Trusted: `image::codecs::png::PngDecoder` with default limits, read as
/// an APNG, its frames composed by `into_frames`, each as raw RGBA8 bytes.
#[verifier::external_body]
fn apng_composed(bytes: &[u8]) -> (r: Option<Vec<Vec<u8>>>)
    ensures
        match r {
            Some(f) => apng_composed_of(bytes@) == Some(rows(f@)),
            None => apng_composed_of(bytes@) is None,
        },
{
    let mut decoder = image::codecs::png::PngDecoder::new(Cursor::new(bytes)).ok()?;
    decoder.set_limits(image::Limits::default()).ok()?;
    decoder.apng().ok()?.into_frames().map(|f| f.map(|f| f.into_buffer().into_raw())).collect::<Result<Vec<_>, _>>().ok()
}

/// Trusted: `image::codecs::webp::WebPDecoder` with default limits, its
/// frames composed by `into_frames`, each as raw RGBA8 bytes.
#[verifier::external_body]
fn webp_composed(bytes: &[u8]) -> (r: Option<Vec<Vec<u8>>>)
    ensures
        match r {
            Some(f) => webp_composed_of(bytes@) == Some(rows(f@)),
            None => webp_composed_of(bytes@) is None,
        },
{
    let mut decoder = image::codecs::webp::WebPDecoder::new(Cursor::new(bytes)).ok()?;
    decoder.set_limits(image::Limits::default()).ok()?;
    decoder.into_frames().map(|f| f.map(|f| f.into_buffer().into_raw())).collect::<Result<Vec<_>, _>>().ok()
}

/// Trusted: `image::codecs::png::PngDecoder::color_type`, as the colour
/// type of the same name; `None` when the decoder refuses the header.
#[verifier::external_body]
fn png_color(bytes: &[u8]) -> (r: Option<ImageColor>)
    ensures
        r == png_color_of(bytes@),
{
    let decoder = image::codecs::png::PngDecoder::new(Cursor::new(bytes)).ok()?;
    Some(match decoder.color_type() {
        ColorType::L8 => ImageColor::L8, ColorType::La8 => ImageColor::La8, ColorType::Rgb8 => ImageColor::Rgb8, ColorType::Rgba8 => ImageColor::Rgba8,
        ColorType::L16 => ImageColor::L16, ColorType::La16 => ImageColor::La16, ColorType::Rgb16 => ImageColor::Rgb16, ColorType::Rgba16 => ImageColor::Rgba16,
        ColorType::Rgb32F => ImageColor::Rgb32F, ColorType::Rgba32F => ImageColor::Rgba32F, _ => ImageColor::Other,
    })
}

/// Trusted: `image::ImageReader::with_guessed_format` then `decode`; the
/// decoded image by its `DynamicImage` variant, with its raw samples moved
/// out, except those of the float layouts; `None` on an error.
#[verifier::external_body]
fn still_samples(bytes: &[u8]) -> (r: Option<StillSamples>)
    ensures
        match r {
            Some(s) => still_samples_of(bytes@) == Some(s@),
            None => still_samples_of(bytes@) is None,
        },
{
    let image = ImageReader::new(Cursor::new(bytes)).with_guessed_format().ok()?.decode().ok()?;
    Some(match image {
        ImageLuma8(b) => Luma8(b.into_raw()), ImageLumaA8(b) => LumaA8(b.into_raw()),
        ImageRgb8(b) => Rgb8(b.into_raw()), ImageRgba8(b) => Rgba8(b.into_raw()),
        ImageLuma16(b) => Luma16(b.into_raw()), ImageLumaA16(b) => LumaA16(b.into_raw()),
        ImageRgb16(b) => Rgb16(b.into_raw()), ImageRgba16(b) => Rgba16(b.into_raw()),
        ImageRgb32F(_) => Rgb32F, ImageRgba32F(_) => Rgba32F, _ => Other,
    })
}

/// Whether an image's decoder reports an alpha channel.
pub fn has_alpha(bytes: &[u8]) -> (r: Result<bool, ExportError>)
    ensures
        r matches Ok(b) ==> image_alpha_of(bytes@) == Ok::<bool, Seq<char>>(b),
        r matches Err(e) ==> (e matches ExportError::Failed(m) && (image_alpha_of(bytes@) matches Err(t)
            && m@ == "Could not inspect image transparency: "@ + t)),
{
    match decoder_alpha(bytes) {
        Ok(b) => Ok(b),
        Err(t) => {
            let mut m = owned("Could not inspect image transparency: ");
            push_str(&mut m, t.as_str());
            Err(ExportError::Failed(m))
        },
    }
}

/// The most transparency that any of the frames shows.
pub open spec fn frames_kind(fs: Seq<Seq<u8>>) -> Transparency
    decreases fs.len(),
{
    if fs.len() == 0 {
        Transparency::Opaque
    } else {
        most(frames_kind(fs.drop_last()), rgba_kind(fs.last(), (fs.last().len() / 4) as int))
    }
}

/// The transparency of decoded frames; a decoding error counts as full.
pub open spec fn composed_kind(o: Option<Seq<Seq<u8>>>) -> Transparency {
    match o {
        None => Transparency::Full,
        Some(fs) => frames_kind(fs),
    }
}

/// The transparency of decoded still samples: by the alpha samples of a
/// layout with alpha, opaque for one without; an error counts as full;
/// `None` for float RGBA samples, which are judged outside the library.
pub open spec fn still_kind(o: Option<StillSamplesView>) -> Option<Transparency> {
    match o {
        None => Some(Transparency::Full),
        Some(StillSamplesView::LumaA8(a)) => Some(alpha8_kind(a, 2, (a.len() / 2) as int)),
        Some(StillSamplesView::Rgba8(a)) => Some(alpha8_kind(a, 4, (a.len() / 4) as int)),
        Some(StillSamplesView::LumaA16(b)) => Some(alpha16_kind(b, 2, (b.len() / 2) as int)),
        Some(StillSamplesView::Rgba16(b)) => Some(alpha16_kind(b, 4, (b.len() / 4) as int)),
        Some(StillSamplesView::Rgba32F) => None,
        Some(_) => Some(Transparency::Opaque),
    }
}

/// How transparent an image named `name` is: opaque unless its format
/// declares alpha; an animated GIF, APNG or WebP by its composed frames
/// (16-bit APNG alpha counts as full, and so does a refused header); any
/// other by its decoded samples, `None` when those are float RGBA.
pub open spec fn transparency_of(name: Seq<char>, bytes: Seq<u8>, animated: bool, declared: bool) -> Option<Transparency> {
    if !declared {
        Some(Transparency::Opaque)
    } else if animated && extension_is(name, "gif"@) {
        Some(composed_kind(gif_composed_of(bytes)))
    } else if animated && format_accepts(Format::Png, name) {
        match png_color_of(bytes) {
            Some(c) => if wide_alpha_spec(c) { Some(Transparency::Full) } else { Some(composed_kind(apng_composed_of(bytes))) },
            None => Some(Transparency::Full),
        }
    } else if animated && extension_is(name, "webp"@) {
        Some(composed_kind(webp_composed_of(bytes)))
    } else {
        still_kind(still_samples_of(bytes))
    }
}

fn frames_transparency(frames: Option<Vec<Vec<u8>>>) -> (r: Transparency)
    ensures
        r == composed_kind(match frames { Some(f) => Some(rows(f@)), None => None }),
{
    let frames = match frames {
        Some(f) => f,
        None => return Transparency::Full,
    };
    let mut result = Transparency::Opaque;
    let mut i: usize = 0;
    while i < frames.len()
        invariant
            i <= frames@.len(),
            result == frames_kind(rows(frames@).take(i as int)),
        decreases frames@.len() - i,
    {
        assert(rows(frames@).take(i as int + 1).drop_last() =~= rows(frames@).take(i as int));
        result = most_transparent(result, rgba(frames[i].as_slice()));
        i = i + 1;
    }
    assert(rows(frames@).take(frames@.len() as int) =~= rows(frames@));
    result
}

/// Judges the transparency of an encoded image named `name`, only when its
/// format declares alpha; a decoding error counts as full transparency.
/// `None` when the image decodes to float RGBA samples.
pub fn image_transparency(name: &str, bytes: &[u8], animated: bool, declared: bool) -> (r: Option<Transparency>)
    ensures
        r == transparency_of(name@, bytes@, animated, declared),
{
    if !declared {
        return Some(Transparency::Opaque);
    }
    proof {
        reveal_strlit("gif");
        reveal_strlit("webp");
    }
    if animated && gif_path(name) {
        return Some(frames_transparency(gif_composed(bytes)));
    }
    if animated && png_path(name) {
        return match png_color(bytes) {
            Some(c) => if wide_alpha(c) { Some(Transparency::Full) } else { Some(frames_transparency(apng_composed(bytes))) },
            None => Some(Transparency::Full),
        };
    }
    if animated && extension_equals(name, "webp") {
        return Some(frames_transparency(webp_composed(bytes)));
    }
    match still_samples(bytes) {
        None => Some(Transparency::Full),
        Some(StillSamples::LumaA8(a)) => Some(alpha8(a.as_slice(), 2)),
        Some(StillSamples::Rgba8(a)) => Some(alpha8(a.as_slice(), 4)),
        Some(StillSamples::LumaA16(b)) => Some(alpha16(b.as_slice(), 2)),
        Some(StillSamples::Rgba16(b)) => Some(alpha16(b.as_slice(), 4)),
        Some(StillSamples::Rgba32F) => None,
        Some(_) => Some(Transparency::Opaque),
    }
}

} // verus!
