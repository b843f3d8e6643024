//! Exporting video of more than eight bits per sample without reducing its
//! precision: choosing the AV1 sample layout and encoder, the encoder's
//! arguments, and the check of what was encoded.
use crate::edits::{EditOperation, MediaKind};
use crate::error::ExportError;
use crate::metadata::strings_view;
use crate::path::{extension_equals, extension_is};
use crate::text::{owned, push_signed_dec, push_str, same_text, signed_dec};
use vstd::prelude::*;

verus! {

/// The sample layouts that a high-depth export writes.
#[derive(Clone, Copy, Debug, Eq, PartialEq, Structural)]
pub enum HighDepthPixel {
    Yuv420p10,
    Yuv422p10,
    Yuv444p10,
    Gbrp10,
    Gray10,
    Yuv420p12,
    Yuv422p12,
    Yuv444p12,
    Gbrp12,
    Gray12,
}

/// Where chroma samples sit relative to luma, numbered as FFmpeg numbers
/// its chroma locations.
#[derive(Clone, Copy, Debug, Eq, PartialEq, Structural)]
pub enum ChromaLocation {
    Unspecified,
    Left,
    Center,
    TopLeft,
    Top,
    BottomLeft,
    Bottom,
}

pub open spec fn location_number(c: ChromaLocation) -> i32 {
    match c {
        ChromaLocation::Unspecified => 0,
        ChromaLocation::Left => 1,
        ChromaLocation::Center => 2,
        ChromaLocation::TopLeft => 3,
        ChromaLocation::Top => 4,
        ChromaLocation::BottomLeft => 5,
        ChromaLocation::Bottom => 6,
    }
}

impl ChromaLocation {
    /// The location's number.
    pub fn number(self) -> (r: i32)
        ensures
            r == location_number(self),
    {
        match self {
            ChromaLocation::Unspecified => 0,
            ChromaLocation::Left => 1,
            ChromaLocation::Center => 2,
            ChromaLocation::TopLeft => 3,
            ChromaLocation::Top => 4,
            ChromaLocation::BottomLeft => 5,
            ChromaLocation::Bottom => 6,
        }
    }
}

/// The name of a layout, as the encoder knows it.
pub open spec fn pixel_name(p: HighDepthPixel) -> Seq<char> {
    match p {
        HighDepthPixel::Yuv420p10 => "yuv420p10le"@,
        HighDepthPixel::Yuv422p10 => "yuv422p10le"@,
        HighDepthPixel::Yuv444p10 => "yuv444p10le"@,
        HighDepthPixel::Gbrp10 => "gbrp10le"@,
        HighDepthPixel::Gray10 => "gray10le"@,
        HighDepthPixel::Yuv420p12 => "yuv420p12le"@,
        HighDepthPixel::Yuv422p12 => "yuv422p12le"@,
        HighDepthPixel::Yuv444p12 => "yuv444p12le"@,
        HighDepthPixel::Gbrp12 => "gbrp12le"@,
        HighDepthPixel::Gray12 => "gray12le"@,
    }
}

impl HighDepthPixel {
    /// The layout's name.
    pub fn name(self) -> (r: &'static str)
        ensures
            r@ == pixel_name(self),
    {
        match self {
            HighDepthPixel::Yuv420p10 => "yuv420p10le",
            HighDepthPixel::Yuv422p10 => "yuv422p10le",
            HighDepthPixel::Yuv444p10 => "yuv444p10le",
            HighDepthPixel::Gbrp10 => "gbrp10le",
            HighDepthPixel::Gray10 => "gray10le",
            HighDepthPixel::Yuv420p12 => "yuv420p12le",
            HighDepthPixel::Yuv422p12 => "yuv422p12le",
            HighDepthPixel::Yuv444p12 => "yuv444p12le",
            HighDepthPixel::Gbrp12 => "gbrp12le",
            HighDepthPixel::Gray12 => "gray12le",
        }
    }
}

/// The layout that keeps the precision of a source layout, by the source
/// layout's name: either byte order, and the semi-planar 10-bit 4:2:0
/// layout too.
pub open spec fn kept_layout(source: Seq<char>) -> Option<HighDepthPixel> {
    if source == "yuv420p10le"@ || source == "yuv420p10be"@ || source == "p010le"@ || source == "p010be"@ {
        Some(HighDepthPixel::Yuv420p10)
    } else if source == "yuv422p10le"@ || source == "yuv422p10be"@ {
        Some(HighDepthPixel::Yuv422p10)
    } else if source == "yuv444p10le"@ || source == "yuv444p10be"@ {
        Some(HighDepthPixel::Yuv444p10)
    } else if source == "gbrp10le"@ || source == "gbrp10be"@ {
        Some(HighDepthPixel::Gbrp10)
    } else if source == "gray10le"@ || source == "gray10be"@ {
        Some(HighDepthPixel::Gray10)
    } else if source == "yuv420p12le"@ || source == "yuv420p12be"@ {
        Some(HighDepthPixel::Yuv420p12)
    } else if source == "yuv422p12le"@ || source == "yuv422p12be"@ {
        Some(HighDepthPixel::Yuv422p12)
    } else if source == "yuv444p12le"@ || source == "yuv444p12be"@ {
        Some(HighDepthPixel::Yuv444p12)
    } else if source == "gbrp12le"@ || source == "gbrp12be"@ {
        Some(HighDepthPixel::Gbrp12)
    } else if source == "gray12le"@ || source == "gray12be"@ {
        Some(HighDepthPixel::Gray12)
    } else {
        None
    }
}

/// Chooses the layout that keeps a source layout's precision.
pub fn layout_for(source: &str) -> (r: Option<HighDepthPixel>)
    ensures
        r == kept_layout(source@),
{
    if same_text(source, "yuv420p10le") || same_text(source, "yuv420p10be") || same_text(source, "p010le") || same_text(source, "p010be") {
        Some(HighDepthPixel::Yuv420p10)
    } else if same_text(source, "yuv422p10le") || same_text(source, "yuv422p10be") {
        Some(HighDepthPixel::Yuv422p10)
    } else if same_text(source, "yuv444p10le") || same_text(source, "yuv444p10be") {
        Some(HighDepthPixel::Yuv444p10)
    } else if same_text(source, "gbrp10le") || same_text(source, "gbrp10be") {
        Some(HighDepthPixel::Gbrp10)
    } else if same_text(source, "gray10le") || same_text(source, "gray10be") {
        Some(HighDepthPixel::Gray10)
    } else if same_text(source, "yuv420p12le") || same_text(source, "yuv420p12be") {
        Some(HighDepthPixel::Yuv420p12)
    } else if same_text(source, "yuv422p12le") || same_text(source, "yuv422p12be") {
        Some(HighDepthPixel::Yuv422p12)
    } else if same_text(source, "yuv444p12le") || same_text(source, "yuv444p12be") {
        Some(HighDepthPixel::Yuv444p12)
    } else if same_text(source, "gbrp12le") || same_text(source, "gbrp12be") {
        Some(HighDepthPixel::Gbrp12)
    } else if same_text(source, "gray12le") || same_text(source, "gray12be") {
        Some(HighDepthPixel::Gray12)
    } else {
        None
    }
}

/// The picture size after the edits that change it.
pub open spec fn edited_size(size: (u32, u32), ops: Seq<EditOperation>) -> (u32, u32)
    decreases ops.len(),
{
    if ops.len() == 0 {
        size
    } else {
        let s = edited_size(size, ops.drop_last());
        match ops.last() {
            EditOperation::Crop(c) => (c.width, c.height),
            EditOperation::Resize(r) => (r.width, r.height),
            EditOperation::RotateClockwise => (s.1, s.0),
            EditOperation::RotateCounterclockwise => (s.1, s.0),
            _ => s,
        }
    }
}

/// The color description of a video stream: range, matrix, primaries and
/// transfer, as numbered by FFmpeg.
#[derive(Clone, Copy, Debug, Eq, PartialEq, Structural)]
pub struct ColorTags {
    pub range: i32,
    pub space: i32,
    pub primaries: i32,
    pub transfer: i32,
}

/// A high-depth encoding plan: values only.
#[derive(Clone, Copy, Debug, Eq, PartialEq, Structural)]
pub struct HighDepth {
    pub pixel: HighDepthPixel,
    /// Whether the faster encoder is used; it needs even dimensions of at
    /// least 64 and 10-bit 4:2:0 samples.
    pub svt: bool,
    pub colors: ColorTags,
    /// The declared chroma siting, kept where AV1 can represent it.
    pub chroma: Option<ChromaLocation>,
}

/// The plan for a source, or `None` when its samples have at most eight
/// bits, or why its precision cannot be kept.
pub open spec fn high_depth_plan(kind: MediaKind, source: Seq<char>, depth: u8, size: (u32, u32), colors: ColorTags,
    chroma: ChromaLocation, target: Seq<char>, ops: Seq<EditOperation>) -> Result<Option<HighDepth>, Seq<char>> {
    if kind != MediaKind::Video || (1 <= depth <= 8) {
        Ok(None)
    } else {
        match kept_layout(source) {
            None => Err("This video sample format cannot yet be exported without reducing precision"@),
            Some(pixel) => if !(extension_is(target, "mp4"@) || extension_is(target, "mkv"@) || extension_is(target, "webm"@)) {
                Err("High-depth video export requires MP4, MKV or WebM to preserve sample precision"@)
            } else {
                let s = edited_size(size, ops);
                let svt = pixel == HighDepthPixel::Yuv420p10 && s.0 >= 64 && s.1 >= 64 && s.0 % 2 == 0 && s.1 % 2 == 0;
                let keeps = (pixel == HighDepthPixel::Yuv420p10 || pixel == HighDepthPixel::Yuv420p12)
                    && (chroma == ChromaLocation::Left || chroma == ChromaLocation::TopLeft);
                Ok(Some(HighDepth { pixel, svt, colors, chroma: if keeps { Some(chroma) } else { None } }))
            },
        }
    }
}

impl HighDepth {
    /// Plans a high-depth export from what the decoder reports of the
    /// source: its layout's name, the largest component depth, its size,
    /// color description and chroma siting.
    pub fn plan(kind: MediaKind, source: &str, depth: u8, size: (u32, u32), colors: ColorTags, chroma: ChromaLocation,
        target: &str, ops: &[EditOperation]) -> (r: Result<Option<HighDepth>, ExportError>)
        ensures
            match high_depth_plan(kind, source@, depth, size, colors, chroma, target@, ops@) {
                Ok(p) => r == Ok::<Option<HighDepth>, ExportError>(p),
                Err(t) => r matches Err(ExportError::Failed(m)) && m@ == t,
            },
            r matches Ok(Some(h)) ==> siting_representable(h),
    {
        if kind != MediaKind::Video || (1 <= depth && depth <= 8) {
            return Ok(None);
        }
        let pixel = match layout_for(source) {
            Some(p) => p,
            None => return Err(ExportError::Failed(owned("This video sample format cannot yet be exported without reducing precision"))),
        };
        if !(extension_equals(target, "mp4") || extension_equals(target, "mkv") || extension_equals(target, "webm")) {
            return Err(ExportError::Failed(owned("High-depth video export requires MP4, MKV or WebM to preserve sample precision")));
        }
        let mut s = size;
        let mut i: usize = 0;
        while i < ops.len()
            invariant
                i <= ops@.len(),
                s == edited_size(size, ops@.take(i as int)),
            decreases ops@.len() - i,
        {
            assert(ops@.take(i as int + 1).drop_last() =~= ops@.take(i as int));
            match &ops[i] {
                EditOperation::Crop(c) => s = (c.width, c.height),
                EditOperation::Resize(r) => s = (r.width, r.height),
                EditOperation::RotateClockwise => s = (s.1, s.0),
                EditOperation::RotateCounterclockwise => s = (s.1, s.0),
                _ => {},
            }
            i = i + 1;
        }
        assert(ops@.take(ops@.len() as int) =~= ops@);
        let svt = pixel == HighDepthPixel::Yuv420p10 && s.0 >= 64 && s.1 >= 64 && s.0 % 2 == 0 && s.1 % 2 == 0;
        let keeps = (pixel == HighDepthPixel::Yuv420p10 || pixel == HighDepthPixel::Yuv420p12)
            && (chroma == ChromaLocation::Left || chroma == ChromaLocation::TopLeft);
        Ok(Some(HighDepth { pixel, svt, colors, chroma: if keeps { Some(chroma) } else { None } }))
    }
}


/// The plan keeps only chroma sitings that AV1 can represent.
pub open spec fn siting_representable(h: HighDepth) -> bool {
    h.chroma matches Some(c) ==> (c == ChromaLocation::Left || c == ChromaLocation::TopLeft)
}

/// How the AV1 bitstream names a representable chroma siting.
pub open spec fn siting_name(c: ChromaLocation) -> Seq<char> {
    if c == ChromaLocation::Left { "vertical"@ } else { "colocated"@ }
}

/// The encoder arguments of a high-depth export.
pub open spec fn high_depth_args(h: HighDepth, target: Seq<char>) -> Seq<Seq<char>> {
    let encoder = if h.svt {
        seq!["-c:v"@, "libsvtav1"@, "-preset"@, "6"@, "-crf"@, "12"@, "-svtav1-params"@, "lp=4:tune=0"@]
    } else {
        seq!["-c:v"@, "libaom-av1"@, "-cpu-used"@, "6"@, "-crf"@, "12"@, "-b:v"@, "0"@, "-row-mt"@, "1"@, "-threads:v"@, "8"@]
    };
    let audio = if extension_is(target, "webm"@) { "libopus"@ } else { "aac"@ };
    let colors = seq!["-color_range"@, signed_dec(h.colors.range as int), "-colorspace"@, signed_dec(h.colors.space as int),
        "-color_primaries"@, signed_dec(h.colors.primaries as int), "-color_trc"@, signed_dec(h.colors.transfer as int)];
    let siting = match h.chroma {
        Some(c) => seq!["-chroma_sample_location"@, signed_dec(location_number(c) as int), "-bsf:v"@,
            "av1_metadata=chroma_sample_position="@ + siting_name(c)],
        None => Seq::empty(),
    };
    encoder + seq!["-pix_fmt"@, pixel_name(h.pixel), "-c:a"@, audio] + colors + siting
}

/// A declared color value is kept when it was unspecified or is found again.
pub open spec fn color_kept(expected: i32, found: i32, unspecified: i32) -> bool {
    expected == unspecified || expected == found
}

/// What decoding an encoded output must report: AV1 in the planned layout,
/// the declared colors, and the planned chroma siting.
pub open spec fn encoding_retained(h: HighDepth, av1: bool, format: Seq<char>, colors: ColorTags, chroma: ChromaLocation) -> bool {
    &&& av1
    &&& format == pixel_name(h.pixel)
    &&& color_kept(h.colors.range, colors.range, 0)
    &&& color_kept(h.colors.space, colors.space, 2)
    &&& color_kept(h.colors.primaries, colors.primaries, 2)
    &&& color_kept(h.colors.transfer, colors.transfer, 2)
    &&& (h.chroma matches Some(c) ==> chroma == c)
}

/// What a decoder reports of an encoded video stream.
#[derive(Clone, Copy, Debug)]
pub struct DecodedVideo<'a> {
    pub av1: bool,
    pub format: &'a str,
    pub colors: ColorTags,
    pub chroma: ChromaLocation,
}

fn push_arg(v: &mut Vec<String>, t: &str)
    ensures
        strings_view(final(v)@) == strings_view(old(v)@).push(t@),
{
    v.push(owned(t));
    assert(strings_view(v@) =~= strings_view(old(v)@).push(t@));
}

fn push_number(v: &mut Vec<String>, n: i32)
    ensures
        strings_view(final(v)@) == strings_view(old(v)@).push(signed_dec(n as int)),
{
    let mut t = String::new();
    push_signed_dec(&mut t, n as i64);
    v.push(t);
    assert(strings_view(v@) =~= strings_view(old(v)@).push(signed_dec(n as int)));
}

impl HighDepth {
    /// The encoder arguments: the AV1 encoder and its settings, the sample
    /// layout, the audio codec of the container, the declared colors and,
    /// where kept, the chroma siting in both the stream and the bitstream.
    pub fn arguments(&self, target: &str) -> (r: Vec<String>)
        requires
            siting_representable(*self),
        ensures
            strings_view(r@) == high_depth_args(*self, target@),
    {
        let mut v: Vec<String> = Vec::new();
        push_arg(&mut v, "-c:v");
        if self.svt {
            push_arg(&mut v, "libsvtav1");
            push_arg(&mut v, "-preset");
            push_arg(&mut v, "6");
            push_arg(&mut v, "-crf");
            push_arg(&mut v, "12");
            push_arg(&mut v, "-svtav1-params");
            push_arg(&mut v, "lp=4:tune=0");
        } else {
            push_arg(&mut v, "libaom-av1");
            push_arg(&mut v, "-cpu-used");
            push_arg(&mut v, "6");
            push_arg(&mut v, "-crf");
            push_arg(&mut v, "12");
            push_arg(&mut v, "-b:v");
            push_arg(&mut v, "0");
            push_arg(&mut v, "-row-mt");
            push_arg(&mut v, "1");
            push_arg(&mut v, "-threads:v");
            push_arg(&mut v, "8");
        }
        let ghost encoder = strings_view(v@);
        push_arg(&mut v, "-pix_fmt");
        push_arg(&mut v, self.pixel.name());
        push_arg(&mut v, "-c:a");
        if extension_equals(target, "webm") {
            push_arg(&mut v, "libopus");
        } else {
            push_arg(&mut v, "aac");
        }
        let ghost media = strings_view(v@);
        push_arg(&mut v, "-color_range");
        push_number(&mut v, self.colors.range);
        push_arg(&mut v, "-colorspace");
        push_number(&mut v, self.colors.space);
        push_arg(&mut v, "-color_primaries");
        push_number(&mut v, self.colors.primaries);
        push_arg(&mut v, "-color_trc");
        push_number(&mut v, self.colors.transfer);
        let ghost colored = strings_view(v@);
        match self.chroma {
            Some(c) => {
                push_arg(&mut v, "-chroma_sample_location");
                push_number(&mut v, c.number());
                push_arg(&mut v, "-bsf:v");
                let mut b = owned("av1_metadata=chroma_sample_position=");
                if c == ChromaLocation::Left {
                    push_str(&mut b, "vertical");
                } else {
                    push_str(&mut b, "colocated");
                }
                push_arg(&mut v, b.as_str());
            },
            None => {},
        }
        let ghost spec = high_depth_args(*self, target@);
        assert(strings_view(v@) =~= spec);
        v
    }

    /// Checks what decoding the encoded output reports (`None` when it could
    /// not be decoded) against the plan.
    pub fn check_encoded(&self, decoded: Option<DecodedVideo>) -> (r: Result<(), ExportError>)
        ensures
            (decoded matches Some(d) && encoding_retained(*self, d.av1, d.format@, d.colors, d.chroma)) ==> r is Ok,
            !(decoded matches Some(d) && encoding_retained(*self, d.av1, d.format@, d.colors, d.chroma)) ==> (r matches Err(ExportError::Failed(m))
                && m@ == "Encoded video did not retain the requested sample precision or color tags; existing output was not replaced"@),
    {
        let ok = match decoded {
            Some(d) => {
                let wanted = self.colors;
                let found = d.colors;
                let chroma_ok = match self.chroma {
                    Some(c) => d.chroma == c,
                    None => true,
                };
                d.av1 && same_text(d.format, self.pixel.name())
                    && (wanted.range == 0 || wanted.range == found.range)
                    && (wanted.space == 2 || wanted.space == found.space)
                    && (wanted.primaries == 2 || wanted.primaries == found.primaries)
                    && (wanted.transfer == 2 || wanted.transfer == found.transfer)
                    && chroma_ok
            },
            None => false,
        };
        if ok {
            Ok(())
        } else {
            Err(ExportError::Failed(owned("Encoded video did not retain the requested sample precision or color tags; existing output was not replaced")))
        }
    }
}

} // verus!
