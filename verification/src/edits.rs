//! The edit history that an export applies, as plain values.
use vstd::prelude::*;

verus! {

/// What kind of document is exported.
#[derive(Clone, Copy, Debug, Eq, PartialEq, Structural)]
pub enum MediaKind {
    Image,
    Video,
    Audio,
}

/// A time on the media timeline, in nanoseconds.
#[derive(Clone, Copy, Debug, Eq, PartialEq, Structural)]
pub struct MediaTime {
    pub nanoseconds: i64,
}

impl MediaTime {
    pub fn from_nanoseconds(nanoseconds: i64) -> (r: MediaTime)
        ensures
            r.nanoseconds == nanoseconds,
    {
        MediaTime { nanoseconds }
    }

    pub fn as_nanoseconds(self) -> (r: i64)
        ensures
            r == self.nanoseconds,
    {
        self.nanoseconds
    }
}

/// A rational time base, `numerator / denominator` seconds per tick.
#[derive(Clone, Copy, Debug, Eq, PartialEq, Structural)]
pub struct Rational {
    pub numerator: i32,
    pub denominator: i32,
}

/// A pixel rectangle of the current image.
#[derive(Clone, Copy, Debug, Eq, PartialEq, Structural)]
pub struct PixelCrop {
    pub x: u32,
    pub y: u32,
    pub width: u32,
    pub height: u32,
}

/// A free rotation of an image, in tenths of a degree, with the size of the
/// rotated canvas.
#[derive(Clone, Copy, Debug, Eq, PartialEq, Structural)]
pub struct ImageRotation {
    pub tenths: i32,
    pub width: u32,
    pub height: u32,
}

impl ImageRotation {
    pub fn tenths(self) -> (r: i32)
        ensures
            r == self.tenths,
    {
        self.tenths
    }

    pub fn size(self) -> (r: (u32, u32))
        ensures
            r == (self.width, self.height),
    {
        (self.width, self.height)
    }
}

/// Resampling filter of a resize.
#[derive(Clone, Copy, Debug, Eq, PartialEq, Structural)]
pub enum ResampleFilter {
    Nearest,
    Bilinear,
    Bicubic,
    Lanczos,
}

/// A resize to an exact pixel size.
#[derive(Clone, Copy, Debug, Eq, PartialEq, Structural)]
pub struct ImageResize {
    pub width: u32,
    pub height: u32,
    pub filter: ResampleFilter,
}

impl ImageResize {
    pub fn size(self) -> (r: (u32, u32))
        ensures
            r == (self.width, self.height),
    {
        (self.width, self.height)
    }
}

/// A source interval selected by a timeline edit.
#[derive(Clone, Copy, Debug, Eq, PartialEq, Structural)]
pub struct TimeRange {
    pub start: MediaTime,
    pub end: MediaTime,
}

/// A gain or rate factor, held as its IEEE-754 single-precision bits; this
/// library compares it but never computes with it.
#[derive(Clone, Copy, Debug, Eq, PartialEq, Structural)]
pub struct Factor {
    pub bits: u32,
}

/// One step of the edit history.
#[derive(Clone, Debug, Eq, PartialEq)]
pub enum EditOperation {
    RotateImage(ImageRotation),
    Resize(ImageResize),
    Crop(PixelCrop),
    RotateClockwise,
    RotateCounterclockwise,
    FlipHorizontal,
    FlipVertical,
    SetTrimStart(MediaTime),
    SetTrimEnd(MediaTime),
    SetVolume(Factor),
    SetRate(Factor),
    Timeline(Vec<TimeRange>),
}

} // verus!
