//! What the export choices mean: transparency as the most transparent
//! pixel, channel conversion, which container carries which text, edit-list
//! repetition and half turns.
use crate::args::visual_filter;
use crate::audio_options::{audio_option_filters, default_audio, target_in_range, AudioExportOptions, AudioNormalization};
use crate::avif::{cycles, segment_loops};
use crate::bytes::{be32, be64};
use crate::edits::{EditOperation, ImageRotation};
use crate::images::frames_kind;
use crate::formats::{alpha16_kind, alpha8_kind, metadata_supported, most, rank, rgba_kind, sample_kind, valid_track, Format, Transparency};
use crate::metadata::{field_index, MetadataField};
use vstd::prelude::*;

verus! {

/// Combining two transparency kinds keeps the more transparent one, in the
/// order opaque, binary, full: the result is one of the two and ranks at
/// least as high as each.
pub proof fn law_combined_kind_is_the_most_transparent(a: Transparency, b: Transparency)
    ensures
        most(a, b) == a || most(a, b) == b,
        rank(most(a, b)) >= rank(a),
        rank(most(a, b)) >= rank(b),
{
}

/// The transparency of 8-bit pixels with alpha last is that of their most
/// transparent pixel: it ranks at least as high as every pixel's own kind,
/// and it is the kind of one of them (opaque when there is none).
pub proof fn law_alpha8_kind_is_most_transparent_pixel(bytes: Seq<u8>, channels: int, n: int)
    requires
        n >= 0,
    ensures
        forall|k: int| 1 <= k <= n ==> rank(alpha8_kind(bytes, channels, n))
            >= rank(#[trigger] sample_kind((bytes[channels * k - 1] as u16 * 257) as u16)),
        alpha8_kind(bytes, channels, n) == Transparency::Opaque
            || exists|k: int| 1 <= k <= n && alpha8_kind(bytes, channels, n) == #[trigger] sample_kind((bytes[channels * k - 1] as u16 * 257) as u16),
    decreases n,
{
    if n > 0 {
        law_alpha8_kind_is_most_transparent_pixel(bytes, channels, n - 1);
        let prev = alpha8_kind(bytes, channels, n - 1);
        let last = sample_kind((bytes[channels * n - 1] as u16 * 257) as u16);
        law_combined_kind_is_the_most_transparent(prev, last);
    }
}

/// The same for 16-bit samples.
pub proof fn law_alpha16_kind_is_most_transparent_pixel(samples: Seq<u16>, channels: int, n: int)
    requires
        n >= 0,
    ensures
        forall|k: int| 1 <= k <= n ==> rank(alpha16_kind(samples, channels, n)) >= rank(#[trigger] sample_kind(samples[channels * k - 1])),
        alpha16_kind(samples, channels, n) == Transparency::Opaque
            || exists|k: int| 1 <= k <= n && alpha16_kind(samples, channels, n) == #[trigger] sample_kind(samples[channels * k - 1]),
    decreases n,
{
    if n > 0 {
        law_alpha16_kind_is_most_transparent_pixel(samples, channels, n - 1);
        law_combined_kind_is_the_most_transparent(alpha16_kind(samples, channels, n - 1), sample_kind(samples[channels * n - 1]));
    }
}

/// The same for RGBA8 pixels, as composed frames hold them.
pub proof fn law_rgba_kind_is_most_transparent_pixel(bytes: Seq<u8>, n: int)
    requires
        n >= 0,
    ensures
        forall|k: int| 1 <= k <= n ==> rank(rgba_kind(bytes, n)) >= rank(#[trigger] sample_kind((bytes[4 * k - 1] as u16 * 257) as u16)),
        rgba_kind(bytes, n) == Transparency::Opaque
            || exists|k: int| 1 <= k <= n && rgba_kind(bytes, n) == #[trigger] sample_kind((bytes[4 * k - 1] as u16 * 257) as u16),
    decreases n,
{
    if n > 0 {
        law_rgba_kind_is_most_transparent_pixel(bytes, n - 1);
        law_combined_kind_is_the_most_transparent(rgba_kind(bytes, n - 1), sample_kind((bytes[4 * n - 1] as u16 * 257) as u16));
    }
}

/// Mono output of a stereo source averages the two channels, each with
/// weight one half; stereo output of a mono source copies the channel to
/// both sides. This holds whatever the normalization, when it is valid.
pub proof fn law_channel_conversion_filters(o: AudioExportOptions)
    requires
        !(o.normalization matches AudioNormalization::Loudness(t) && !target_in_range(t)),
    ensures
        o.channels is Mono ==> audio_option_filters(o, Some(2u16))
            == Some(seq!["aformat=sample_fmts=dbl"@, "pan=mono|c0=0.5*c0+0.5*c1"@]),
        o.channels is Stereo ==> audio_option_filters(o, Some(1u16))
            == Some(seq!["aformat=sample_fmts=dbl"@, "pan=stereo|c0=c0|c1=c0"@]),
        o.channels is Mono ==> audio_option_filters(o, Some(1u16)) == Some(seq!["aformat=sample_fmts=dbl"@]),
        o.channels is Stereo ==> audio_option_filters(o, Some(2u16)) == Some(seq!["aformat=sample_fmts=dbl"@]),
{
    assert(seq!["aformat=sample_fmts=dbl"@].push("pan=mono|c0=0.5*c0+0.5*c1"@)
        =~= seq!["aformat=sample_fmts=dbl"@, "pan=mono|c0=0.5*c0+0.5*c1"@]);
    assert(seq!["aformat=sample_fmts=dbl"@].push("pan=stereo|c0=c0|c1=c0"@)
        =~= seq!["aformat=sample_fmts=dbl"@, "pan=stereo|c0=c0|c1=c0"@]);
}

/// Whether the settings override `field` with nonempty text.
pub open spec fn overrides(s: Seq<Option<Seq<char>>>, field: MetadataField) -> bool {
    s[field_index(field)] matches Some(v) && v.len() > 0
}

/// What each container can carry: AAC, 3GP and transport streams no
/// override at all; WAV no album artist or composer; AVI no album, album
/// artist or composer; QuickTime no album artist, composer or track
/// number; MP4 and M4A only canonical `n` or `n/total` track numbers; the
/// others everything.
pub proof fn law_metadata_support_table(f: Format, s: Seq<Option<Seq<char>>>)
    requires
        s.len() == 10,
    ensures
        (f is Aac || f is ThreeGp || f is TransportStream)
            ==> (metadata_supported(f, s) <==> forall|i: int| 0 <= i < 10 ==> !(#[trigger] s[i] matches Some(v) && v.len() > 0)),
        f is Wav ==> (metadata_supported(f, s) <==> !overrides(s, MetadataField::AlbumArtist) && !overrides(s, MetadataField::Composer)),
        f is Avi ==> (metadata_supported(f, s) <==> !overrides(s, MetadataField::Album)
            && !overrides(s, MetadataField::AlbumArtist) && !overrides(s, MetadataField::Composer)),
        f is Mov ==> (metadata_supported(f, s) <==> !overrides(s, MetadataField::AlbumArtist)
            && !overrides(s, MetadataField::Composer) && !overrides(s, MetadataField::Track)),
        (f is Mp4 || f is M4a) ==> (metadata_supported(f, s) <==> (overrides(s, MetadataField::Track) ==> valid_track(s[7]->0))),
        !(f is Aac || f is ThreeGp || f is TransportStream || f is Wav || f is Avi || f is Mov || f is Mp4 || f is M4a)
            ==> metadata_supported(f, s),
{
    if f is Wav || f is Avi || f is Mov || f is Mp4 || f is M4a {
        assert(metadata_supported(f, s) ==> !overrides(s, MetadataField::AlbumArtist) || !(f is Wav || f is Avi || f is Mov)) by {
            if metadata_supported(f, s) { assert(s[3] == s[3]); }
        }
        if metadata_supported(f, s) {
            assert(s[2] == s[2]);
            assert(s[3] == s[3]);
            assert(s[4] == s[4]);
            assert(s[7] == s[7]);
        }
    }
}

/// A segment that repeats (flags 1) plays the track duration in whole
/// segments: the loop count `k` is the least with `k * segment >= duration`,
/// or 0 (endless) when that exceeds the signed 32-bit range. Without the
/// flag the track plays once.
pub proof fn law_repeating_segment_covers_duration(ed: Seq<u8>, duration: u64)
    requires
        ed.len() == 20 && ed[0] == 0,
        ed[1] == 0 && ed[2] == 0 && ed[3] <= 1,
        be32(ed, 8) > 0,
        be32(ed, 12) == 0,
        be32(ed, 16) == 65536,
    ensures
        ed[3] == 0 ==> segment_loops(ed, duration) == Ok::<Option<u32>, Seq<char>>(Some(1u32)),
        ed[3] == 1 && duration > 0 ==> (segment_loops(ed, duration) matches Ok(Some(k)) && (
            (k > 0 && (k - 1) * be32(ed, 8) < duration && duration <= k * be32(ed, 8))
            || (k == 0 && duration > 0x7fffffff * be32(ed, 8)))),
{
    if ed[3] == 1 && duration > 0 {
        lemma_ceiling(duration as int, be32(ed, 8));
    }
}

/// The cycles that cover a duration are its ceiling in segments: the
/// least `c` with `c * s >= d`.
proof fn lemma_ceiling(d: int, sg: int)
    requires
        d > 0,
        sg > 0,
    ensures
        cycles(d, sg) > 0,
        (cycles(d, sg) - 1) * sg < d && d <= cycles(d, sg) * sg,
        cycles(d, sg) > 0x7fffffff ==> d > 0x7fffffff * sg,
{
    let c = cycles(d, sg);
    vstd::arithmetic::div_mod::lemma_fundamental_div_mod(d + sg - 1, sg);
    let r = (d + sg - 1) % sg;
    assert(0 <= r < sg) by {
        vstd::arithmetic::div_mod::lemma_mod_bound(d + sg - 1, sg);
    }
    assert(d + sg - 1 == sg * c + r);
    assert((c - 1) * sg < d && d <= c * sg) by (nonlinear_arith)
        requires d + sg - 1 == sg * c + r, 0 <= r < sg, sg > 0;
    assert(c > 0) by (nonlinear_arith)
        requires d <= c * sg, d > 0, sg > 0;
    if c > 0x7fffffff {
        assert(d > 0x7fffffff * sg) by (nonlinear_arith)
            requires (c - 1) * sg < d, c > 0x7fffffff, sg > 0;
    }
}

/// A half turn, either way, is the horizontal flip followed by the vertical
/// flip: it maps each pixel (x, y) to (w-1-x, h-1-y).
pub proof fn law_half_turn_is_both_flips(r: ImageRotation)
    requires
        r.tenths == 1800 || r.tenths == -1800,
    ensures
        visual_filter(EditOperation::RotateImage(r)) == Some(
            visual_filter(EditOperation::FlipHorizontal)->0 + ","@ + visual_filter(EditOperation::FlipVertical)->0),
{
    reveal_strlit("hflip,vflip");
    reveal_strlit("hflip");
    reveal_strlit(",");
    reveal_strlit("vflip");
    assert("hflip,vflip"@ =~= "hflip"@ + ","@ + "vflip"@);
}

/// A quarter turn either way is the matching transposition, as the
/// clockwise and counterclockwise rotations give.
pub proof fn law_quarter_turns_are_transpositions(r: ImageRotation)
    ensures
        r.tenths == 900 ==> visual_filter(EditOperation::RotateImage(r)) == visual_filter(EditOperation::RotateClockwise),
        r.tenths == -900 ==> visual_filter(EditOperation::RotateImage(r)) == visual_filter(EditOperation::RotateCounterclockwise),
{
}

/// The 8-bit alpha of pixel `k` (1-based) with `channels` samples per pixel.
pub open spec fn alpha_at(bytes: Seq<u8>, channels: int, k: int) -> u8 {
    bytes[channels * k - 1]
}

/// The transparency of 8-bit pixels follows from their alpha values alone:
/// full when some pixel is partly transparent, else binary when some pixel
/// is fully transparent, else opaque.
pub proof fn law_alpha8_kind_by_alpha_values(bytes: Seq<u8>, channels: int, n: int)
    requires
        n >= 0,
    ensures
        alpha8_kind(bytes, channels, n) == if exists|k: int| 1 <= k <= n && 0 < #[trigger] alpha_at(bytes, channels, k) < 255 {
            Transparency::Full
        } else if exists|k: int| 1 <= k <= n && #[trigger] alpha_at(bytes, channels, k) == 0 {
            Transparency::Binary
        } else {
            Transparency::Opaque
        },
    decreases n,
{
    if n > 0 {
        law_alpha8_kind_by_alpha_values(bytes, channels, n - 1);
        let a = alpha_at(bytes, channels, n);
        let v = (a as u16 * 257) as u16;
        assert(v as int == a as int * 257);
        assert(a == 255 ==> v == u16::MAX);
        assert((0 < a && a < 255) ==> (0 < v && v < u16::MAX));
        assert(a == 0 ==> v == 0);
        if exists|k: int| 1 <= k <= n - 1 && 0 < #[trigger] alpha_at(bytes, channels, k) < 255 {
            let k = choose|k: int| 1 <= k <= n - 1 && 0 < #[trigger] alpha_at(bytes, channels, k) < 255;
            assert(1 <= k <= n && 0 < alpha_at(bytes, channels, k) < 255);
        }
        if exists|k: int| 1 <= k <= n - 1 && #[trigger] alpha_at(bytes, channels, k) == 0 {
            let k = choose|k: int| 1 <= k <= n - 1 && #[trigger] alpha_at(bytes, channels, k) == 0;
            assert(1 <= k <= n && alpha_at(bytes, channels, k) == 0);
        }
        if exists|k: int| 1 <= k <= n && 0 < #[trigger] alpha_at(bytes, channels, k) < 255 {
            let k = choose|k: int| 1 <= k <= n && 0 < #[trigger] alpha_at(bytes, channels, k) < 255;
            if k < n {
                assert(1 <= k <= n - 1 && 0 < alpha_at(bytes, channels, k) < 255);
            }
        }
        if exists|k: int| 1 <= k <= n && #[trigger] alpha_at(bytes, channels, k) == 0 {
            let k = choose|k: int| 1 <= k <= n && #[trigger] alpha_at(bytes, channels, k) == 0;
            if k < n {
                assert(1 <= k <= n - 1 && alpha_at(bytes, channels, k) == 0);
            }
        }
    }
}

/// The transparency of 16-bit pixels follows from their alpha values alone.
pub proof fn law_alpha16_kind_by_alpha_values(samples: Seq<u16>, channels: int, n: int)
    requires
        n >= 0,
    ensures
        alpha16_kind(samples, channels, n) == if exists|k: int| 1 <= k <= n && 0 < #[trigger] samples[channels * k - 1] < 65535 {
            Transparency::Full
        } else if exists|k: int| 1 <= k <= n && #[trigger] samples[channels * k - 1] == 0 {
            Transparency::Binary
        } else {
            Transparency::Opaque
        },
    decreases n,
{
    if n > 0 {
        law_alpha16_kind_by_alpha_values(samples, channels, n - 1);
        if exists|k: int| 1 <= k <= n - 1 && 0 < #[trigger] samples[channels * k - 1] < 65535 {
            let k = choose|k: int| 1 <= k <= n - 1 && 0 < #[trigger] samples[channels * k - 1] < 65535;
            assert(1 <= k <= n && 0 < samples[channels * k - 1] < 65535);
        }
        if exists|k: int| 1 <= k <= n - 1 && #[trigger] samples[channels * k - 1] == 0 {
            let k = choose|k: int| 1 <= k <= n - 1 && #[trigger] samples[channels * k - 1] == 0;
            assert(1 <= k <= n && samples[channels * k - 1] == 0);
        }
        if exists|k: int| 1 <= k <= n && 0 < #[trigger] samples[channels * k - 1] < 65535 {
            let k = choose|k: int| 1 <= k <= n && 0 < #[trigger] samples[channels * k - 1] < 65535;
            if k < n {
                assert(1 <= k <= n - 1 && 0 < samples[channels * k - 1] < 65535);
            }
        }
        if exists|k: int| 1 <= k <= n && #[trigger] samples[channels * k - 1] == 0 {
            let k = choose|k: int| 1 <= k <= n && #[trigger] samples[channels * k - 1] == 0;
            if k < n {
                assert(1 <= k <= n - 1 && samples[channels * k - 1] == 0);
            }
        }
    }
}

/// RGBA8 pixels are 8-bit pixels of four samples, so their transparency
/// follows from their alpha values in the same way.
pub proof fn law_rgba_kind_by_alpha_values(bytes: Seq<u8>, n: int)
    requires
        n >= 0,
    ensures
        rgba_kind(bytes, n) == alpha8_kind(bytes, 4, n),
    decreases n,
{
    if n > 0 {
        law_rgba_kind_by_alpha_values(bytes, n - 1);
    }
}


/// An animation is as transparent as its most transparent frame: the
/// result ranks at least as high as every frame's, and is one of them
/// (opaque when there are none).
pub proof fn law_animation_kind_is_most_transparent_frame(fs: Seq<Seq<u8>>)
    ensures
        forall|i: int| 0 <= i < fs.len() ==> rank(frames_kind(fs)) >= rank(#[trigger] rgba_kind(fs[i], (fs[i].len() / 4) as int)),
        frames_kind(fs) == Transparency::Opaque
            || exists|i: int| 0 <= i < fs.len() && frames_kind(fs) == #[trigger] rgba_kind(fs[i], (fs[i].len() / 4) as int),
    decreases fs.len(),
{
    if fs.len() > 0 {
        let init = fs.drop_last();
        law_animation_kind_is_most_transparent_frame(init);
        law_combined_kind_is_the_most_transparent(frames_kind(init), rgba_kind(fs.last(), (fs.last().len() / 4) as int));
        assert forall|i: int| 0 <= i < fs.len() implies rank(frames_kind(fs)) >= rank(#[trigger] rgba_kind(fs[i], (fs[i].len() / 4) as int)) by {
            if i < fs.len() - 1 {
                assert(fs[i] == init[i]);
            }
        }
        if frames_kind(fs) != Transparency::Opaque {
            if frames_kind(fs) == frames_kind(init) && frames_kind(init) != Transparency::Opaque {
                let i = choose|i: int| 0 <= i < init.len() && frames_kind(init) == #[trigger] rgba_kind(init[i], (init[i].len() / 4) as int);
                assert(fs[i] == init[i]);
            } else {
                assert(frames_kind(fs) == rgba_kind(fs[fs.len() - 1], (fs[fs.len() - 1].len() / 4) as int));
            }
        }
    }
}

/// Options that change nothing need no filter; any other option needs an
/// audio stream; keeping the layout only converts the samples; mono and
/// stereo conversion is refused for sources of more than two channels.
pub proof fn law_audio_filters_by_options(o: AudioExportOptions, channels: Option<u16>)
    requires
        !(o.normalization matches AudioNormalization::Loudness(t) && !target_in_range(t)),
    ensures
        o == default_audio() ==> audio_option_filters(o, channels) == Some(Seq::<Seq<char>>::empty()),
        o != default_audio() && !(channels matches Some(n) && n > 0) ==> audio_option_filters(o, channels) is None,
        o != default_audio() && o.channels is Keep && (channels matches Some(n) && n > 0)
            ==> audio_option_filters(o, channels) == Some(seq!["aformat=sample_fmts=dbl"@]),
        !(o.channels is Keep) && (channels matches Some(n) && n > 2) ==> audio_option_filters(o, channels) is None,
{
}

/// The same for a version-1 edit list with 64-bit fields.
pub proof fn law_repeating_long_segment_covers_duration(ed: Seq<u8>, duration: u64)
    requires
        ed.len() == 28 && ed[0] == 1,
        ed[1] == 0 && ed[2] == 0 && ed[3] <= 1,
        be64(ed, 8) > 0,
        be64(ed, 16) == 0,
        be32(ed, 24) == 65536,
    ensures
        ed[3] == 0 ==> segment_loops(ed, duration) == Ok::<Option<u32>, Seq<char>>(Some(1u32)),
        ed[3] == 1 && duration > 0 ==> (segment_loops(ed, duration) matches Ok(Some(k)) && (
            (k > 0 && (k - 1) * be64(ed, 8) < duration && duration <= k * be64(ed, 8))
            || (k == 0 && duration > 0x7fffffff * be64(ed, 8)))),
{
    if ed[3] == 1 && duration > 0 {
        lemma_ceiling(duration as int, be64(ed, 8));
    }
}

/// No rotation leaves the picture as it is.
pub proof fn law_zero_rotation_is_identity(r: ImageRotation)
    requires
        r.tenths == 0,
    ensures
        visual_filter(EditOperation::RotateImage(r)) == Some("null"@),
{
}
} // verus!
