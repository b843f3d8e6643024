//! Output formats offered by the export dialog, their filename extensions,
//! and the metadata each container can represent.
use crate::audio_options::AudioExportOptions;
use crate::edits::{EditOperation, MediaKind};
use crate::error::ExportError;
use crate::gif::{gif_refuses, GifAnimation};
use crate::metadata::{field_at, label_text, MetadataExportOptions, MetadataField};
use crate::parse::{parse_in, parse_unsigned};
use crate::path::{extension, extension_of, set_extension, with_extension};
use crate::text::{chars_of, dec, decimal, eq_ignore_case, owned, push_str, same_ignoring_ascii_case, same_text};
use vstd::prelude::*;
use vstd::utf8::encode_utf8;

verus! {

/// A file type of the export dialog.
#[derive(Clone, Copy, Debug, Eq, PartialEq, Structural)]
pub enum Format {
    Png,
    FramePng,
    Jpeg,
    Webp,
    Avif,
    Gif,
    Tiff,
    Bmp,
    Mp4,
    Mkv,
    Mov,
    Webm,
    Avi,
    Wmv,
    ThreeGp,
    TransportStream,
    Wav,
    Flac,
    Mp3,
    M4a,
    Aac,
    Ogg,
    Opus,
}

/// Audio containers, in dialog order.
pub const AUDIO_FORMATS: [Format; 7] = [
    Format::Wav,
    Format::Flac,
    Format::Mp3,
    Format::M4a,
    Format::Aac,
    Format::Ogg,
    Format::Opus,
];

/// Filename extensions of a format; the first is the default.
pub open spec fn format_extensions(f: Format) -> Seq<Seq<char>> {
    match f {
        Format::Png => seq!["png"@, "apng"@],
        Format::FramePng => seq!["png"@],
        Format::Jpeg => seq!["jpg"@, "jpeg"@],
        Format::Webp => seq!["webp"@],
        Format::Avif => seq!["avif"@],
        Format::Gif => seq!["gif"@],
        Format::Tiff => seq!["tif"@, "tiff"@],
        Format::Bmp => seq!["bmp"@],
        Format::Mp4 => seq!["mp4"@],
        Format::Mkv => seq!["mkv"@],
        Format::Mov => seq!["mov"@],
        Format::Webm => seq!["webm"@],
        Format::Avi => seq!["avi"@],
        Format::Wmv => seq!["wmv"@],
        Format::ThreeGp => seq!["3gp"@],
        Format::TransportStream => seq!["ts"@, "mts"@, "m2ts"@],
        Format::Wav => seq!["wav"@],
        Format::Flac => seq!["flac"@],
        Format::Mp3 => seq!["mp3"@],
        Format::M4a => seq!["m4a"@],
        Format::Aac => seq!["aac"@],
        Format::Ogg => seq!["ogg"@],
        Format::Opus => seq!["opus"@],
    }
}

/// Display name of a format.
pub open spec fn format_label(f: Format) -> Seq<char> {
    match f {
        Format::Png => "PNG / APNG image"@,
        Format::FramePng => "PNG image"@,
        Format::Jpeg => "JPEG image"@,
        Format::Webp => "WebP image"@,
        Format::Avif => "AVIF image"@,
        Format::Gif => "GIF image (256 colors, binary transparency)"@,
        Format::Tiff => "TIFF image"@,
        Format::Bmp => "Bitmap image"@,
        Format::Mp4 => "MP4 video"@,
        Format::Mkv => "Matroska video"@,
        Format::Mov => "QuickTime video"@,
        Format::Webm => "WebM video"@,
        Format::Avi => "AVI video"@,
        Format::Wmv => "Windows Media video"@,
        Format::ThreeGp => "3GP video"@,
        Format::TransportStream => "MPEG transport stream"@,
        Format::Wav => "WAV audio"@,
        Format::Flac => "FLAC audio"@,
        Format::Mp3 => "MP3 audio"@,
        Format::M4a => "M4A / AAC audio"@,
        Format::Aac => "AAC audio"@,
        Format::Ogg => "Ogg / Opus audio"@,
        Format::Opus => "Opus audio"@,
    }
}

/// A path's extension names the format, up to ASCII case.
pub open spec fn format_accepts(f: Format, path: Seq<char>) -> bool {
    match extension_of(path) {
        Some(e) => exists|i: int| 0 <= i < format_extensions(f).len()
            && same_ignoring_ascii_case(encode_utf8(e), encode_utf8(#[trigger] format_extensions(f)[i])),
        None => false,
    }
}

/// The pieces of `s` between `/` characters.
pub open spec fn slash_pieces(s: Seq<char>) -> Seq<Seq<char>>
    decreases s.len(),
{
    if s.len() == 0 {
        seq![s]
    } else {
        let rest = slash_pieces(s.drop_last());
        if s.last() == '/' {
            rest.push(Seq::empty())
        } else {
            rest.update(rest.len() - 1, rest.last().push(s.last()))
        }
    }
}

/// A positive number below 65536 written as `to_string` writes it.
pub open spec fn canonical_u16(s: Seq<char>) -> bool {
    match parse_unsigned(s, 65535) {
        Some(n) => n > 0 && dec(n) == s,
        None => false,
    }
}

/// `n` or `n/total` with canonical positive 16-bit numbers.
pub open spec fn valid_track(s: Seq<char>) -> bool {
    let parts = slash_pieces(s);
    1 <= parts.len() <= 2 && forall|i: int| 0 <= i < parts.len() ==> canonical_u16(#[trigger] parts[i])
}

/// Whether a container can carry a nonempty override of `field`.
pub open spec fn field_supported(f: Format, field_index: int, value: Seq<char>) -> bool {
    let field = field_at(field_index);
    match f {
        Format::Aac | Format::ThreeGp | Format::TransportStream => false,
        Format::Wav => !(field is AlbumArtist || field is Composer),
        Format::Avi => !(field is Album || field is AlbumArtist || field is Composer),
        Format::Mov => !(field is AlbumArtist || field is Composer || field is Track),
        Format::Mp4 | Format::M4a => field is Track ==> valid_track(value),
        _ => true,
    }
}

/// Whether a container can carry every nonempty override.
pub open spec fn metadata_supported(f: Format, s: Seq<Option<Seq<char>>>) -> bool {
    forall|i: int| #![trigger s[i]] 0 <= i < 10 ==> match s[i] {
        Some(v) => v.len() > 0 ==> field_supported(f, i, v),
        None => true,
    }
}

pub open spec fn strs_view(v: Seq<&'static str>) -> Seq<Seq<char>> {
    Seq::new(v.len(), |i: int| v[i]@)
}

impl Format {
    /// Filename extensions; the first is the default.
    pub fn extensions(self) -> (r: Vec<&'static str>)
        ensures
            strs_view(r@) == format_extensions(self),
            r@.len() > 0,
    {
        let r = match self {
            Format::Png => vec!["png", "apng"],
            Format::FramePng => vec!["png"],
            Format::Jpeg => vec!["jpg", "jpeg"],
            Format::Webp => vec!["webp"],
            Format::Avif => vec!["avif"],
            Format::Gif => vec!["gif"],
            Format::Tiff => vec!["tif", "tiff"],
            Format::Bmp => vec!["bmp"],
            Format::Mp4 => vec!["mp4"],
            Format::Mkv => vec!["mkv"],
            Format::Mov => vec!["mov"],
            Format::Webm => vec!["webm"],
            Format::Avi => vec!["avi"],
            Format::Wmv => vec!["wmv"],
            Format::ThreeGp => vec!["3gp"],
            Format::TransportStream => vec!["ts", "mts", "m2ts"],
            Format::Wav => vec!["wav"],
            Format::Flac => vec!["flac"],
            Format::Mp3 => vec!["mp3"],
            Format::M4a => vec!["m4a"],
            Format::Aac => vec!["aac"],
            Format::Ogg => vec!["ogg"],
            Format::Opus => vec!["opus"],
        };
        assert(strs_view(r@) =~= format_extensions(self));
        r
    }

    /// The dialog's name of the format.
    pub fn label(self) -> (r: &'static str)
        ensures
            r@ == format_label(self),
    {
        match self {
            Format::Png => "PNG / APNG image",
            Format::FramePng => "PNG image",
            Format::Jpeg => "JPEG image",
            Format::Webp => "WebP image",
            Format::Avif => "AVIF image",
            Format::Gif => "GIF image (256 colors, binary transparency)",
            Format::Tiff => "TIFF image",
            Format::Bmp => "Bitmap image",
            Format::Mp4 => "MP4 video",
            Format::Mkv => "Matroska video",
            Format::Mov => "QuickTime video",
            Format::Webm => "WebM video",
            Format::Avi => "AVI video",
            Format::Wmv => "Windows Media video",
            Format::ThreeGp => "3GP video",
            Format::TransportStream => "MPEG transport stream",
            Format::Wav => "WAV audio",
            Format::Flac => "FLAC audio",
            Format::Mp3 => "MP3 audio",
            Format::M4a => "M4A / AAC audio",
            Format::Aac => "AAC audio",
            Format::Ogg => "Ogg / Opus audio",
            Format::Opus => "Opus audio",
        }
    }

    /// Whether the path's extension names this format.
    pub fn accepts(self, path: &str) -> (r: bool)
        ensures
            r == format_accepts(self, path@),
    {
        let ext = match extension(path) {
            Some(e) => e,
            None => return false,
        };
        let allowed = self.extensions();
        let mut i: usize = 0;
        while i < allowed.len()
            invariant
                i <= allowed@.len(),
                strs_view(allowed@) == format_extensions(self),
                extension_of(path@) == Some(ext@),
                forall|k: int| 0 <= k < i ==> !same_ignoring_ascii_case(encode_utf8(ext@), encode_utf8(#[trigger] format_extensions(self)[k])),
            decreases allowed@.len() - i,
        {
            assert(strs_view(allowed@)[i as int] == allowed@[i as int]@);
            if eq_ignore_case(ext.as_str(), allowed[i]) {
                return true;
            }
            i = i + 1;
        }
        false
    }
}


/// Number of `/` characters.
pub open spec fn slash_count(s: Seq<char>) -> nat
    decreases s.len(),
{
    if s.len() == 0 { 0 } else { slash_count(s.drop_last()) + if s.last() == '/' { 1nat } else { 0nat } }
}

proof fn lemma_pieces_len(s: Seq<char>)
    ensures
        slash_pieces(s).len() == 1 + slash_count(s),
    decreases s.len(),
{
    if s.len() > 0 {
        lemma_pieces_len(s.drop_last());
    }
}

proof fn lemma_count_step(s: Seq<char>, k: int)
    requires
        0 <= k < s.len(),
    ensures
        slash_count(s.take(k + 1)) == slash_count(s.take(k)) + if s[k] == '/' { 1nat } else { 0nat },
{
    assert(s.take(k + 1).drop_last() =~= s.take(k));
}

proof fn lemma_count_mono(s: Seq<char>, j: int, k: int)
    requires
        0 <= j <= k <= s.len(),
    ensures
        slash_count(s.take(j)) <= slash_count(s.take(k)),
    decreases k - j,
{
    if j < k {
        lemma_count_mono(s, j, k - 1);
        lemma_count_step(s, k - 1);
    }
}

proof fn lemma_no_slash(s: Seq<char>)
    requires
        forall|i: int| 0 <= i < s.len() ==> s[i] != '/',
    ensures
        slash_pieces(s) == seq![s],
    decreases s.len(),
{
    if s.len() > 0 {
        lemma_no_slash(s.drop_last());
        assert(s.drop_last().push(s.last()) =~= s);
        assert(seq![s.drop_last()].update(0, s) =~= seq![s]);
    } else {
        assert(slash_pieces(s) =~= seq![s]);
    }
}

proof fn lemma_one_slash(s: Seq<char>, k: int, n: int)
    requires
        0 <= k < n <= s.len(),
        s[k] == '/',
        forall|i: int| 0 <= i < n && i != k ==> s[i] != '/',
    ensures
        slash_pieces(s.take(n)) == seq![s.take(k), s.subrange(k + 1, n)],
    decreases n,
{
    if n == k + 1 {
        lemma_no_slash(s.take(k));
        assert(s.take(n).drop_last() =~= s.take(k));
        assert(s.subrange(k + 1, n) =~= Seq::<char>::empty());
    } else {
        lemma_one_slash(s, k, n - 1);
        assert(s.take(n).drop_last() =~= s.take(n - 1));
        assert(s.subrange(k + 1, n - 1).push(s[n - 1]) =~= s.subrange(k + 1, n));
        assert(seq![s.take(k), s.subrange(k + 1, n - 1)].update(1, s.subrange(k + 1, n)) =~= seq![s.take(k), s.subrange(k + 1, n)]);
    }
}

fn canonical_number(s: &Vec<char>, a: usize, b: usize) -> (r: bool)
    requires
        a <= b <= s@.len(),
    ensures
        r == canonical_u16(s@.subrange(a as int, b as int)),
{
    match parse_in(s, a, b, 65535) {
        Some(n) => {
            if n == 0 {
                return false;
            }
            let printed = chars_of(decimal(n).as_str());
            let piece = crate::audio_options::sub_chars(s, a, b);
            let same = printed.len() == piece.len() && {
                let mut i: usize = 0;
                let mut ok = true;
                while i < piece.len()
                    invariant
                        printed@.len() == piece@.len(),
                        i <= piece@.len(),
                        ok == forall|k: int| 0 <= k < i ==> printed@[k] == piece@[k],
                    decreases piece@.len() - i,
                {
                    if printed[i] != piece[i] {
                        ok = false;
                    }
                    i = i + 1;
                }
                ok
            };
            proof {
                if same {
                    assert(printed@ =~= piece@);
                } else if printed@.len() == piece@.len() {
                    assert(printed@ != piece@) by {
                        let k = choose|k: int| 0 <= k < piece@.len() && printed@[k] != piece@[k];
                    }
                }
            }
            same
        },
        None => false,
    }
}

fn single_slash(s: &Vec<char>) -> (r: Option<Option<usize>>)
    ensures
        r is None ==> slash_pieces(s@).len() >= 3,
        r matches Some(None) ==> forall|m: int| 0 <= m < s@.len() ==> s@[m] != '/',
        r matches Some(Some(k)) ==> k < s@.len() && s@[k as int] == '/' && forall|m: int| 0 <= m < s@.len() && m != k ==> s@[m] != '/',
{
    let mut first: Option<usize> = None;
    let mut i: usize = 0;
    while i < s.len()
        invariant
            i <= s@.len(),
            first matches Some(k) ==> k < i && s@[k as int] == '/' && slash_count(s@.take(i as int)) == 1
                && forall|m: int| 0 <= m < i && m != k ==> s@[m] != '/',
            first is None ==> slash_count(s@.take(i as int)) == 0 && forall|m: int| 0 <= m < i ==> s@[m] != '/',
        decreases s@.len() - i,
    {
        proof { lemma_count_step(s@, i as int); }
        if s[i] == '/' {
            if first.is_some() {
                proof {
                    lemma_count_mono(s@, i as int + 1, s@.len() as int);
                    assert(s@.take(s@.len() as int) =~= s@);
                    lemma_pieces_len(s@);
                }
                return None;
            }
            first = Some(i);
        }
        i = i + 1;
    }
    Some(first)
}

/// Whether a track number is `n` or `n/total` with canonical positive numbers.
pub fn track_is_valid(text: &str) -> (r: bool)
    ensures
        r == valid_track(text@),
{
    let s = chars_of(text);
    let first = match single_slash(&s) {
        Some(f) => f,
        None => return false,
    };
    match first {
        None => {
            proof { lemma_no_slash(s@); }
            assert(s@.subrange(0, s@.len() as int) =~= s@);
            let r = canonical_number(&s, 0, s.len());
            proof {
                let parts = slash_pieces(s@);
                if r {
                    assert forall|i: int| 0 <= i < parts.len() implies canonical_u16(#[trigger] parts[i]) by {
                        assert(parts[i] == s@);
                    }
                } else {
                    assert(!canonical_u16(parts[0]));
                }
            }
            r
        },
        Some(k) => {
            proof {
                lemma_one_slash(s@, k as int, s@.len() as int);
                assert(s@.take(s@.len() as int) =~= s@);
            }
            assert(s@.subrange(0, k as int) =~= s@.take(k as int));
            let left = canonical_number(&s, 0, k);
            let n = s.len();
            let right = canonical_number(&s, k + 1, n);
            proof {
                let parts = slash_pieces(s@);
                if left && right {
                    assert forall|i: int| 0 <= i < parts.len() implies canonical_u16(#[trigger] parts[i]) by {
                        if i == 0 { assert(parts[0] == s@.take(k as int)); } else { assert(parts[1] == s@.subrange(k + 1, s@.len() as int)); }
                    }
                } else if !left {
                    assert(!canonical_u16(parts[0]));
                } else {
                    assert(!canonical_u16(parts[1]));
                }
            }
            left && right
        },
    }
}

impl Format {
    /// Whether this container can carry every nonempty override: AAC, 3GP and
    /// transport streams carry none; WAV, AVI and QuickTime lack some fields;
    /// MP4 and M4A need canonical `n` or `n/total` track numbers.
    pub fn supports_metadata(self, options: &MetadataExportOptions) -> (r: bool)
        ensures
            r == metadata_supported(self, options@),
    {
        let mut i: usize = 0;
        while i < 10
            invariant
                i <= 10,
                forall|k: int| #![trigger options@[k]] 0 <= k < i ==> match options@[k] {
                    Some(v) => v.len() > 0 ==> field_supported(self, k, v),
                    None => true,
                },
            decreases 10 - i,
        {
            let field = crate::metadata::MetadataField::at(i);
            if let Some(value) = options.get(field) {
                if !crate::text::text_is_empty(value) {
                    let ok = match self {
                        Format::Aac | Format::ThreeGp | Format::TransportStream => false,
                        Format::Wav => !matches!(field, crate::metadata::MetadataField::AlbumArtist | crate::metadata::MetadataField::Composer),
                        Format::Avi => !matches!(field, crate::metadata::MetadataField::Album | crate::metadata::MetadataField::AlbumArtist | crate::metadata::MetadataField::Composer),
                        Format::Mov => !matches!(field, crate::metadata::MetadataField::AlbumArtist | crate::metadata::MetadataField::Composer | crate::metadata::MetadataField::Track),
                        Format::Mp4 | Format::M4a => !matches!(field, crate::metadata::MetadataField::Track) || track_is_valid(value),
                        _ => true,
                    };
                    if !ok {
                        return false;
                    }
                }
            }
            i = i + 1;
        }
        true
    }
}

/// Formats offered for a document, the first accepting the source name, and
/// the extension that the dialog proposes.
#[derive(Clone, Debug)]
pub struct Choices {
    pub formats: Vec<Format>,
    pub initial: usize,
    pub default_extension: String,
}

/// Position of the first format whose extensions accept `path`.
pub open spec fn first_accepting(fs: Seq<Format>, path: Seq<char>, i: int) -> Option<int>
    decreases fs.len() - i,
{
    if i < 0 || i >= fs.len() {
        None
    } else if format_accepts(fs[i], path) {
        Some(i)
    } else {
        first_accepting(fs, path, i + 1)
    }
}

/// The dialog's initial format position for a source name.
pub open spec fn initial_choice(fs: Seq<Format>, source: Seq<char>) -> int {
    match first_accepting(fs, source, 0) {
        Some(i) => i,
        None => 0,
    }
}

/// The proposed extension: the source's own where its format is offered,
/// else the initial format's default extension.
pub open spec fn proposed_extension(fs: Seq<Format>, source: Seq<char>) -> Seq<char> {
    match first_accepting(fs, source, 0) {
        Some(i) => extension_of(source).unwrap(),
        None => format_extensions(fs[0])[0],
    }
}

proof fn lemma_first_accepting(fs: Seq<Format>, path: Seq<char>, i: int)
    ensures
        first_accepting(fs, path, i) matches Some(k) ==> i <= k < fs.len() && format_accepts(fs[k], path),
    decreases fs.len() - i,
{
    if 0 <= i < fs.len() && !format_accepts(fs[i], path) {
        lemma_first_accepting(fs, path, i + 1);
    }
}

/// The message of a refused file type choice.
pub open spec fn mismatch_message(f: Format) -> Seq<char> {
    "The filename extension does not match "@ + format_label(f) + ". Change the filename extension or select the matching file type."@
}

fn find_accepting(fs: &Vec<Format>, source: &str, i: usize) -> (r: Option<usize>)
    requires
        i <= fs@.len(),
    ensures
        r matches Some(k) ==> first_accepting(fs@, source@, i as int) == Some(k as int),
        r is None ==> first_accepting(fs@, source@, i as int) is None,
    decreases fs@.len() - i,
{
    if i >= fs.len() {
        None
    } else if fs[i].accepts(source) {
        Some(i)
    } else {
        find_accepting(fs, source, i + 1)
    }
}

impl Choices {
    /// A nonempty format list with a valid initial position.
    pub open spec fn wf(&self) -> bool {
        self.formats@.len() > 0 && self.initial < self.formats@.len()
    }

    /// Offers `formats`, starting at the first one that accepts the source's
    /// name; an empty list is refused.
    pub fn new(formats: Vec<Format>, source: &str) -> (r: Result<Choices, ExportError>)
        ensures
            r is Ok <==> formats@.len() > 0,
            r matches Ok(c) ==> {
                &&& c.wf()
                &&& c.formats@ == formats@
                &&& c.initial == initial_choice(formats@, source@)
                &&& c.default_extension@ == proposed_extension(formats@, source@)
            },
            r matches Err(e) ==> e is Failed,
    {
        if formats.len() == 0 {
            return Err(ExportError::Failed(owned(
                "No export format supports this document and its current output options",
            )));
        }
        let found = find_accepting(&formats, source, 0);
        proof { lemma_first_accepting(formats@, source@, 0); }
        if let Some(i) = found {
            let ext = match extension(source) {
                Some(e) => e,
                None => {
                    assert(false);
                    owned("")
                },
            };
            Ok(Choices { formats, initial: i, default_extension: ext })
        } else {
            let default = owned(formats[0].extensions()[0]);
            Ok(Choices { formats, initial: 0, default_extension: default })
        }
    }

    /// The suggested name, with the proposed extension unless the initial
    /// format already accepts it.
    pub fn filename(&self, suggested: &str) -> (r: String)
        requires
            self.wf(),
        ensures
            r@ == if format_accepts(self.formats@[self.initial as int], suggested@) {
                suggested@
            } else {
                with_extension(suggested@, self.default_extension@)
            },
    {
        if self.formats[self.initial].accepts(suggested) {
            owned(suggested)
        } else {
            set_extension(suggested, self.default_extension.as_str())
        }
    }

    /// Checks the dialog's 1-based file type against the chosen path.
    pub fn validate(&self, one_based: u32, path: &str) -> (r: Result<(), String>)
        ensures
            (one_based == 0 || one_based - 1 >= self.formats@.len()) ==> (r matches Err(m) && m@ == "Choose a supported file type."@),
            (1 <= one_based && one_based - 1 < self.formats@.len()) ==> {
                let f = self.formats@[one_based - 1];
                if format_accepts(f, path@) { r is Ok } else { (r matches Err(m) && m@ == mismatch_message(f)) }
            },
    {
        if one_based == 0 || (one_based - 1) as usize >= self.formats.len() {
            return Err(owned("Choose a supported file type."));
        }
        let format = self.formats[(one_based - 1) as usize];
        if !format.accepts(path) {
            let mut message = owned("The filename extension does not match ");
            push_str(&mut message, format.label());
            push_str(&mut message, ". Change the filename extension or select the matching file type.");
            return Err(message);
        }
        Ok(())
    }
}

/// What the dialog exports from a document.
#[derive(Clone, Copy, Debug, Eq, PartialEq, Structural)]
pub enum ExportOutput {
    Media,
    AudioOnly,
    VideoFrame,
}

impl Default for ExportOutput {
    fn default() -> (r: Self)
        ensures
            r == ExportOutput::Media,
    {
        ExportOutput::Media
    }
}

/// All options of one export.
#[derive(Clone, Debug)]
pub struct ExportOptions {
    pub output: ExportOutput,
    pub audio: AudioExportOptions,
    pub metadata: MetadataExportOptions,
}

impl Default for ExportOptions {
    fn default() -> (r: Self)
        ensures
            r.output == ExportOutput::Media,
            r.audio == crate::audio_options::default_audio(),
            forall|i: int| 0 <= i < 10 ==> r.metadata@[i] is None,
    {
        ExportOptions {
            output: ExportOutput::Media,
            audio: AudioExportOptions::default(),
            metadata: MetadataExportOptions::default(),
        }
    }
}

/// An opened document: the file that is read and the name it is known by.
#[derive(Clone, Debug, Eq, PartialEq)]
pub struct MediaInput {
    path: String,
    logical: String,
}

impl MediaInput {
    /// The file that is read.
    pub closed spec fn file(&self) -> Seq<char> {
        self.path@
    }

    /// The name the document is known by.
    pub closed spec fn name(&self) -> Seq<char> {
        self.logical@
    }

    /// A document read from the file it is named by.
    pub fn new(path: String) -> (r: MediaInput)
        ensures
            r.file() == path@,
            r.name() == path@,
    {
        let logical = path.clone();
        MediaInput { path, logical }
    }

    /// A document read from `path` but known by `logical`.
    pub fn with_logical_path(path: String, logical: String) -> (r: MediaInput)
        ensures
            r.file() == path@,
            r.name() == logical@,
    {
        MediaInput { path, logical }
    }

    pub fn path(&self) -> (r: &str)
        ensures
            r@ == self.file(),
    {
        self.path.as_str()
    }

    pub fn logical_path(&self) -> (r: &str)
        ensures
            r@ == self.name(),
    {
        self.logical.as_str()
    }
}

/// Value-only description; preparation and all source inspection run on a worker.
#[derive(Clone, Debug)]
pub struct ExportDialogRequest {
    pub input: MediaInput,
    pub kind: MediaKind,
    pub operations: Vec<EditOperation>,
    pub options: ExportOptions,
}

/// The formats in `fs` that satisfy `p`, in order.
pub open spec fn filter_by(fs: Seq<Format>, p: spec_fn(Format) -> bool) -> Seq<Format>
    decreases fs.len(),
{
    if fs.len() == 0 {
        fs
    } else {
        let r = filter_by(fs.drop_last(), p);
        if p(fs.last()) { r.push(fs.last()) } else { r }
    }
}

pub open spec fn audio_formats() -> Seq<Format> {
    seq![Format::Wav, Format::Flac, Format::Mp3, Format::M4a, Format::Aac, Format::Ogg, Format::Opus]
}

/// Formats of a dialog before the metadata filter, or `None` when the
/// document has no audio to export.
pub open spec fn dialog_formats(kind: MediaKind, output: ExportOutput, has_audio: bool, high_depth: bool, image: Seq<Format>) -> Option<Seq<Format>> {
    if output is VideoFrame {
        Some(seq![Format::FramePng])
    } else if kind is Audio || output is AudioOnly {
        if kind is Image || !has_audio { None } else { Some(audio_formats()) }
    } else if kind is Video {
        if high_depth {
            Some(seq![Format::Mp4, Format::Mkv, Format::Webm])
        } else {
            Some(seq![Format::Mp4, Format::Mkv, Format::Mov, Format::Webm, Format::Avi, Format::Wmv, Format::ThreeGp, Format::TransportStream])
        }
    } else {
        Some(image)
    }
}

/// Formats offered after dropping containers that cannot carry the overrides.
pub open spec fn offered_formats(kind: MediaKind, fs: Seq<Format>, meta: Seq<Option<Seq<char>>>) -> Seq<Format> {
    if kind is Image { fs } else { filter_by(fs, |f: Format| metadata_supported(f, meta)) }
}

fn keep_supported(fs: Vec<Format>, options: &MetadataExportOptions) -> (r: Vec<Format>)
    ensures
        r@ == filter_by(fs@, |f: Format| metadata_supported(f, options@)),
{
    let mut r: Vec<Format> = Vec::new();
    let mut i: usize = 0;
    while i < fs.len()
        invariant
            i <= fs@.len(),
            r@ == filter_by(fs@.take(i as int), |f: Format| metadata_supported(f, options@)),
        decreases fs@.len() - i,
    {
        assert(fs@.take(i as int + 1).drop_last() =~= fs@.take(i as int));
        if fs[i].supports_metadata(options) {
            r.push(fs[i]);
        }
        i = i + 1;
    }
    assert(fs@.take(fs@.len() as int) =~= fs@);
    r
}

impl ExportDialogRequest {
    /// The dialog's choices, given what inspecting the source found: whether
    /// it has an audio stream, whether its video samples exceed 8 bits, and
    /// which image formats can represent it. Audio-only starts in WAV;
    /// other documents retain their supported source format.
    pub fn choices_from(&self, has_audio: bool, high_depth: bool, image_formats: Vec<Format>) -> (r: Result<Choices, ExportError>)
        ensures
            match dialog_formats(self.kind, self.options.output, has_audio, high_depth, image_formats@) {
                None => r matches Err(ExportError::Failed(m)) && m@ == "This media has no audio stream to export"@,
                Some(fs) => {
                    let offered = offered_formats(self.kind, fs, self.options.metadata@);
                    let source = if self.options.output is AudioOnly { "audio.wav"@ } else { self.input.name() };
                    &&& (r is Ok <==> offered.len() > 0)
                    &&& r matches Ok(c) ==> c.wf() && c.formats@ == offered
                        && c.initial == initial_choice(offered, source)
                        && c.default_extension@ == proposed_extension(offered, source)
                    &&& r matches Err(e) ==> e is Failed
                },
            },
    {
        let output = self.options.output;
        let mut formats: Vec<Format> = if matches!(output, ExportOutput::VideoFrame) {
            vec![Format::FramePng]
        } else if matches!(self.kind, MediaKind::Audio) || matches!(output, ExportOutput::AudioOnly) {
            if matches!(self.kind, MediaKind::Image) || !has_audio {
                return Err(ExportError::Failed(owned("This media has no audio stream to export")));
            }
            vec![Format::Wav, Format::Flac, Format::Mp3, Format::M4a, Format::Aac, Format::Ogg, Format::Opus]
        } else if matches!(self.kind, MediaKind::Video) {
            if high_depth {
                vec![Format::Mp4, Format::Mkv, Format::Webm]
            } else {
                vec![Format::Mp4, Format::Mkv, Format::Mov, Format::Webm, Format::Avi, Format::Wmv, Format::ThreeGp, Format::TransportStream]
            }
        } else {
            image_formats
        };
        assert(formats@ =~= dialog_formats(self.kind, output, has_audio, high_depth, image_formats@).unwrap());
        if !matches!(self.kind, MediaKind::Image) {
            formats = keep_supported(formats, &self.options.metadata);
        }
        if matches!(output, ExportOutput::AudioOnly) {
            Choices::new(formats, "audio.wav")
        } else {
            Choices::new(formats, self.input.logical_path())
        }
    }
}

/// How much transparency an image shows.
#[derive(Clone, Copy, Debug, Eq, PartialEq, Structural)]
pub enum Transparency {
    Opaque,
    Binary,
    Full,
}

/// Order of transparency kinds: opaque, then binary, then full.
pub open spec fn rank(t: Transparency) -> nat {
    match t {
        Transparency::Opaque => 0,
        Transparency::Binary => 1,
        Transparency::Full => 2,
    }
}

/// The kind of one 16-bit alpha sample.
pub open spec fn sample_kind(value: u16) -> Transparency {
    if value == u16::MAX { Transparency::Opaque } else if value == 0 { Transparency::Binary } else { Transparency::Full }
}

/// The more transparent of two kinds.
pub open spec fn most(a: Transparency, b: Transparency) -> Transparency {
    if rank(a) >= rank(b) { a } else { b }
}

/// The most transparent kind among the first `n` RGBA8 pixels.
pub open spec fn rgba_kind(bytes: Seq<u8>, n: int) -> Transparency
    decreases n,
{
    if n <= 0 {
        Transparency::Opaque
    } else {
        most(rgba_kind(bytes, n - 1), sample_kind((bytes[4 * n - 1] as u16 * 257) as u16))
    }
}

pub fn sample(value: u16) -> (r: Transparency)
    ensures
        r == sample_kind(value),
{
    if value == u16::MAX { Transparency::Opaque } else if value == 0 { Transparency::Binary } else { Transparency::Full }
}

pub fn most_transparent(a: Transparency, b: Transparency) -> (r: Transparency)
    ensures
        r == most(a, b),
{
    let ra: u8 = match a { Transparency::Opaque => 0, Transparency::Binary => 1, Transparency::Full => 2 };
    let rb: u8 = match b { Transparency::Opaque => 0, Transparency::Binary => 1, Transparency::Full => 2 };
    if ra >= rb { a } else { b }
}

/// The most transparent kind among the whole RGBA8 pixels of `bytes`.
pub fn rgba(bytes: &[u8]) -> (r: Transparency)
    ensures
        r == rgba_kind(bytes@, (bytes@.len() / 4) as int),
{
    let pixels = bytes.len() / 4;
    let mut result = Transparency::Opaque;
    let mut i: usize = 0;
    let mut offset: usize = 0;
    while i < pixels
        invariant
            pixels == bytes@.len() / 4,
            i <= pixels,
            offset == 4 * i,
            result == rgba_kind(bytes@, i as int),
        decreases pixels - i,
    {
        assert(offset + 3 < bytes@.len()) by (nonlinear_arith)
            requires i < pixels, pixels == bytes@.len() / 4, offset == 4 * i;
        let alpha = bytes[offset + 3];
        assert(alpha as u16 * 257 <= u16::MAX);
        result = most_transparent(result, sample(alpha as u16 * 257));
        i = i + 1;
        offset = offset + 4;
    }
    result
}

/// The most transparent kind among the first `n` pixels of 8-bit samples
/// with `channels` samples per pixel, alpha last.
pub open spec fn alpha8_kind(bytes: Seq<u8>, channels: int, n: int) -> Transparency
    decreases n,
{
    if n <= 0 {
        Transparency::Opaque
    } else {
        most(alpha8_kind(bytes, channels, n - 1), sample_kind((bytes[channels * n - 1] as u16 * 257) as u16))
    }
}

/// The most transparent kind among the first `n` pixels of 16-bit samples
/// with `channels` samples per pixel, alpha last.
pub open spec fn alpha16_kind(samples: Seq<u16>, channels: int, n: int) -> Transparency
    decreases n,
{
    if n <= 0 {
        Transparency::Opaque
    } else {
        most(alpha16_kind(samples, channels, n - 1), sample_kind(samples[channels * n - 1]))
    }
}

/// The transparency of 8-bit pixels with alpha last (gray with alpha has two
/// samples per pixel, RGBA four); an 8-bit alpha counts as its 16-bit scale.
pub fn alpha8(bytes: &[u8], channels: usize) -> (r: Transparency)
    requires
        channels > 0,
    ensures
        r == alpha8_kind(bytes@, channels as int, (bytes@.len() / channels as nat) as int),
{
    let pixels = bytes.len() / channels;
    let mut result = Transparency::Opaque;
    let mut i: usize = 0;
    while i < pixels
        invariant
            channels > 0,
            pixels == bytes@.len() / channels as nat,
            i <= pixels,
            result == alpha8_kind(bytes@, channels as int, i as int),
        decreases pixels - i,
    {
        let n = bytes.len();
        assert(channels * (i + 1) <= n) by (nonlinear_arith)
            requires i < pixels, pixels == n as nat / channels as nat, channels > 0;
        assert(channels * (i + 1) >= 1) by (nonlinear_arith)
            requires channels > 0, i >= 0;
        let end = channels * (i + 1);
        let alpha = bytes[end - 1];
        assert(alpha as u16 * 257 <= u16::MAX);
        result = most_transparent(result, sample(alpha as u16 * 257));
        i = i + 1;
    }
    result
}

/// The transparency of 16-bit pixels with alpha last.
pub fn alpha16(samples: &[u16], channels: usize) -> (r: Transparency)
    requires
        channels > 0,
    ensures
        r == alpha16_kind(samples@, channels as int, (samples@.len() / channels as nat) as int),
{
    let pixels = samples.len() / channels;
    let mut result = Transparency::Opaque;
    let mut i: usize = 0;
    while i < pixels
        invariant
            channels > 0,
            pixels == samples@.len() / channels as nat,
            i <= pixels,
            result == alpha16_kind(samples@, channels as int, i as int),
        decreases pixels - i,
    {
        let n = samples.len();
        assert(channels * (i + 1) <= n) by (nonlinear_arith)
            requires i < pixels, pixels == n as nat / channels as nat, channels > 0;
        assert(channels * (i + 1) >= 1) by (nonlinear_arith)
            requires channels > 0, i >= 0;
        let end = channels * (i + 1);
        result = most_transparent(result, sample(samples[end - 1]));
        i = i + 1;
    }
    result
}

/// Which image container keeps the source's editable text.
#[derive(Clone, Copy, Debug, Eq, PartialEq, Structural)]
pub enum ImageMetadataFormat {
    Png,
    Jpeg,
    Webp,
}

/// The text-capable image container that a path names.
pub open spec fn metadata_format_of(path: Seq<char>) -> Option<ImageMetadataFormat> {
    if format_accepts(Format::Png, path) {
        Some(ImageMetadataFormat::Png)
    } else if format_accepts(Format::Jpeg, path) {
        Some(ImageMetadataFormat::Jpeg)
    } else if format_accepts(Format::Webp, path) {
        Some(ImageMetadataFormat::Webp)
    } else {
        None
    }
}

/// A character that XML text can hold.
pub open spec fn xml_char(c: char) -> bool {
    let n = c as u32;
    n == 9 || n == 10 || n == 13 || (0x20 <= n && n <= 0xD7FF) || (0xE000 <= n && n <= 0xFFFD) || 0x10000 <= n
}

/// Whether JPEG's XMP can take a setting of `field` to `text` (empty text
/// removes the field): album artist has no XMP property, date and track
/// can only be removed, and the text must be XML characters.
pub open spec fn jpeg_fits(field: MetadataField, text: Seq<char>) -> bool {
    &&& field != MetadataField::AlbumArtist
    &&& (text.len() == 0 || (field != MetadataField::Date && field != MetadataField::Track))
    &&& forall|i: int| 0 <= i < text.len() ==> xml_char(#[trigger] text[i])
}

/// Whether the setting at position `i` is one that JPEG cannot take.
pub open spec fn jpeg_misfit(settings: Seq<Option<Seq<char>>>, i: int) -> bool {
    settings[i] matches Some(t) && !jpeg_fits(field_at(i), t)
}

/// Whether a source's container can take the text settings.
pub open spec fn options_fit(format: ImageMetadataFormat, settings: Seq<Option<Seq<char>>>) -> bool {
    format is Jpeg ==> forall|i: int| 0 <= i < 10 ==> !#[trigger] jpeg_misfit(settings, i)
}

/// The refusal of a setting that JPEG cannot take.
pub open spec fn misfit_message(field: MetadataField, text: Seq<char>) -> Seq<char> {
    if forall|i: int| 0 <= i < text.len() ==> xml_char(#[trigger] text[i]) {
        label_text(field) + " cannot be written to JPEG metadata"@
    } else {
        label_text(field) + " holds a character that XML cannot store"@
    }
}

fn xml_text(t: &str) -> (r: bool)
    ensures
        r == forall|i: int| 0 <= i < t@.len() ==> xml_char(#[trigger] t@[i]),
{
    let cs = chars_of(t);
    let mut i: usize = 0;
    while i < cs.len()
        invariant
            i <= cs@.len(),
            cs@ == t@,
            forall|k: int| 0 <= k < i ==> xml_char(#[trigger] t@[k]),
        decreases cs@.len() - i,
    {
        let n = cs[i] as u32;
        if !(n == 9 || n == 10 || n == 13 || (0x20 <= n && n <= 0xD7FF) || (0xE000 <= n && n <= 0xFFFD) || 0x10000 <= n) {
            assert(!xml_char(t@[i as int]));
            return false;
        }
        i = i + 1;
    }
    true
}

impl ImageMetadataFormat {
    /// Checks the text settings against what the source's container can
    /// store: JPEG refuses the first setting that its XMP cannot take.
    pub fn validate_options(&self, metadata: &MetadataExportOptions) -> (r: Result<(), ExportError>)
        ensures
            r is Ok <==> options_fit(*self, metadata@),
            r matches Err(e) ==> exists|i: int| 0 <= i < 10 && #[trigger] jpeg_misfit(metadata@, i)
                && (forall|j: int| 0 <= j < i ==> !jpeg_misfit(metadata@, j))
                && (metadata@[i] matches Some(t) && (e matches ExportError::Failed(m) && m@ == misfit_message(field_at(i), t))),
    {
        proof { reveal_strlit(" cannot be written to JPEG metadata"); }
        if !matches!(self, ImageMetadataFormat::Jpeg) {
            return Ok(());
        }
        let mut i: usize = 0;
        while i < 10
            invariant
                i <= 10,
                *self == ImageMetadataFormat::Jpeg,
                forall|j: int| 0 <= j < i ==> !#[trigger] jpeg_misfit(metadata@, j),
            decreases 10 - i,
        {
            let field = MetadataField::at(i);
            match metadata.get(field) {
                Some(text) => {
                    let chars_ok = xml_text(text);
                    let fits = chars_ok && !matches!(field, MetadataField::AlbumArtist)
                        && (text.is_empty() || !matches!(field, MetadataField::Date | MetadataField::Track));
                    assert(metadata@[i as int] == Some(text@));
                    assert(fits == jpeg_fits(field_at(i as int), text@));
                    if !fits {
                        assert(jpeg_misfit(metadata@, i as int));
                        let mut m = owned(field.label());
                        if chars_ok {
                            push_str(&mut m, " cannot be written to JPEG metadata");
                        } else {
                            push_str(&mut m, " holds a character that XML cannot store");
                        }
                        return Err(ExportError::Failed(m));
                    }
                },
                None => {},
            }
            i = i + 1;
        }
        Ok(())
    }

    pub fn from_path(path: &str) -> (r: Option<ImageMetadataFormat>)
        ensures
            r == metadata_format_of(path@),
    {
        if Format::Png.accepts(path) {
            Some(ImageMetadataFormat::Png)
        } else if Format::Jpeg.accepts(path) {
            Some(ImageMetadataFormat::Jpeg)
        } else if Format::Webp.accepts(path) {
            Some(ImageMetadataFormat::Webp)
        } else {
            None
        }
    }
}

pub open spec fn image_formats_all() -> Seq<Format> {
    seq![Format::Png, Format::Jpeg, Format::Webp, Format::Avif, Format::Gif, Format::Tiff, Format::Bmp]
}

/// Image containers that can keep edited text from a source of the given kind.
pub open spec fn keeps_text(source: Option<ImageMetadataFormat>, f: Format) -> bool {
    match source {
        Some(ImageMetadataFormat::Png) => f is Png,
        Some(ImageMetadataFormat::Jpeg) | Some(ImageMetadataFormat::Webp) => f is Jpeg || f is Webp,
        None => false,
    }
}

/// Image formats before the transparency check: text edits restrict the
/// containers, animation needs an animated container, and formats whose
/// conversion was refused are dropped.
pub open spec fn image_candidates(source: Option<ImageMetadataFormat>, text_edits: bool, animated: bool, refused: Seq<Format>) -> Seq<Format> {
    filter_by(image_formats_all(), |f: Format| image_candidate(source, text_edits, animated, refused, f))
}

/// Whether one image format survives the text, animation and refusal checks.
pub open spec fn image_candidate(source: Option<ImageMetadataFormat>, text_edits: bool, animated: bool, refused: Seq<Format>, f: Format) -> bool {
    (text_edits ==> keeps_text(source, f))
    && (animated ==> (f is Png || f is Webp || f is Avif || f is Gif))
    && !refused.contains(f)
}

/// Whether the transparency check applies: a JPEG or GIF target is offered.
pub open spec fn needs_transparency(fs: Seq<Format>) -> bool {
    fs.contains(Format::Jpeg) || fs.contains(Format::Gif)
}

/// Whether a format can hold the image's transparency. JPEG and bitmap need
/// opaque pixels; GIF holds binary transparency only where the GIF or
/// animation writer handles it.
pub open spec fn holds_transparency(f: Format, t: Transparency, animated: bool, gif_source: bool) -> bool {
    match f {
        Format::Jpeg | Format::Bmp => t is Opaque,
        Format::Gif => !(t is Full) && (t is Opaque || animated || gif_source),
        _ => true,
    }
}

/// Transparency after the edits: a free rotation, or interpolation of binary
/// transparency, produces partial alpha.
pub open spec fn edited_transparency(t: Transparency, transparent_edit: bool, interpolated: bool) -> Transparency {
    if transparent_edit || (t is Binary && interpolated) { Transparency::Full } else { t }
}

fn contains_format(fs: &Vec<Format>, f: Format) -> (r: bool)
    ensures
        r == fs@.contains(f),
{
    let mut i: usize = 0;
    while i < fs.len()
        invariant
            i <= fs@.len(),
            forall|k: int| 0 <= k < i ==> fs@[k] != f,
        decreases fs@.len() - i,
    {
        if fs[i] == f {
            assert(fs@[i as int] == f);
            return true;
        }
        i = i + 1;
    }
    false
}

/// Whether an image source is an animation: an animated PNG, a GIF of
/// more than one frame, or an AVIF image sequence.
pub fn image_animated(png: &Option<crate::png::Animation>, gif: &Option<GifAnimation>, sequence: bool) -> (r: bool)
    ensures
        r == (png is Some || (gif matches Some(g) && g.delays@.len() > 1) || sequence),
{
    let gif_animated = match gif {
        Some(g) => g.is_animated(),
        None => false,
    };
    png.is_some() || gif_animated || sequence
}

/// Whether an image source refuses a format: a GIF source by its own rule,
/// and an animation by the format's converter.
pub open spec fn image_refusal(animated: bool, gif: Option<GifAnimation>, converting: Seq<Format>, f: Format) -> bool {
    (gif matches Some(g) && gif_refuses(g, f)) || (animated && !converting.contains(f))
}

/// The image formats that a source refuses before its text and animation
/// are weighed; `converting` lists those whose converter takes the
/// animation.
pub fn refused_formats(animated: bool, gif: &Option<GifAnimation>, converting: &Vec<Format>) -> (r: Vec<Format>)
    ensures
        r@ == filter_by(image_formats_all(), |f: Format| image_refusal(animated, *gif, converting@, f)),
{
    let all = vec![Format::Png, Format::Jpeg, Format::Webp, Format::Avif, Format::Gif, Format::Tiff, Format::Bmp];
    let mut r: Vec<Format> = Vec::new();
    let mut i: usize = 0;
    while i < all.len()
        invariant
            i <= all@.len(),
            all@ == image_formats_all(),
            r@ == filter_by(all@.take(i as int), |f: Format| image_refusal(animated, *gif, converting@, f)),
        decreases all@.len() - i,
    {
        assert(all@.take(i as int + 1).drop_last() =~= all@.take(i as int));
        let f = all[i];
        let by_gif = match gif {
            Some(g) => g.refuses(f),
            None => false,
        };
        if by_gif || (animated && !contains_format(converting, f)) {
            r.push(f);
        }
        i = i + 1;
    }
    assert(all@.take(all@.len() as int) =~= all@);
    r
}

/// Image formats before the transparency check.
pub fn image_format_candidates(source: &str, metadata: &MetadataExportOptions, animated: bool, refused: &Vec<Format>) -> (r: Vec<Format>)
    ensures
        r@ == image_candidates(metadata_format_of(source@), !(forall|i: int| 0 <= i < 10 ==> metadata@[i] is None), animated, refused@),
{
    let kind = ImageMetadataFormat::from_path(source);
    let text_edits = !metadata.is_empty();
    let all = vec![Format::Png, Format::Jpeg, Format::Webp, Format::Avif, Format::Gif, Format::Tiff, Format::Bmp];
    let mut r: Vec<Format> = Vec::new();
    let mut i: usize = 0;
    while i < all.len()
        invariant
            i <= all@.len(),
            all@ == image_formats_all(),
            kind == metadata_format_of(source@),
            text_edits == !(forall|i: int| 0 <= i < 10 ==> metadata@[i] is None),
            r@ == filter_by(all@.take(i as int), |f: Format| image_candidate(kind, text_edits, animated, refused@, f)),
        decreases all@.len() - i,
    {
        assert(all@.take(i as int + 1).drop_last() =~= all@.take(i as int));
        let f = all[i];
        let keep_text = !text_edits || match kind {
            Some(ImageMetadataFormat::Png) => matches!(f, Format::Png),
            Some(ImageMetadataFormat::Jpeg) | Some(ImageMetadataFormat::Webp) => matches!(f, Format::Jpeg | Format::Webp),
            None => false,
        };
        let keep_animation = !animated || matches!(f, Format::Png | Format::Webp | Format::Avif | Format::Gif);
        if keep_text && keep_animation && !contains_format(refused, f) {
            r.push(f);
        }
        i = i + 1;
    }
    assert(all@.take(all@.len() as int) =~= all@);
    r
}

/// The image formats that can hold the source's transparency after the edits.
pub fn transparency_formats(fs: Vec<Format>, transparency: Transparency, transparent_edit: bool, interpolated: bool, animated: bool, gif_source: bool) -> (r: Vec<Format>)
    ensures
        r@ == if needs_transparency(fs@) {
            filter_by(fs@, |f: Format| holds_transparency(f, edited_transparency(transparency, transparent_edit, interpolated), animated, gif_source))
        } else {
            fs@
        },
{
    if !(contains_format(&fs, Format::Jpeg) || contains_format(&fs, Format::Gif)) {
        return fs;
    }
    let t = if transparent_edit || (matches!(transparency, Transparency::Binary) && interpolated) { Transparency::Full } else { transparency };
    let mut r: Vec<Format> = Vec::new();
    let mut i: usize = 0;
    while i < fs.len()
        invariant
            i <= fs@.len(),
            t == edited_transparency(transparency, transparent_edit, interpolated),
            r@ == filter_by(fs@.take(i as int), |f: Format| holds_transparency(f, t, animated, gif_source)),
        decreases fs@.len() - i,
    {
        assert(fs@.take(i as int + 1).drop_last() =~= fs@.take(i as int));
        let f = fs[i];
        let keep = match f {
            Format::Jpeg | Format::Bmp => matches!(t, Transparency::Opaque),
            Format::Gif => !matches!(t, Transparency::Full) && (matches!(t, Transparency::Opaque) || animated || gif_source),
            _ => true,
        };
        if keep {
            r.push(f);
        }
        i = i + 1;
    }
    assert(fs@.take(fs@.len() as int) =~= fs@);
    r
}

/// A free rotation that is not a multiple of 90 degrees can add transparent corners.
pub open spec fn has_transparent_edit(ops: Seq<EditOperation>) -> bool {
    exists|i: int| 0 <= i < ops.len() && (#[trigger] ops[i] matches EditOperation::RotateImage(r) && r.tenths % 900 != 0)
}

/// A resize with an interpolating filter.
pub open spec fn has_interpolation(ops: Seq<EditOperation>) -> bool {
    exists|i: int| 0 <= i < ops.len() && (#[trigger] ops[i] matches EditOperation::Resize(r) && !(r.filter is Nearest))
}

pub fn transparent_edit(ops: &Vec<EditOperation>) -> (r: bool)
    ensures
        r == has_transparent_edit(ops@),
{
    let mut i: usize = 0;
    while i < ops.len()
        invariant
            i <= ops@.len(),
            forall|k: int| 0 <= k < i ==> !(#[trigger] ops@[k] matches EditOperation::RotateImage(r) && r.tenths % 900 != 0),
        decreases ops@.len() - i,
    {
        if let EditOperation::RotateImage(rotation) = &ops[i] {
            if rotation.tenths % 900 != 0 {
                return true;
            }
        }
        i = i + 1;
    }
    false
}

pub fn interpolated(ops: &Vec<EditOperation>) -> (r: bool)
    ensures
        r == has_interpolation(ops@),
{
    let mut i: usize = 0;
    while i < ops.len()
        invariant
            i <= ops@.len(),
            forall|k: int| 0 <= k < i ==> !(#[trigger] ops@[k] matches EditOperation::Resize(r) && !(r.filter is Nearest)),
        decreases ops@.len() - i,
    {
        if let EditOperation::Resize(resize) = &ops[i] {
            if !matches!(resize.filter, crate::edits::ResampleFilter::Nearest) {
                return true;
            }
        }
        i = i + 1;
    }
    false
}
} // verus!
