//! PNG text chunks and APNG animation controls, scanned and rewritten on
//! in-memory bytes without decoding image data.
use crate::bytes::{be32, be32_bytes, extend, find_byte, lemma_be32_bytes, lemma_find_byte, position_of, read_u32, u32_bytes};
use crate::error::{check_cancelled, ExportError};
use crate::formats::{format_accepts, Format};
use crate::metadata::{field_at, field_index, MetadataExportOptions, MetadataField, MetadataSourceValue};
use crate::text::{bounded_prefix, floor_boundary, same_text, text_is_empty, bytes_eq_ignore_case, contains_nul, fold_byte, no_nul, owned, push_char, push_str, same_ignoring_ascii_case, string_from_utf8};
use std::sync::atomic::AtomicBool;
use vstd::prelude::*;
use vstd::utf8::*;

verus! {

/// Most stored or expanded text bytes.
pub const TEXT_LIMIT: usize = 1048576;
/// Most text chunks in one file.
pub const TEXT_COUNT_LIMIT: usize = 128;

/// The PNG keyword under which a field is written.
pub open spec fn keyword_bytes(f: MetadataField) -> Seq<u8> {
    match f {
        MetadataField::Title => seq![84u8, 105, 116, 108, 101],
        MetadataField::Artist => seq![65u8, 117, 116, 104, 111, 114],
        MetadataField::Album => seq![65u8, 108, 98, 117, 109],
        MetadataField::AlbumArtist => seq![65u8, 108, 98, 117, 109, 32, 65, 114, 116, 105, 115, 116],
        MetadataField::Composer => seq![67u8, 111, 109, 112, 111, 115, 101, 114],
        MetadataField::Genre => seq![71u8, 101, 110, 114, 101],
        MetadataField::Date => seq![67u8, 114, 101, 97, 116, 105, 111, 110, 32, 84, 105, 109, 101],
        MetadataField::Track => seq![84u8, 114, 97, 99, 107],
        MetadataField::Comment => seq![67u8, 111, 109, 109, 101, 110, 116],
        MetadataField::Copyright => seq![67u8, 111, 112, 121, 114, 105, 103, 104, 116],
    }
}

/// The container tag name of a field, as bytes.
pub open spec fn key_bytes(f: MetadataField) -> Seq<u8> {
    match f {
        MetadataField::Title => seq![116u8, 105, 116, 108, 101],
        MetadataField::Artist => seq![97u8, 114, 116, 105, 115, 116],
        MetadataField::Album => seq![97u8, 108, 98, 117, 109],
        MetadataField::AlbumArtist => seq![97u8, 108, 98, 117, 109, 95, 97, 114, 116, 105, 115, 116],
        MetadataField::Composer => seq![99u8, 111, 109, 112, 111, 115, 101, 114],
        MetadataField::Genre => seq![103u8, 101, 110, 114, 101],
        MetadataField::Date => seq![100u8, 97, 116, 101],
        MetadataField::Track => seq![116u8, 114, 97, 99, 107],
        MetadataField::Comment => seq![99u8, 111, 109, 109, 101, 110, 116],
        MetadataField::Copyright => seq![99u8, 111, 112, 121, 114, 105, 103, 104, 116],
    }
}

pub fn keyword(f: MetadataField) -> (r: Vec<u8>)
    ensures
        r@ == keyword_bytes(f),
{
    let r = match f {
        MetadataField::Title => vec![84u8, 105, 116, 108, 101],
        MetadataField::Artist => vec![65u8, 117, 116, 104, 111, 114],
        MetadataField::Album => vec![65u8, 108, 98, 117, 109],
        MetadataField::AlbumArtist => vec![65u8, 108, 98, 117, 109, 32, 65, 114, 116, 105, 115, 116],
        MetadataField::Composer => vec![67u8, 111, 109, 112, 111, 115, 101, 114],
        MetadataField::Genre => vec![71u8, 101, 110, 114, 101],
        MetadataField::Date => vec![67u8, 114, 101, 97, 116, 105, 111, 110, 32, 84, 105, 109, 101],
        MetadataField::Track => vec![84u8, 114, 97, 99, 107],
        MetadataField::Comment => vec![67u8, 111, 109, 109, 101, 110, 116],
        MetadataField::Copyright => vec![67u8, 111, 112, 121, 114, 105, 103, 104, 116],
    };
    assert(r@ =~= keyword_bytes(f));
    r
}

fn key_of(f: MetadataField) -> (r: Vec<u8>)
    ensures
        r@ == key_bytes(f),
{
    let r = match f {
        MetadataField::Title => vec![116u8, 105, 116, 108, 101],
        MetadataField::Artist => vec![97u8, 114, 116, 105, 115, 116],
        MetadataField::Album => vec![97u8, 108, 98, 117, 109],
        MetadataField::AlbumArtist => vec![97u8, 108, 98, 117, 109, 95, 97, 114, 116, 105, 115, 116],
        MetadataField::Composer => vec![99u8, 111, 109, 112, 111, 115, 101, 114],
        MetadataField::Genre => vec![103u8, 101, 110, 114, 101],
        MetadataField::Date => vec![100u8, 97, 116, 101],
        MetadataField::Track => vec![116u8, 114, 97, 99, 107],
        MetadataField::Comment => vec![99u8, 111, 109, 109, 101, 110, 116],
        MetadataField::Copyright => vec![99u8, 111, 112, 121, 114, 105, 103, 104, 116],
    };
    assert(r@ =~= key_bytes(f));
    r
}

/// Characters of Latin-1 bytes.
pub open spec fn latin1(s: Seq<u8>) -> Seq<char> {
    Seq::new(s.len(), |i: int| s[i] as char)
}

pub fn latin1_text(s: &[u8]) -> (r: String)
    ensures
        r@ == latin1(s@),
{
    let mut r = String::new();
    let mut i: usize = 0;
    while i < s.len()
        invariant
            i <= s@.len(),
            r@ == latin1(s@.take(i as int)),
        decreases s@.len() - i,
    {
        push_char(&mut r, s[i] as char);
        i = i + 1;
        assert(r@ =~= latin1(s@.take(i as int)));
    }
    assert(s@.take(s@.len() as int) =~= s@);
    r
}

/// A keyword of 1 to 79 Latin-1 printable bytes, without leading, trailing
/// or doubled spaces.
pub open spec fn keyword_ok(k: Seq<u8>) -> bool {
    &&& 1 <= k.len() <= 79
    &&& k[0] != 32
    &&& k[k.len() - 1] != 32
    &&& forall|i: int| 0 <= i < k.len() - 1 ==> !(k[i] == 32 && #[trigger] k[i + 1] == 32)
    &&& forall|i: int| 0 <= i < k.len() ==> ((32 <= #[trigger] k[i] <= 126) || (161 <= k[i]))
}

fn keyword_valid(k: &[u8]) -> (r: bool)
    ensures
        r == keyword_ok(k@),
{
    if k.len() == 0 || k.len() > 79 || k[0] == 32 || k[k.len() - 1] == 32 {
        return false;
    }
    let mut i: usize = 0;
    while i < k.len()
        invariant
            1 <= k@.len() <= 79,
            i <= k@.len(),
            forall|j: int| 0 <= j < i && j < k@.len() - 1 ==> !(k@[j] == 32 && #[trigger] k@[j + 1] == 32),
            forall|j: int| 0 <= j < i ==> ((32 <= #[trigger] k@[j] <= 126) || (161 <= k@[j])),
        decreases k@.len() - i,
    {
        let b = k[i];
        if !((32 <= b && b <= 126) || 161 <= b) {
            return false;
        }
        if i + 1 < k.len() && b == 32 && k[i + 1] == 32 {
            assert(k@[i as int] == 32 && k@[i as int + 1] == 32);
            return false;
        }
        i = i + 1;
    }
    true
}

/// Whether field `i` is named by keyword `k`.
pub open spec fn names_field(k: Seq<u8>, i: int) -> bool {
    same_ignoring_ascii_case(k, keyword_bytes(field_at(i))) || same_ignoring_ascii_case(k, key_bytes(field_at(i)))
}

/// The first field, in export order from `i`, named by keyword `k`.
pub open spec fn field_from(k: Seq<u8>, i: int) -> Option<MetadataField>
    decreases 10 - i,
{
    if i < 0 || i >= 10 {
        None
    } else if names_field(k, i) {
        Some(field_at(i))
    } else {
        field_from(k, i + 1)
    }
}

/// The field that a PNG keyword names, comparing ASCII case-insensitively
/// with both the written keyword and the tag name.
pub open spec fn field_of_keyword(k: Seq<u8>) -> Option<MetadataField> {
    field_from(k, 0)
}

fn find_field(k: &[u8]) -> (r: Option<MetadataField>)
    ensures
        r == field_of_keyword(k@),
{
    let mut i: usize = 0;
    while i < 10
        invariant
            i <= 10,
            field_from(k@, 0) == field_from(k@, i as int),
        decreases 10 - i,
    {
        let f = MetadataField::at(i);
        let word = keyword(f);
        let key = key_of(f);
        if bytes_eq_ignore_case(k, word.as_slice()) || bytes_eq_ignore_case(k, key.as_slice()) {
            return Some(f);
        }
        i = i + 1;
    }
    None
}

/// The error of a refused PNG stream.
pub(crate) fn invalid(message: &str) -> (e: ExportError)
    ensures
        e matches ExportError::Failed(m) && m@ == "PNG metadata: "@ + message@,
{
    let mut m = owned("PNG metadata: ");
    push_str(&mut m, message);
    ExportError::Failed(m)
}

/// The PNG chunk code of `tEXt`.
pub const TEXT: u32 = 0x74455874;
/// The PNG chunk code of `zTXt`.
pub const ZTXT: u32 = 0x7a545874;
/// The PNG chunk code of `iTXt`.
pub const ITXT: u32 = 0x69545874;

pub open spec fn is_text_kind(kind: u32) -> bool {
    kind == TEXT || kind == ZTXT || kind == ITXT
}

/// A language tag of ASCII letters, digits and hyphens.
pub open spec fn language_ok(s: Seq<u8>) -> bool {
    forall|i: int| 0 <= i < s.len() ==> ((48 <= #[trigger] s[i] <= 57) || (65 <= s[i] <= 90) || (97 <= s[i] <= 122) || s[i] == 45)
}

fn language_valid(s: &[u8]) -> (r: bool)
    ensures
        r == language_ok(s@),
{
    let mut i: usize = 0;
    while i < s.len()
        invariant
            i <= s@.len(),
            forall|j: int| 0 <= j < i ==> ((48 <= #[trigger] s@[j] <= 57) || (65 <= s@[j] <= 90) || (97 <= s@[j] <= 122) || s@[j] == 45),
        decreases s@.len() - i,
    {
        let b = s[i];
        if !((48 <= b && b <= 57) || (65 <= b && b <= 90) || (97 <= b && b <= 122) || b == 45) {
            return false;
        }
        i = i + 1;
    }
    true
}

/// What the structure of a text chunk decides before its value is read:
/// the named field, or why the chunk is refused.
pub open spec fn text_check(kind: u32, data: Seq<u8>) -> Result<Option<MetadataField>, Seq<char>> {
    match find_byte(data, 0, 0) {
        None => Err("missing text separator"@),
        Some(k) => {
            let key = data.take(k);
            let rest = data.skip(k + 1);
            if !keyword_ok(key) {
                Err("invalid text keyword"@)
            } else if kind == ZTXT && (rest.len() == 0 || rest[0] != 0) {
                Err("unsupported text compression method"@)
            } else if kind == ITXT && (rest.len() < 2 || rest[0] > 1 || rest[1] != 0) {
                Err("invalid international text compression"@)
            } else if kind == ITXT && find_byte(rest, 2, 0) is None {
                Err("missing text separator"@)
            } else if kind == ITXT && !language_ok(rest.subrange(2, find_byte(rest, 2, 0)->0)) {
                Err("invalid text language tag"@)
            } else if kind == ITXT && find_byte(rest, find_byte(rest, 2, 0)->0 + 1, 0) is None {
                Err("missing text separator"@)
            } else {
                Ok(field_of_keyword(key))
            }
        }
    }
}

/// The value of a text chunk whose structure `text_check` accepts: Latin-1
/// text, inflated Latin-1 text, or UTF-8 international text, plain or
/// inflated, after a UTF-8 translated keyword; none may hold NUL.
pub open spec fn chunk_value(kind: u32, data: Seq<u8>) -> Result<Seq<char>, Seq<char>> {
    let k = find_byte(data, 0, 0)->0;
    let rest = data.skip(k + 1);
    let decoded: Result<Seq<char>, Seq<char>> = if kind == TEXT {
        Ok(latin1(rest))
    } else if kind == ZTXT {
        match inflated(rest.skip(1)) {
            Err(t) => Err(t),
            Ok(b) => Ok(latin1(b)),
        }
    } else {
        let a = find_byte(rest, 2, 0)->0;
        let b = find_byte(rest, a + 1, 0)->0;
        let value = rest.skip(b + 1);
        if !valid_utf8(rest.subrange(a + 1, b)) {
            Err("invalid UTF-8 text"@)
        } else if rest[0] == 1 {
            match inflated(value) {
                Err(t) => Err(t),
                Ok(v) => if valid_utf8(v) { Ok(decode_utf8(v)) } else { Err("invalid UTF-8 text"@) },
            }
        } else if valid_utf8(value) {
            Ok(decode_utf8(value))
        } else {
            Err("invalid UTF-8 text"@)
        }
    };
    match decoded {
        Err(t) => Err(t),
        Ok(t) => if no_nul(t) { Ok(t) } else { Err("text contains NUL"@) },
    }
}

/// Whether `text` is the decoded value of the chunk.
pub open spec fn value_ok(kind: u32, data: Seq<u8>, text: Seq<char>) -> bool {
    chunk_value(kind, data) == Ok::<Seq<char>, Seq<char>>(text)
}

/// What one inflation of a zlib stream gives: `None` when the inflater
/// refuses the stream, else whether the stream ended, how many input bytes
/// it consumed, and the bytes it produced, with at most `room` bytes of
/// output.
pub uninterp spec fn zlib_inflated(data: Seq<u8>, room: usize) -> Option<(bool, u64, Seq<u8>)>;

/// Trusted: a fresh `flate2::Decompress::new(true)` given all of `data` in
/// one `decompress` call with `FlushDecompress::Finish` and an output
/// buffer of `room` bytes; the result is the named value: `None` on an
/// error, else whether the status is `StreamEnd`, `total_in`, and the
/// first `total_out` bytes of the buffer.
#[verifier::external_body]
fn zlib_inflate(data: &[u8], room: usize) -> (r: Option<(bool, u64, Vec<u8>)>)
    ensures
        match r {
            None => zlib_inflated(data@, room) is None,
            Some((ended, used, out)) => zlib_inflated(data@, room) == Some((ended, used, out@)) && out@.len() <= room,
        },
{
    let mut inflater = flate2::Decompress::new(true);
    let mut out = vec![0u8; room];
    let status = inflater.decompress(data, &mut out, flate2::FlushDecompress::Finish);
    out.truncate(inflater.total_out() as usize);
    match status {
        Ok(flate2::Status::StreamEnd) => Some((true, inflater.total_in(), out)),
        Ok(_) => Some((false, inflater.total_in(), out)),
        Err(_) => None,
    }
}

/// The text that a compressed value inflates to: a zlib stream that ends
/// exactly at the end of the value and expands to at most 1 MiB.
pub open spec fn inflated(data: Seq<u8>) -> Result<Seq<u8>, Seq<char>> {
    match zlib_inflated(data, (TEXT_LIMIT + 1) as usize) {
        None => Err("invalid compressed text"@),
        Some((ended, used, out)) => if out.len() > TEXT_LIMIT {
            Err("expanded text exceeds 1 MiB"@)
        } else if !ended {
            Err("incomplete compressed text"@)
        } else if used != data.len() {
            Err("trailing compressed text bytes"@)
        } else {
            Ok(out)
        },
    }
}

/// Inflates a zlib stream of text, refusing more than 1 MiB of output,
/// bytes after the end of the stream, and a stream that does not end.
pub fn inflate(data: &[u8], cancelled: &AtomicBool) -> (r: Result<Vec<u8>, ExportError>)
    ensures
        r matches Ok(v) ==> inflated(data@) == Ok::<Seq<u8>, Seq<char>>(v@),
        r matches Err(e) ==> e is Cancelled || (e matches ExportError::Failed(m)
            && inflated(data@) matches Err(t) && m@ == "PNG metadata: "@ + t),
{
    match check_cancelled(cancelled) {
        Ok(()) => {},
        Err(e) => return Err(e),
    }
    match zlib_inflate(data, TEXT_LIMIT + 1) {
        None => Err(invalid("invalid compressed text")),
        Some((ended, used, out)) => {
            if out.len() > TEXT_LIMIT {
                Err(invalid("expanded text exceeds 1 MiB"))
            } else if !ended {
                Err(invalid("incomplete compressed text"))
            } else if used != data.len() as u64 {
                Err(invalid("trailing compressed text bytes"))
            } else {
                Ok(out)
            }
        },
    }
}

fn utf8_text(bytes: &[u8]) -> (r: Result<String, ExportError>)
    ensures
        r matches Ok(t) ==> valid_utf8(bytes@) && t@ == decode_utf8(bytes@),
        r matches Err(e) ==> !valid_utf8(bytes@) && (e matches ExportError::Failed(m) && m@ == "PNG metadata: "@ + "invalid UTF-8 text"@),
{
    let mut v: Vec<u8> = Vec::new();
    extend(&mut v, bytes);
    match string_from_utf8(v) {
        Some(t) => Ok(t),
        None => Err(invalid("invalid UTF-8 text")),
    }
}

/// Reads a text chunk: the field its keyword names and its value.
pub fn parse_text(kind: u32, data: &[u8], cancelled: &AtomicBool) -> (r: Result<(Option<MetadataField>, String), ExportError>)
    requires
        is_text_kind(kind),
    ensures
        r matches Ok((f, t)) ==> text_check(kind, data@) == Ok::<Option<MetadataField>, Seq<char>>(f) && value_ok(kind, data@, t@),
        r matches Err(e) ==> e is Cancelled || (e matches ExportError::Failed(m) && (
            (text_check(kind, data@) matches Err(t) && m@ == "PNG metadata: "@ + t)
            || (text_check(kind, data@) is Ok && (chunk_value(kind, data@) matches Err(t) && m@ == "PNG metadata: "@ + t)))),
        r matches Err(ExportError::Cancelled) ==> kind != TEXT && text_check(kind, data@) is Ok,
{
    proof { lemma_find_byte(data@, 0, 0); }
    assert(data@.len() == data.len());
    let k = match position_of(data, 0, 0) {
        Some(k) => k,
        None => return Err(invalid("missing text separator")),
    };
    let key = &data[0..k];
    assert(key@ == data@.take(k as int));
    let rest = &data[k + 1..data.len()];
    assert(rest@ == data@.skip(k as int + 1));
    if !keyword_valid(key) {
        return Err(invalid("invalid text keyword"));
    }
    let field = find_field(key);
    let text = if kind == TEXT {
        latin1_text(rest)
    } else if kind == ZTXT {
        if rest.len() == 0 || rest[0] != 0 {
            return Err(invalid("unsupported text compression method"));
        }
        let inflated = match inflate(&rest[1..rest.len()], cancelled) {
            Ok(v) => v,
            Err(e) => return Err(e),
        };
        let t = latin1_text(inflated.as_slice());
        assert(inflated@.len() <= TEXT_LIMIT && t@ == latin1(inflated@));
        t
    } else {
        if rest.len() < 2 || rest[0] > 1 || rest[1] != 0 {
            return Err(invalid("invalid international text compression"));
        }
        let compressed = rest[0] == 1;
        proof { lemma_find_byte(rest@, 2, 0); }
        let a = match position_of(rest, 2, 0) {
            Some(a) => a,
            None => return Err(invalid("missing text separator")),
        };
        if !language_valid(&rest[2..a]) {
            return Err(invalid("invalid text language tag"));
        }
        proof { lemma_find_byte(rest@, a as int + 1, 0); }
        let b = match position_of(rest, a + 1, 0) {
            Some(b) => b,
            None => return Err(invalid("missing text separator")),
        };
        let translated = &rest[a + 1..b];
        assert(translated@ == rest@.subrange(a as int + 1, b as int));
        assert(text_check(kind, data@) is Ok);
        match utf8_text(translated) {
            Ok(_) => {},
            Err(e) => {
                assert(chunk_value(kind, data@) == Err::<Seq<char>, Seq<char>>("invalid UTF-8 text"@));
                return Err(e);
            },
        }
        let value = &rest[b + 1..rest.len()];
        assert(value@ == rest@.skip(b as int + 1));
        if compressed {
            let inflated = match inflate(value, cancelled) {
                Ok(v) => v,
                Err(e) => return Err(e),
            };
            match utf8_text(inflated.as_slice()) {
                Ok(t) => {
                    assert(inflated@.len() <= TEXT_LIMIT && valid_utf8(inflated@) && t@ == decode_utf8(inflated@));
                    t
                },
                Err(e) => return Err(e),
            }
        } else {
            match utf8_text(value) {
                Ok(t) => t,
                Err(e) => {
                    assert(chunk_value(kind, data@) == Err::<Seq<char>, Seq<char>>("invalid UTF-8 text"@));
                    return Err(e);
                },
            }
        }
    };
    if contains_nul(text.as_str()) {
        return Err(invalid("text contains NUL"));
    }
    Ok((field, text))
}

/// The PNG chunk code of `IHDR`.
pub const IHDR: u32 = 0x49484452;
/// The PNG chunk code of `IDAT`.
pub const IDAT: u32 = 0x49444154;
/// The PNG chunk code of `IEND`.
pub const IEND: u32 = 0x49454e44;
/// The APNG chunk code of `acTL`.
pub const ACTL: u32 = 0x6163544c;
/// The APNG chunk code of `fcTL`.
pub const FCTL: u32 = 0x6663544c;
/// The APNG chunk code of `fdAT`.
pub const FDAT: u32 = 0x66644154;
/// Most frames of an animation.
pub const FRAME_LIMIT: usize = 65536;

/// APNG controls: plays, one delay per frame (numerator and denominator as
/// one big-endian word), and whether the default image is the first frame.
#[derive(Clone, Debug)]
pub struct Animation {
    pub plays: u32,
    pub delays: Vec<u32>,
    pub includes_default: bool,
}

pub struct AnimView {
    pub plays: u32,
    pub delays: Seq<u32>,
    pub includes_default: bool,
}

impl View for Animation {
    type V = AnimView;

    open spec fn view(&self) -> AnimView {
        AnimView { plays: self.plays, delays: self.delays@, includes_default: self.includes_default }
    }
}

pub open spec fn anim_view(a: Option<Animation>) -> Option<AnimView> {
    match a {
        Some(x) => Some(x@),
        None => None,
    }
}

/// What the animation scan has seen so far.
pub struct ScanView {
    pub animation: Option<AnimView>,
    pub expected: int,
    pub sequence: int,
    pub canvas: (int, int),
    pub image_seen: bool,
    pub image_closed: bool,
    pub frame_data: bool,
}

pub open spec fn scan_start() -> ScanView {
    ScanView { animation: None, expected: 0, sequence: 0, canvas: (0, 0), image_seen: false, image_closed: false, frame_data: false }
}

/// Bytes of a chunk's data that the animation scan reads.
pub open spec fn prefix_len(kind: u32, length: int) -> Result<int, Seq<char>> {
    if kind == IHDR || kind == ACTL || kind == FCTL {
        let count = if kind == IHDR { 13int } else if kind == ACTL { 8int } else { 26int };
        if length != count { Err("invalid APNG control length"@) } else { Ok(count) }
    } else if kind == FDAT {
        if length >= 4 { Ok(4) } else { Err("short APNG frame data"@) }
    } else {
        Ok(0)
    }
}

/// The animation scan after one chunk with data prefix `d`.
pub open spec fn observe_spec(s0: ScanView, kind: u32, d: Seq<u8>, length: int) -> Result<ScanView, Seq<char>> {
    let s = if kind != IDAT && s0.image_seen { ScanView { image_closed: true, ..s0 } } else { s0 };
    if kind == IHDR {
        Ok(ScanView { canvas: (be32(d, 0), be32(d, 4)), ..s })
    } else if kind == ACTL {
        let expected = be32(d, 0);
        if s.animation is Some || s.image_seen || be32(d, 4) > 0x7fffffff || !(1 <= expected <= FRAME_LIMIT) {
            Err("APNG requires one pre-image control and 1..=65536 frames"@)
        } else {
            Ok(ScanView {
                expected,
                animation: Some(AnimView { plays: be32(d, 4) as u32, delays: Seq::empty(), includes_default: false }),
                ..s
            })
        }
    } else if kind == FCTL || kind == FDAT {
        match s.animation {
            None => Err("APNG frame without animation control"@),
            Some(a) => {
                if be32(d, 0) != s.sequence || s.sequence > 0x7fffffff {
                    Err("invalid APNG sequence number"@)
                } else if kind == FCTL {
                    let first = a.delays.len() == 0;
                    let (width, height, x, y) = (be32(d, 4), be32(d, 8), be32(d, 12), be32(d, 16));
                    if (!first && !s.frame_data) || a.delays.len() >= s.expected || width == 0 || height == 0
                        || x + width > s.canvas.0 || y + height > s.canvas.1 || d[24] > 2 || d[25] > 1
                        || (!s.image_seen && (!first || x != 0 || y != 0 || width != s.canvas.0 || height != s.canvas.1)) {
                        Err("invalid APNG frame bounds, data or controls"@)
                    } else {
                        let includes_default = if first { !s.image_seen } else { a.includes_default };
                        Ok(ScanView {
                            sequence: s.sequence + 1,
                            animation: Some(AnimView { plays: a.plays, delays: a.delays.push(be32(d, 20) as u32), includes_default }),
                            frame_data: false,
                            ..s
                        })
                    }
                } else {
                    if !s.image_seen || a.delays.len() == 0 || (a.includes_default && a.delays.len() == 1) {
                        Err("misplaced APNG frame data"@)
                    } else {
                        Ok(ScanView { sequence: s.sequence + 1, frame_data: s.frame_data || length > 4, ..s })
                    }
                }
            },
        }
    } else if kind == IDAT {
        if s.image_closed {
            Err("nonconsecutive PNG image data"@)
        } else {
            let counts = s.animation matches Some(a) && a.includes_default;
            Ok(ScanView { image_seen: true, frame_data: s.frame_data || (counts && length > 0), ..s })
        }
    } else {
        Ok(s)
    }
}

/// The animation a completed scan found, or why its frames are incomplete.
pub open spec fn finish_spec(s: ScanView) -> Result<Option<AnimView>, Seq<char>> {
    match s.animation {
        Some(a) => if a.delays.len() != s.expected || !s.frame_data {
            Err("APNG frame count or final frame data mismatch"@)
        } else {
            Ok(Some(a))
        },
        None => Ok(None),
    }
}

/// The animation scan over a PNG stream's chunks.
pub struct Scan {
    animation: Option<Animation>,
    expected: usize,
    sequence: u64,
    canvas: (u32, u32),
    image_seen: bool,
    image_closed: bool,
    frame_data: bool,
}

impl View for Scan {
    type V = ScanView;

    closed spec fn view(&self) -> ScanView {
        ScanView {
            animation: anim_view(self.animation),
            expected: self.expected as int,
            sequence: self.sequence as int,
            canvas: (self.canvas.0 as int, self.canvas.1 as int),
            image_seen: self.image_seen,
            image_closed: self.image_closed,
            frame_data: self.frame_data,
        }
    }
}

impl Scan {
    /// Bounds that every scan state keeps.
    pub closed spec fn wf(&self) -> bool {
        &&& self.sequence <= 0x80000000
        &&& self.expected <= FRAME_LIMIT
        &&& (self.animation matches Some(a) ==> a.delays@.len() <= self.expected)
    }

    pub fn new() -> (r: Scan)
        ensures
            r@ == scan_start(),
            r.wf(),
    {
        Scan { animation: None, expected: 0, sequence: 0, canvas: (0, 0), image_seen: false, image_closed: false, frame_data: false }
    }

    /// How many data bytes of a chunk the scan reads.
    pub fn prefix_length(kind: u32, length: usize) -> (r: Result<usize, ExportError>)
        ensures
            r matches Ok(n) ==> prefix_len(kind, length as int) == Ok::<int, Seq<char>>(n as int),
            r matches Err(e) ==> prefix_len(kind, length as int) matches Err(t) && e matches ExportError::Failed(m) && m@ == "PNG metadata: "@ + t,
    {
        if kind == IHDR || kind == ACTL || kind == FCTL {
            let count: usize = if kind == IHDR { 13 } else if kind == ACTL { 8 } else { 26 };
            if length != count {
                return Err(invalid("invalid APNG control length"));
            }
            Ok(count)
        } else if kind == FDAT {
            if length >= 4 { Ok(4) } else { Err(invalid("short APNG frame data")) }
        } else {
            Ok(0)
        }
    }

    /// Takes in one chunk: its kind, the data prefix from `prefix_length`,
    /// and its length.
    pub fn observe(&mut self, kind: u32, data: &[u8], length: usize) -> (r: Result<(), ExportError>)
        requires
            old(self).wf(),
            prefix_len(kind, length as int) == Ok::<int, Seq<char>>(data@.len() as int),
        ensures
            final(self).wf(),
            r is Ok <==> observe_spec(old(self)@, kind, data@, length as int) is Ok,
            r is Ok ==> observe_spec(old(self)@, kind, data@, length as int) == Ok::<ScanView, Seq<char>>(final(self)@),
            r matches Err(e) ==> observe_spec(old(self)@, kind, data@, length as int) matches Err(t)
                && e matches ExportError::Failed(m) && m@ == "PNG metadata: "@ + t,
    {
        if kind != IDAT && self.image_seen {
            self.image_closed = true;
        }
        if kind == IHDR {
            self.canvas = (read_u32(data, 0), read_u32(data, 4));
        } else if kind == ACTL {
            let expected = read_u32(data, 0);
            let plays = read_u32(data, 4);
            if self.animation.is_some() || self.image_seen || plays > 0x7fffffff || !(1 <= expected && expected as usize <= FRAME_LIMIT) {
                return Err(invalid("APNG requires one pre-image control and 1..=65536 frames"));
            }
            self.expected = expected as usize;
            self.animation = Some(Animation { plays, delays: Vec::new(), includes_default: false });
        } else if kind == FCTL || kind == FDAT {
            let mut animation = match self.animation.take() {
                Some(a) => a,
                None => return Err(invalid("APNG frame without animation control")),
            };
            let number = read_u32(data, 0);
            if number as u64 != self.sequence || self.sequence > 0x7fffffff {
                return Err(invalid("invalid APNG sequence number"));
            }
            if kind == FCTL {
                let first = animation.delays.len() == 0;
                let width = read_u32(data, 4);
                let height = read_u32(data, 8);
                let x = read_u32(data, 12);
                let y = read_u32(data, 16);
                if (!first && !self.frame_data) || animation.delays.len() >= self.expected || width == 0 || height == 0
                    || x as u64 + width as u64 > self.canvas.0 as u64 || y as u64 + height as u64 > self.canvas.1 as u64
                    || data[24] > 2 || data[25] > 1
                    || (!self.image_seen && (!first || x != 0 || y != 0 || width != self.canvas.0 || height != self.canvas.1)) {
                    return Err(invalid("invalid APNG frame bounds, data or controls"));
                }
                if first {
                    animation.includes_default = !self.image_seen;
                }
                animation.delays.push(read_u32(data, 20));
                self.frame_data = false;
            } else {
                if !self.image_seen || animation.delays.len() == 0 || (animation.includes_default && animation.delays.len() == 1) {
                    return Err(invalid("misplaced APNG frame data"));
                }
                self.frame_data = self.frame_data || length > 4;
            }
            self.sequence = self.sequence + 1;
            self.animation = Some(animation);
        } else if kind == IDAT {
            if self.image_closed {
                return Err(invalid("nonconsecutive PNG image data"));
            }
            self.image_seen = true;
            let counts = match &self.animation {
                Some(a) => a.includes_default,
                None => false,
            };
            self.frame_data = self.frame_data || (counts && length > 0);
        }
        Ok(())
    }

    /// The animation found, once the stream has ended.
    pub fn finish(self) -> (r: Result<Option<Animation>, ExportError>)
        ensures
            r matches Ok(a) ==> finish_spec(self@) == Ok::<Option<AnimView>, Seq<char>>(anim_view(a)),
            r matches Err(e) ==> finish_spec(self@) matches Err(t) && e matches ExportError::Failed(m) && m@ == "PNG metadata: "@ + t,
            r is Ok <==> finish_spec(self@) is Ok,
    {
        let complete = match &self.animation {
            Some(a) => a.delays.len() == self.expected && self.frame_data,
            None => true,
        };
        if !complete {
            return Err(invalid("APNG frame count or final frame data mismatch"));
        }
        Ok(self.animation)
    }
}

/// The CRC register after `k` more bit steps of the reflected IEEE
/// polynomial.
pub open spec fn crc_shift(c: u32, k: nat) -> u32
    decreases k,
{
    if k == 0 {
        c
    } else {
        crc_shift(if c & 1 == 1 { (c >> 1u32) ^ 0xEDB88320u32 } else { c >> 1u32 }, (k - 1) as nat)
    }
}

/// The CRC register after every byte of `data`, starting from all ones.
pub open spec fn crc_register(data: Seq<u8>) -> u32
    decreases data.len(),
{
    if data.len() == 0 {
        0xFFFFFFFFu32
    } else {
        crc_shift(crc_register(data.drop_last()) ^ (data.last() as u32), 8)
    }
}

/// CRC-32 (IEEE, ISO-HDLC, as PNG uses it) of a byte string: the final
/// register inverted.
#[verifier::opaque]
pub open spec fn crc32_of(data: Seq<u8>) -> u32 {
    crc_register(data) ^ 0xFFFFFFFFu32
}

/// Trusted: `crc32fast::hash` returns the CRC-32 (IEEE) of its argument.
#[verifier::external_body]
fn crc32(data: &[u8]) -> (r: u32)
    ensures
        r == crc32_of(data@),
{
    crc32fast::hash(data)
}

/// The encoded chunk: length, kind, data, and CRC of kind and data.
pub open spec fn chunk_bytes(kind: u32, data: Seq<u8>) -> Seq<u8> {
    be32_bytes((data.len() % 4294967296) as int) + be32_bytes(kind as int) + data
        + be32_bytes(crc32_of(be32_bytes(kind as int) + data) as int)
}

/// Appends an encoded chunk to `out`.
pub fn write_chunk(out: &mut Vec<u8>, kind: u32, data: &[u8])
    ensures
        final(out)@ == old(out)@ + chunk_bytes(kind, data@),
{
    let ghost start = out@;
    let length = (data.len() as u64 % 4294967296) as u32;
    let length_bytes = u32_bytes(length);
    let kind_bytes = u32_bytes(kind);
    let mut covered = kind_bytes.clone();
    assert(covered@ == kind_bytes@);
    extend(&mut covered, data);
    let checksum = crc32(covered.as_slice());
    let checksum_bytes = u32_bytes(checksum);
    extend(out, length_bytes.as_slice());
    extend(out, kind_bytes.as_slice());
    extend(out, data);
    extend(out, checksum_bytes.as_slice());
    assert(out@ =~= start + chunk_bytes(kind, data@));
}

/// A text chunk as the scan sees it: kind, data and the field it names.
pub struct TextView {
    pub kind: u32,
    pub data: Seq<u8>,
    pub field: MetadataField,
}

/// A PNG text chunk that names a metadata field, with its decoded value.
#[derive(Clone, Debug)]
pub struct TextChunk {
    pub kind: u32,
    pub data: Vec<u8>,
    pub field: MetadataField,
    pub text: String,
}

impl View for TextChunk {
    type V = TextView;

    open spec fn view(&self) -> TextView {
        TextView { kind: self.kind, data: self.data@, field: self.field }
    }
}

pub open spec fn texts_view(v: Seq<TextChunk>) -> Seq<TextView> {
    Seq::new(v.len(), |i: int| v[i]@)
}

/// The encodings of chunks, one after another.
pub open spec fn chunks_bytes(cs: Seq<TextView>) -> Seq<u8>
    decreases cs.len(),
{
    if cs.len() == 0 {
        Seq::empty()
    } else {
        chunks_bytes(cs.drop_last()) + chunk_bytes(cs.last().kind, cs.last().data)
    }
}

/// The eight signature bytes that open a PNG stream.
pub open spec fn signature() -> Seq<u8> {
    seq![137u8, 80, 78, 71, 13, 10, 26, 10]
}

/// How a PNG scan ends.
pub enum PngScanned {
    /// Recognized text chunks, the animation, and the rewritten bytes.
    Done(Seq<TextView>, Option<AnimView>, Seq<u8>),
    Truncated,
    Invalid(Seq<char>),
}

/// The scanner's position and what it has seen.
pub struct PState {
    pub pos: int,
    pub first: bool,
    pub image_seen: bool,
    pub text_count: int,
    pub stored: int,
    pub expanded: int,
    pub texts: Seq<TextView>,
    pub anim: ScanView,
    pub out: Seq<u8>,
}

/// The total of decoded text after a chunk: unchanged for other chunks;
/// for a text chunk its value must decode and keep the total within 1 MiB.
pub open spec fn text_progress(kind: u32, data: Seq<u8>, is_text: bool, expanded: int) -> Result<int, Seq<char>> {
    if !is_text {
        Ok(expanded)
    } else {
        match chunk_value(kind, data) {
            Err(t) => Err(t),
            Ok(v) => if encode_utf8(v).len() > TEXT_LIMIT - expanded {
                Err("expanded text exceeds 1 MiB total"@)
            } else {
                Ok(expanded + encode_utf8(v).len())
            },
        }
    }
}

pub enum PStep {
    Next(PState),
    Stop(PngScanned),
}

pub open spec fn is_ascii_alpha(b: u8) -> bool {
    (65 <= b <= 90) || (97 <= b <= 122)
}

/// Whether a chunk header is refused: an oversized length, a kind that is
/// not four letters with an uppercase third letter, or an image boundary
/// out of place.
pub open spec fn header_refused(input: Seq<u8>, p: int, first: bool, image_seen: bool) -> bool {
    let length = be32(input, p);
    let kind = be32(input, p + 4);
    ||| length > 0x7fffffff
    ||| !(is_ascii_alpha(input[p + 4]) && is_ascii_alpha(input[p + 5]) && is_ascii_alpha(input[p + 6]) && is_ascii_alpha(input[p + 7]))
    ||| !(65 <= input[p + 6] <= 90)
    ||| (first && (kind != IHDR || length != 13))
    ||| (!first && kind == IHDR)
    ||| (kind == IEND && (length != 0 || !image_seen))
}

/// One chunk of the scan from `st`.
pub open spec fn png_step(input: Seq<u8>, write: bool, repl: Seq<TextView>, expected: Option<AnimView>, st: PState) -> PStep {
    let len = input.len() as int;
    let p = st.pos;
    if p + 8 > len {
        PStep::Stop(PngScanned::Truncated)
    } else if header_refused(input, p, st.first, st.image_seen) {
        PStep::Stop(PngScanned::Invalid("invalid chunk header or image boundaries"@))
    } else {
        let length = be32(input, p);
        let kind = be32(input, p + 4) as u32;
        let image_seen = st.image_seen || kind == IDAT;
        let is_text = is_text_kind(kind);
        match prefix_len(kind, length) {
            Err(t) => PStep::Stop(PngScanned::Invalid(t)),
            Ok(prefix) => {
                let text_count = if is_text { st.text_count + 1 } else { st.text_count };
                let stored = if is_text { st.stored + length } else { st.stored };
                if is_text && (text_count > TEXT_COUNT_LIMIT || stored > TEXT_LIMIT) {
                    PStep::Stop(PngScanned::Invalid("stored text exceeds 128 chunks / 1 MiB"@))
                } else if p + 12 + length > len {
                    PStep::Stop(PngScanned::Truncated)
                } else {
                    let data = input.subrange(p + 8, p + 8 + length);
                    let out1 = if !write { st.out } else {
                        (if kind == IEND { st.out + chunks_bytes(repl) } else { st.out })
                            + (if !is_text { input.subrange(p, p + 8) } else { Seq::empty() })
                    };
                    if crc32_of(be32_bytes(kind as int) + data) as int != be32(input, p + 8 + length) {
                        PStep::Stop(PngScanned::Invalid("chunk CRC mismatch"@))
                    } else {
                        match observe_spec(st.anim, kind, data.take(prefix), length) {
                            Err(t) => PStep::Stop(PngScanned::Invalid(t)),
                            Ok(anim) => {
                                let checked = if is_text { text_check(kind, data) } else { Ok(None) };
                                match checked {
                                    Err(t) => PStep::Stop(PngScanned::Invalid(t)),
                                    Ok(field) => {
                                        match text_progress(kind, data, is_text, st.expanded) {
                                        Err(t) => PStep::Stop(PngScanned::Invalid(t)),
                                        Ok(expanded) => {
                                                let texts = if is_text && field is Some {
                                                st.texts.push(TextView { kind, data, field: field->0 })
                                            } else {
                                                st.texts
                                            };
                                            let out2 = if !write { out1 } else if is_text {
                                                if field is None { out1 + chunk_bytes(kind, data) } else { out1 }
                                            } else {
                                                out1 + input.subrange(p + 8, p + 12 + length)
                                            };
                                            let end = p + 12 + length;
                                            if kind == IEND {
                                                if end < len {
                                                    PStep::Stop(PngScanned::Invalid("trailing bytes after IEND"@))
                                                } else {
                                                    match finish_spec(anim) {
                                                        Err(t) => PStep::Stop(PngScanned::Invalid(t)),
                                                        Ok(a) => if expected is Some && a != expected {
                                                            PStep::Stop(PngScanned::Invalid("staged animation differs from source controls"@))
                                                        } else {
                                                            PStep::Stop(PngScanned::Done(texts, a, out2))
                                                        },
                                                    }
                                                }
                                            } else {
                                                PStep::Next(PState {
                                                    pos: end, first: false, image_seen, text_count, stored, expanded, texts, anim, out: out2,
                                                })
                                            }
                                        },
                                        }
                                    },
                                }
                            },
                        }
                    }
                }
            },
        }
    }
}

/// The scan from `st` to its end.
pub open spec fn png_run(input: Seq<u8>, write: bool, repl: Seq<TextView>, expected: Option<AnimView>, st: PState) -> PngScanned
    decreases input.len() - st.pos,
{
    match png_step(input, write, repl, expected, st) {
        PStep::Next(n) => if st.pos < n.pos <= input.len() { png_run(input, write, repl, expected, n) } else { PngScanned::Truncated },
        PStep::Stop(s) => s,
    }
}

/// The whole scan: the signature, then chunks from `IHDR` to `IEND`.
pub open spec fn png_scan(input: Seq<u8>, write: bool, repl: Seq<TextView>, expected: Option<AnimView>) -> PngScanned {
    if input.len() < 8 {
        PngScanned::Truncated
    } else if input.take(8) != signature() {
        PngScanned::Invalid("input is not PNG"@)
    } else {
        png_run(input, write, repl, expected, PState {
            pos: 8, first: true, image_seen: false, text_count: 0, stored: 0, expanded: 0,
            texts: Seq::empty(), anim: scan_start(),
            out: if write { signature() } else { Seq::empty() },
        })
    }
}

/// What a completed scan returns.
#[derive(Debug)]
pub struct PngContents {
    pub texts: Vec<TextChunk>,
    pub animation: Option<Animation>,
    pub output: Vec<u8>,
}

/// Whether an exec result reports the scan `s`.
pub open spec fn png_reports(r: Result<PngContents, ExportError>, s: PngScanned) -> bool {
    match r {
        Ok(c) => s == PngScanned::Done(texts_view(c.texts@), anim_view(c.animation), c.output@)
            && forall|i: int| 0 <= i < c.texts@.len() ==> value_ok(#[trigger] c.texts@[i].kind, c.texts@[i].data@, c.texts@[i].text@),
        Err(e) => png_error_reports(e, s),
    }
}

/// Whether an error reports the scan `s`: cancellation, truncated input,
/// or the scan's refusal.
pub open spec fn png_error_reports(e: ExportError, s: PngScanned) -> bool {
    match e {
        ExportError::Cancelled => true,
        ExportError::Output(_) => s is Truncated,
        ExportError::Failed(m) => s matches PngScanned::Invalid(t) && m@ == "PNG metadata: "@ + t,
        _ => false,
    }
}

pub open spec fn expected_view(e: Option<&Animation>) -> Option<AnimView> {
    match e {
        Some(a) => Some(a@),
        None => None,
    }
}

/// Whether a scanned animation equals the expected controls.
fn same_animation(a: &Option<Animation>, e: &Animation) -> (r: bool)
    ensures
        r == (anim_view(*a) == Some(e@)),
{
    match a {
        None => false,
        Some(x) => {
            assert(anim_view(*a) == Some(x@));
            if x.plays != e.plays || x.includes_default != e.includes_default || x.delays.len() != e.delays.len() {
                assert(x@.plays != e@.plays || x@.includes_default != e@.includes_default || x@.delays.len() != e@.delays.len());
                return false;
            }
            let mut i: usize = 0;
            while i < x.delays.len()
                invariant
                    anim_view(*a) == Some(x@),
                    x.plays == e.plays,
                    x.includes_default == e.includes_default,
                    x.delays@.len() == e.delays@.len(),
                    i <= x.delays@.len(),
                    forall|k: int| 0 <= k < i ==> x.delays@[k] == e.delays@[k],
                decreases x.delays@.len() - i,
            {
                if x.delays[i] != e.delays[i] {
                    assert(x@.delays[i as int] != e@.delays[i as int]);
                    return false;
                }
                i = i + 1;
            }
            assert(x@.delays =~= e@.delays);
            assert(x@ == e@);
            true
        },
    }
}

fn write_chunks(out: &mut Vec<u8>, chunks: &[TextChunk])
    ensures
        final(out)@ == old(out)@ + chunks_bytes(texts_view(chunks@)),
{
    let ghost start = out@;
    let mut i: usize = 0;
    while i < chunks.len()
        invariant
            i <= chunks@.len(),
            out@ == start + chunks_bytes(texts_view(chunks@).take(i as int)),
        decreases chunks@.len() - i,
    {
        let ghost before = out@;
        write_chunk(out, chunks[i].kind, chunks[i].data.as_slice());
        i = i + 1;
        proof {
            let t = texts_view(chunks@).take(i as int);
            assert(t.drop_last() =~= texts_view(chunks@).take(i as int - 1));
            assert(out@ =~= start + chunks_bytes(t));
        }
    }
    assert(texts_view(chunks@).take(chunks@.len() as int) =~= texts_view(chunks@));
}

fn png_signature() -> (r: Vec<u8>)
    ensures
        r@ == signature(),
{
    let r = vec![137u8, 80, 78, 71, 13, 10, 26, 10];
    assert(r@ =~= signature());
    r
}

fn alpha(b: u8) -> (r: bool)
    ensures
        r == is_ascii_alpha(b),
{
    (65 <= b && b <= 90) || (97 <= b && b <= 122)
}

/// Streams a PNG: checks every chunk's boundaries and CRC, reads text
/// chunks (within 128 chunks and 1 MiB stored and expanded) and APNG
/// controls, and never decodes image data. With `write`, the output holds
/// the stream without the recognized text chunks and with `replacement`
/// written before `IEND`. With `expected`, the animation found must equal it.
#[verifier::rlimit(80)]
pub fn scan_contents(
    input: &[u8],
    write: bool,
    replacement: &[TextChunk],
    expected: Option<&Animation>,
    cancelled: &AtomicBool,
) -> (r: Result<PngContents, ExportError>)
    ensures
        png_reports(r, png_scan(input@, write, texts_view(replacement@), expected_view(expected))),
{
    let ghost repl = texts_view(replacement@);
    match check_cancelled(cancelled) {
        Ok(()) => {},
        Err(e) => return Err(e),
    }
    if input.len() < 8 {
        return Err(ExportError::Output(crate::jpeg::unexpected_end()));
    }
    let sig = png_signature();
    if !crate::bytes::same_bytes(&input[0..8], sig.as_slice()) {
        assert(input@.subrange(0, 8) =~= input@.take(8));
        return Err(invalid("input is not PNG"));
    }
    assert(input@.subrange(0, 8) =~= input@.take(8));
    let mut out: Vec<u8> = Vec::new();
    if write {
        extend(&mut out, sig.as_slice());
        assert(out@ =~= signature());
    }
    let mut texts: Vec<TextChunk> = Vec::new();
    let mut pos: usize = 8;
    let mut first = true;
    let mut image_seen = false;
    let mut text_count: usize = 0;
    let mut stored: usize = 0;
    let mut expanded: usize = 0;
    let mut animation = Scan::new();
    assert(texts_view(texts@) =~= Seq::<TextView>::empty());
    loop
        invariant
            8 <= pos <= input@.len(),
            text_count <= TEXT_COUNT_LIMIT,
            stored <= TEXT_LIMIT,
            expanded <= TEXT_LIMIT,
            animation.wf(),
            repl == texts_view(replacement@),
            png_scan(input@, write, repl, expected_view(expected)) == png_run(input@, write, repl, expected_view(expected), PState {
                pos: pos as int, first, image_seen, text_count: text_count as int, stored: stored as int,
                expanded: expanded as int, texts: texts_view(texts@), anim: animation@, out: out@,
            }),
            forall|i: int| 0 <= i < texts@.len() ==> value_ok(#[trigger] texts@[i].kind, texts@[i].data@, texts@[i].text@),
        decreases input@.len() - pos,
    {
        match check_cancelled(cancelled) {
            Ok(()) => {},
            Err(e) => return Err(e),
        }
        if input.len() - pos < 8 {
            return Err(ExportError::Output(crate::jpeg::unexpected_end()));
        }
        let length32 = read_u32(input, pos);
        let kind = read_u32(input, pos + 4);
        let k2 = input[pos + 6];
        if length32 > 0x7fffffff
            || !(alpha(input[pos + 4]) && alpha(input[pos + 5]) && alpha(k2) && alpha(input[pos + 7]))
            || !(65 <= k2 && k2 <= 90)
            || (first && (kind != IHDR || length32 != 13))
            || (!first && kind == IHDR)
            || (kind == IEND && (length32 != 0 || !image_seen))
        {
            return Err(invalid("invalid chunk header or image boundaries"));
        }
        let length = length32 as usize;
        let prefix = match Scan::prefix_length(kind, length) {
            Ok(n) => n,
            Err(e) => return Err(e),
        };
        let is_text = kind == TEXT || kind == ZTXT || kind == ITXT;
        let new_count = if is_text { text_count + 1 } else { text_count };
        let new_stored = if is_text { stored + length } else { stored };
        if is_text && (new_count > TEXT_COUNT_LIMIT || new_stored > TEXT_LIMIT) {
            return Err(invalid("stored text exceeds 128 chunks / 1 MiB"));
        }
        if input.len() - pos - 8 < length + 4 {
            return Err(ExportError::Output(crate::jpeg::unexpected_end()));
        }
        let ghost before = out@;
        if write {
            if kind == IEND {
                write_chunks(&mut out, replacement);
            }
            if !is_text {
                extend(&mut out, &input[pos..pos + 8]);
            }
        }
        let data = &input[pos + 8..pos + 8 + length];
        let mut covered = u32_bytes(kind);
        extend(&mut covered, data);
        let stored_crc = read_u32(input, pos + 8 + length);
        if crc32(covered.as_slice()) != stored_crc {
            return Err(invalid("chunk CRC mismatch"));
        }
        assert(data@.take(prefix as int) == data@.subrange(0, prefix as int));
        match animation.observe(kind, &data[0..prefix], length) {
            Ok(()) => {},
            Err(e) => return Err(e),
        }
        if is_text {
            let (field, text) = match parse_text(kind, data, cancelled) {
                Ok(v) => v,
                Err(e) => return Err(e),
            };
            let size = text.as_str().as_bytes().len();
            if size > TEXT_LIMIT - expanded {
                return Err(invalid("expanded text exceeds 1 MiB total"));
            }
            expanded = expanded + size;
            match field {
                Some(f) => {
                    let mut copy: Vec<u8> = Vec::new();
                    extend(&mut copy, data);
                    let ghost old_texts = texts@;
                    texts.push(TextChunk { kind, data: copy, field: f, text });
                    assert(texts_view(texts@) =~= texts_view(old_texts).push(TextView { kind, data: data@, field: f }));
                },
                None => {
                    if write {
                        write_chunk(&mut out, kind, data);
                    }
                },
            }
        } else if write {
            extend(&mut out, &input[pos + 8..pos + 12 + length]);
        }
        image_seen = image_seen || kind == IDAT;
        first = false;
        text_count = new_count;
        stored = new_stored;
        let end = pos + 12 + length;
        if kind == IEND {
            if end < input.len() {
                return Err(invalid("trailing bytes after IEND"));
            }
            let found = match animation.finish() {
                Ok(a) => a,
                Err(e) => return Err(e),
            };
            match expected {
                Some(e) => {
                    if !same_animation(&found, e) {
                        return Err(invalid("staged animation differs from source controls"));
                    }
                },
                None => {},
            }
            return Ok(PngContents { texts, animation: found, output: out });
        }
        pos = end;
    }
}

/// How joining encoded frames ends.
pub enum Assembled {
    Done(Seq<u8>),
    Truncated,
    Invalid(Seq<char>),
}

/// Position in the joined frames: before a frame's signature, or inside it.
pub struct AState {
    pub pos: int,
    pub at_start: bool,
    pub index: int,
    pub first: bool,
    pub image_seen: bool,
    pub sequence: int,
    pub canvas: Seq<u8>,
    pub out: Seq<u8>,
}

pub enum AStep {
    Next(AState),
    Stop(Assembled),
}

/// The frame control of one frame: sequence, canvas size, zero offset,
/// delay, and no disposal or blending.
pub open spec fn frame_control(sequence: int, canvas: Seq<u8>, delay: u32) -> Seq<u8> {
    be32_bytes(sequence) + canvas.take(8) + seq![0u8, 0, 0, 0, 0, 0, 0, 0] + be32_bytes(delay as int) + seq![0u8, 0]
}

/// The animation control: the frame count and the number of plays.
pub open spec fn animation_control(frames: int, plays: u32) -> Seq<u8> {
    be32_bytes(frames % 4294967296) + be32_bytes(plays as int)
}

/// The image header that every encoded frame must share: 8-bit RGBA,
/// default compression and filter, no interlace.
pub open spec fn rgba8_header(data: Seq<u8>) -> bool {
    data[8] == 8 && data[9] == 6 && data[10] == 0 && data[11] == 0 && data[12] == 0
}

/// One step of joining frames.
pub open spec fn assemble_step(input: Seq<u8>, plays: u32, delays: Seq<u32>, st: AState) -> AStep {
    if st.at_start { frame_start(input, delays, st) } else { frame_chunk(input, plays, delays, st) }
}

/// Before a frame: its signature, or the end after the last frame.
pub open spec fn frame_start(input: Seq<u8>, delays: Seq<u32>, st: AState) -> AStep {
    let len = input.len() as int;
    let p = st.pos;
    {
        if st.index >= delays.len() {
            if p < len {
                AStep::Stop(Assembled::Invalid("extra encoded animation frames"@))
            } else {
                AStep::Stop(Assembled::Done(st.out + chunk_bytes(IEND, Seq::empty())))
            }
        } else if p + 8 > len {
            AStep::Stop(Assembled::Truncated)
        } else if input.subrange(p, p + 8) != signature() {
            AStep::Stop(Assembled::Invalid("missing encoded PNG frame"@))
        } else {
            AStep::Next(AState { pos: p + 8, at_start: false, first: true, image_seen: false, ..st })
        }
    }
}

/// Whether a frame's chunk header is refused.
pub open spec fn frame_header_refused(length: int, kind: u32, first: bool, image_seen: bool) -> bool {
    length > 0x7fffffff - 4 || (first && (kind != IHDR || length != 13)) || (!first && kind == IHDR)
        || kind == ACTL || kind == FCTL || kind == FDAT || (kind == IEND && (length != 0 || !image_seen))
}

/// The controls written before a frame's first image data: the animation
/// control before the first frame, then the frame control. The result is
/// the output and the next sequence number.
#[verifier::opaque]
pub open spec fn frame_controls(plays: u32, delays: Seq<u32>, st: AState, kind: u32) -> Result<(Seq<u8>, int), Seq<char>> {
    let starts = kind == IDAT && !st.image_seen;
    if !starts {
        Ok((st.out, st.sequence))
    } else {
        let out1 = if st.index == 0 {
            st.out + chunk_bytes(ACTL, animation_control(delays.len() as int, plays))
        } else {
            st.out
        };
        if st.sequence + 1 > u32::MAX {
            Err("APNG sequence limit"@)
        } else {
            Ok((out1 + chunk_bytes(FCTL, frame_control(st.sequence, st.canvas, delays[st.index])), st.sequence + 1))
        }
    }
}

/// The rest of a frame's chunk once its controls are written.
#[verifier::opaque]
pub open spec fn frame_data_step(input: Seq<u8>, p: int, index: int, first: bool, image_seen: bool, canvas0: Seq<u8>, length: int, kind: u32, out2: Seq<u8>, seq1: int) -> AStep {
    let len = input.len() as int;
    let st = AState { pos: p, at_start: false, index, first, image_seen, sequence: seq1, canvas: canvas0, out: out2 };
    let copy = (st.index == 0 && kind != IEND) || kind == IDAT;
    let frame_data = st.index != 0 && kind == IDAT;
    if copy && frame_data && seq1 + 1 > u32::MAX {
        AStep::Stop(Assembled::Invalid("APNG sequence limit"@))
    } else if p + 8 + length > len {
        AStep::Stop(Assembled::Truncated)
    } else {
        let data = input.subrange(p + 8, p + 8 + length);
        if kind == IHDR && st.index != 0 && st.canvas != data {
            AStep::Stop(Assembled::Invalid("encoded PNG frame formats differ"@))
        } else if kind == IHDR && !rgba8_header(data) {
            AStep::Stop(Assembled::Invalid("encoded animation must use 8-bit RGBA PNG"@))
        } else if p + 12 + length > len {
            AStep::Stop(Assembled::Truncated)
        } else if crc32_of(be32_bytes(kind as int) + data) as int != be32(input, p + 8 + length) {
            AStep::Stop(Assembled::Invalid("encoded PNG CRC mismatch"@))
        } else {
            let out3 = if !copy { out2 } else if frame_data {
                out2 + chunk_bytes(FDAT, be32_bytes(seq1) + data)
            } else {
                out2 + input.subrange(p, p + 12 + length)
            };
            let seq2 = if copy && frame_data { seq1 + 1 } else { seq1 };
            let canvas = if kind == IHDR && st.index == 0 { data } else { st.canvas };
            if kind == IEND {
                AStep::Next(AState { pos: p + 12 + length, at_start: true, index: st.index + 1, sequence: seq2, canvas, out: out3, ..st })
            } else {
                AStep::Next(AState {
                    pos: p + 12 + length, first: false, image_seen: st.image_seen || kind == IDAT,
                    sequence: seq2, canvas, out: out3, ..st
                })
            }
        }
    }
}

/// One chunk of a frame.
pub open spec fn frame_chunk(input: Seq<u8>, plays: u32, delays: Seq<u32>, st: AState) -> AStep {
    let p = st.pos;
    if p + 8 > input.len() {
        AStep::Stop(Assembled::Truncated)
    } else {
        let length = be32(input, p);
        let kind = be32(input, p + 4) as u32;
        if frame_header_refused(length, kind, st.first, st.image_seen) {
            AStep::Stop(Assembled::Invalid("invalid encoded PNG frame structure"@))
        } else {
            match frame_controls(plays, delays, st, kind) {
                Err(t) => AStep::Stop(Assembled::Invalid(t)),
                Ok((out2, seq1)) => frame_data_step(input, st.pos, st.index, st.first, st.image_seen, st.canvas, length, kind, out2, seq1),
            }
        }
    }
}

pub open spec fn assemble_run(input: Seq<u8>, plays: u32, delays: Seq<u32>, st: AState) -> Assembled
    decreases input.len() - st.pos,
{
    match assemble_step(input, plays, delays, st) {
        AStep::Next(n) => if st.pos < n.pos <= input.len() { assemble_run(input, plays, delays, n) } else { Assembled::Truncated },
        AStep::Stop(s) => s,
    }
}

/// Joining independently encoded RGBA PNG frames, one per delay, into one
/// APNG: the first frame keeps its chunks, later frames contribute only
/// their image data as frame data, and controls go before each frame's data.
pub open spec fn assemble_spec(input: Seq<u8>, plays: u32, delays: Seq<u32>) -> Assembled {
    assemble_run(input, plays, delays, AState {
        pos: 0, at_start: true, index: 0, first: true, image_seen: false, sequence: 0,
        canvas: Seq::empty(), out: signature(),
    })
}

pub open spec fn assembled_reports(r: Result<Vec<u8>, ExportError>, s: Assembled) -> bool {
    match r {
        Ok(v) => s == Assembled::Done(v@),
        Err(ExportError::Cancelled) => true,
        Err(ExportError::Output(_)) => s is Truncated,
        Err(ExportError::Failed(m)) => s matches Assembled::Invalid(t) && m@ == "PNG metadata: "@ + t,
        Err(_) => false,
    }
}

/// The joiner's exec state.
struct Joiner {
    pos: usize,
    at_start: bool,
    index: usize,
    first: bool,
    image_seen: bool,
    sequence: u32,
    canvas: Vec<u8>,
    out: Vec<u8>,
}

impl Joiner {
    spec fn view(&self) -> AState {
        AState {
            pos: self.pos as int, at_start: self.at_start, index: self.index as int, first: self.first,
            image_seen: self.image_seen, sequence: self.sequence as int, canvas: self.canvas@, out: self.out@,
        }
    }

    spec fn wf(&self, input: Seq<u8>, delays: Seq<u32>) -> bool {
        &&& self.pos <= input.len()
        &&& self.index <= delays.len()
        &&& !self.at_start ==> self.index < delays.len()
        &&& (self.index > 0 || (!self.at_start && !self.first)) ==> self.canvas@.len() == 13
    }

    fn start(&mut self, input: &[u8], delays: &Vec<u32>) -> (r: Option<Result<Vec<u8>, ExportError>>)
        requires
            old(self).wf(input@, delays@),
            old(self).at_start,
        ensures
            r is None ==> final(self).wf(input@, delays@) && frame_start(input@, delays@, old(self).view()) == AStep::Next(final(self).view())
                && old(self).pos < final(self).pos,
            r matches Some(res) ==> frame_start(input@, delays@, old(self).view()) matches AStep::Stop(s) && assembled_reports(res, s),
    {
        if self.index >= delays.len() {
            if self.pos < input.len() {
                return Some(Err(invalid("extra encoded animation frames")));
            }
            let empty: Vec<u8> = Vec::new();
            let mut out = Vec::new();
            std::mem::swap(&mut out, &mut self.out);
            write_chunk(&mut out, IEND, empty.as_slice());
            assert(empty@ =~= Seq::<u8>::empty());
            return Some(Ok(out));
        }
        if input.len() - self.pos < 8 {
            return Some(Err(ExportError::Output(crate::jpeg::unexpected_end())));
        }
        let sig = png_signature();
        if !crate::bytes::same_bytes(&input[self.pos..self.pos + 8], sig.as_slice()) {
            return Some(Err(invalid("missing encoded PNG frame")));
        }
        self.pos = self.pos + 8;
        self.at_start = false;
        self.first = true;
        self.image_seen = false;
        None
    }

    fn controls(&mut self, plays: u32, delays: &Vec<u32>, kind: u32) -> (r: Option<ExportError>)
        requires
            old(self).index < delays@.len(),
            (old(self).index > 0 || !old(self).first) ==> old(self).canvas@.len() == 13,
            !old(self).at_start,
            kind == IDAT ==> !old(self).first,
        ensures
            r is None ==> frame_controls(plays, delays@, old(self).view(), kind) == Ok::<(Seq<u8>, int), Seq<char>>((final(self).out@, final(self).sequence as int)),
            r matches Some(e) ==> frame_controls(plays, delays@, old(self).view(), kind) matches Err(t)
                && e matches ExportError::Failed(m) && m@ == "PNG metadata: "@ + t,
            final(self).pos == old(self).pos,
            final(self).at_start == old(self).at_start,
            final(self).index == old(self).index,
            final(self).first == old(self).first,
            final(self).image_seen == old(self).image_seen,
            final(self).canvas == old(self).canvas,
    {
        reveal(frame_controls);
        if !(kind == IDAT && !self.image_seen) {
            return None;
        }
        let index = self.index;
        if index == 0 {
            let mut control = u32_bytes((delays.len() as u64 % 4294967296) as u32);
            let played = u32_bytes(plays);
            extend(&mut control, played.as_slice());
            assert(control@ =~= animation_control(delays@.len() as int, plays));
            write_chunk(&mut self.out, ACTL, control.as_slice());
        }
        if self.sequence == u32::MAX {
            return Some(invalid("APNG sequence limit"));
        }
        let mut control = u32_bytes(self.sequence);
        extend(&mut control, &self.canvas.as_slice()[0..8]);
        let zeros: Vec<u8> = vec![0u8, 0, 0, 0, 0, 0, 0, 0];
        extend(&mut control, zeros.as_slice());
        let delay = u32_bytes(delays[index]);
        extend(&mut control, delay.as_slice());
        let operations: Vec<u8> = vec![0u8, 0];
        extend(&mut control, operations.as_slice());
        proof {
            assert(zeros@ =~= seq![0u8, 0, 0, 0, 0, 0, 0, 0]);
            assert(operations@ =~= seq![0u8, 0]);
            assert(self.canvas@.subrange(0, 8) =~= self.canvas@.take(8));
        }
        assert(control@ =~= frame_control(self.sequence as int, self.canvas@, delays@[index as int]));
        write_chunk(&mut self.out, FCTL, control.as_slice());
        self.sequence = self.sequence + 1;
        None
    }

    #[verifier::rlimit(40)]
    fn data_step(&mut self, input: &[u8], length: usize, kind: u32) -> (r: Option<Result<Vec<u8>, ExportError>>)
        requires
            old(self).pos + 8 <= input@.len(),
            old(self).index < usize::MAX,
            (old(self).index > 0 || !old(self).first) ==> old(self).canvas@.len() == 13,
            length <= 0x7fffffff - 4,
            kind == IHDR ==> length == 13,
            old(self).first ==> kind == IHDR,
            !old(self).at_start,
        ensures
            r is None ==> frame_data_step(input@, old(self).pos as int, old(self).index as int, old(self).first, old(self).image_seen, old(self).canvas@,
                    length as int, kind, old(self).out@, old(self).sequence as int) == AStep::Next(final(self).view()),
            r is None ==> old(self).pos < final(self).pos <= input@.len(),
            r is None ==> (final(self).index == old(self).index || (final(self).index == old(self).index + 1 && final(self).at_start)),
            r is None ==> (!final(self).at_start ==> final(self).index == old(self).index),
            r is None ==> ((final(self).index > 0 || (!final(self).at_start && !final(self).first)) ==> final(self).canvas@.len() == 13),
            r matches Some(res) ==> frame_data_step(input@, old(self).pos as int, old(self).index as int, old(self).first, old(self).image_seen, old(self).canvas@,
                    length as int, kind, old(self).out@, old(self).sequence as int) matches AStep::Stop(s)
                && assembled_reports(res, s),
    {
        reveal(frame_data_step);
        let pos = self.pos;
        let index = self.index;
        let copy = (index == 0 && kind != IEND) || kind == IDAT;
        let frame_data = index != 0 && kind == IDAT;
        if copy && frame_data && self.sequence == u32::MAX {
            return Some(Err(invalid("APNG sequence limit")));
        }
        if input.len() - pos - 8 < length {
            return Some(Err(ExportError::Output(crate::jpeg::unexpected_end())));
        }
        let data = &input[pos + 8..pos + 8 + length];
        if kind == IHDR {
            if index != 0 && !crate::bytes::same_bytes(self.canvas.as_slice(), data) {
                return Some(Err(invalid("encoded PNG frame formats differ")));
            }
            if !(data[8] == 8 && data[9] == 6 && data[10] == 0 && data[11] == 0 && data[12] == 0) {
                return Some(Err(invalid("encoded animation must use 8-bit RGBA PNG")));
            }
        }
        if input.len() - pos - 8 - length < 4 {
            return Some(Err(ExportError::Output(crate::jpeg::unexpected_end())));
        }
        let mut covered = u32_bytes(kind);
        extend(&mut covered, data);
        if crc32(covered.as_slice()) != read_u32(input, pos + 8 + length) {
            return Some(Err(invalid("encoded PNG CRC mismatch")));
        }
        if copy {
            if frame_data {
                let mut payload = u32_bytes(self.sequence);
                extend(&mut payload, data);
                write_chunk(&mut self.out, FDAT, payload.as_slice());
                self.sequence = self.sequence + 1;
            } else {
                extend(&mut self.out, &input[pos..pos + 12 + length]);
            }
        }
        if kind == IHDR && index == 0 {
            let mut header: Vec<u8> = Vec::new();
            extend(&mut header, data);
            self.canvas = header;
        }
        self.pos = pos + 12 + length;
        if kind == IEND {
            self.at_start = true;
            self.index = index + 1;
        } else {
            self.first = false;
            self.image_seen = self.image_seen || kind == IDAT;
        }
        None
    }

    fn chunk(&mut self, input: &[u8], plays: u32, delays: &Vec<u32>) -> (r: Option<Result<Vec<u8>, ExportError>>)
        requires
            old(self).wf(input@, delays@),
            !old(self).at_start,
        ensures
            r is None ==> final(self).wf(input@, delays@) && frame_chunk(input@, plays, delays@, old(self).view()) == AStep::Next(final(self).view())
                && old(self).pos < final(self).pos,
            r matches Some(res) ==> frame_chunk(input@, plays, delays@, old(self).view()) matches AStep::Stop(s) && assembled_reports(res, s),
    {
        let pos = self.pos;
        if input.len() - pos < 8 {
            return Some(Err(ExportError::Output(crate::jpeg::unexpected_end())));
        }
        let length32 = read_u32(input, pos);
        let kind = read_u32(input, pos + 4);
        if length32 > 0x7fffffff - 4 || (self.first && (kind != IHDR || length32 != 13)) || (!self.first && kind == IHDR)
            || kind == ACTL || kind == FCTL || kind == FDAT || (kind == IEND && (length32 != 0 || !self.image_seen)) {
            return Some(Err(invalid("invalid encoded PNG frame structure")));
        }
        match self.controls(plays, delays, kind) {
            Some(e) => return Some(Err(e)),
            None => {},
        }
        assert(delays@.len() == delays.len());
        self.data_step(input, length32 as usize, kind)
    }
}

impl Animation {
    /// Joins independently encoded RGBA PNG frames without decoding or
    /// changing their image data.
    pub fn assemble(&self, input: &[u8], cancelled: &AtomicBool) -> (r: Result<Vec<u8>, ExportError>)
        ensures
            assembled_reports(r, assemble_spec(input@, self.plays, self.delays@)),
    {
        let mut joiner = Joiner {
            pos: 0, at_start: true, index: 0, first: true, image_seen: false, sequence: 0,
            canvas: Vec::new(), out: png_signature(),
        };
        loop
            invariant
                joiner.wf(input@, self.delays@),
                assemble_spec(input@, self.plays, self.delays@) == assemble_run(input@, self.plays, self.delays@, joiner.view()),
            decreases input@.len() - joiner.pos,
        {
            match check_cancelled(cancelled) {
                Ok(()) => {},
                Err(e) => return Err(e),
            }
            let done = if joiner.at_start {
                joiner.start(input, &self.delays)
            } else {
                joiner.chunk(input, self.plays, &self.delays)
            };
            match done {
                Some(res) => return res,
                None => {},
            }
        }
    }
}

/// Whether a path names a PNG or APNG file.
pub fn png_path(path: &str) -> (r: bool)
    ensures
        r == format_accepts(Format::Png, path@),
{
    Format::Png.accepts(path)
}

/// Reads the text chunks of a PNG stream.
pub fn scan(input: &[u8], cancelled: &AtomicBool) -> (r: Result<Vec<TextChunk>, ExportError>)
    ensures
        r matches Ok(t) ==> png_scan(input@, false, Seq::empty(), None) matches PngScanned::Done(v, _, _) && v == texts_view(t@),
        r matches Ok(t) ==> forall|i: int| 0 <= i < t@.len() ==> value_ok(#[trigger] t@[i].kind, t@[i].data@, t@[i].text@),
        r matches Err(e) ==> png_error_reports(e, png_scan(input@, false, Seq::empty(), None)),
{
    let none: Vec<TextChunk> = Vec::new();
    assert(texts_view(none@) =~= Seq::<TextView>::empty());
    match scan_contents(input, false, none.as_slice(), None, cancelled) {
        Ok(c) => Ok(c.texts),
        Err(e) => Err(e),
    }
}

/// The source's text chunks that no override replaces.
pub open spec fn retained_texts(texts: Seq<TextView>, opts: Seq<Option<Seq<char>>>) -> Seq<TextView>
    decreases texts.len(),
{
    if texts.len() == 0 {
        texts
    } else {
        let r = retained_texts(texts.drop_last(), opts);
        if opts[field_index(texts.last().field)] is None { r.push(texts.last()) } else { r }
    }
}

/// The data of an uncompressed international text chunk with no language
/// or translated keyword.
pub open spec fn itxt_data(f: MetadataField, v: Seq<char>) -> Seq<u8> {
    keyword_bytes(f) + seq![0u8, 0, 0, 0, 0] + encode_utf8(v)
}

/// New text chunks for the nonempty overrides among the first `n` fields.
pub open spec fn new_text_chunks(opts: Seq<Option<Seq<char>>>, n: int) -> Seq<TextView>
    decreases n,
{
    if n <= 0 {
        Seq::empty()
    } else {
        let r = new_text_chunks(opts, n - 1);
        match opts[n - 1] {
            Some(v) => if v.len() > 0 { r.push(TextView { kind: ITXT, data: itxt_data(field_at(n - 1), v), field: field_at(n - 1) }) } else { r },
            None => r,
        }
    }
}

/// Text chunks and animation controls to write into an exported PNG.
#[derive(Debug)]
pub struct PngMetadata {
    pub chunks: Vec<TextChunk>,
    pub animation: Option<Animation>,
}

fn copy_bytes(s: &[u8]) -> (r: Vec<u8>)
    ensures
        r@ == s@,
{
    let mut r: Vec<u8> = Vec::new();
    extend(&mut r, s);
    r
}

/// Whether two text chunk lists are equal chunk by chunk: code, data,
/// field and decoded text.
pub open spec fn same_text_chunks(a: Seq<TextChunk>, b: Seq<TextChunk>) -> bool {
    a.len() == b.len() && forall|k: int| 0 <= k < a.len() ==> (#[trigger] a[k])@ == b[k]@ && a[k].text@ == b[k].text@
}

fn same_chunk(a: &TextChunk, b: &TextChunk) -> (r: bool)
    ensures
        r == (a@ == b@ && a.text@ == b.text@),
{
    a.kind == b.kind && a.field == b.field && crate::bytes::same_bytes(a.data.as_slice(), b.data.as_slice())
        && same_text(a.text.as_str(), b.text.as_str())
}

fn same_chunks(a: &Vec<TextChunk>, b: &Vec<TextChunk>) -> (r: bool)
    ensures
        r == same_text_chunks(a@, b@),
        r ==> texts_view(a@) == texts_view(b@),
{
    if a.len() != b.len() {
        return false;
    }
    let mut i: usize = 0;
    while i < a.len()
        invariant
            a@.len() == b@.len(),
            i <= a@.len(),
            forall|k: int| 0 <= k < i ==> (#[trigger] a@[k])@ == b@[k]@ && a@[k].text@ == b@[k].text@,
        decreases a@.len() - i,
    {
        if !same_chunk(&a[i], &b[i]) {
            return false;
        }
        i = i + 1;
    }
    assert(texts_view(a@) =~= texts_view(b@));
    true
}

fn same_optional_animation(a: &Option<Animation>, b: &Option<Animation>) -> (r: bool)
    ensures
        r == (anim_view(*a) == anim_view(*b)),
{
    match b {
        Some(e) => same_animation(a, e),
        None => a.is_none(),
    }
}

impl PngMetadata {
    /// Animation controls for frames that another format supplies; every
    /// frame, the default image included, is shown.
    pub fn from_animation(plays: u32, delays: Vec<u32>) -> (r: PngMetadata)
        ensures
            r.chunks@.len() == 0,
            anim_view(r.animation) == Some(AnimView { plays, delays: delays@, includes_default: true }),
    {
        PngMetadata { chunks: Vec::new(), animation: Some(Animation { plays, delays, includes_default: true }) }
    }

    pub fn is_animated(&self) -> (r: bool)
        ensures
            r == self.animation is Some,
    {
        self.animation.is_some()
    }

    /// The text to write for a PNG export: the source's recognized text
    /// chunks without the overridden fields, then one uncompressed
    /// international text chunk per nonempty override; the source's
    /// animation controls are kept.
    pub fn prepare(source: &str, target: &str, source_bytes: &[u8], options: &MetadataExportOptions, cancelled: &AtomicBool) -> (r: Result<PngMetadata, ExportError>)
        ensures
            !(format_accepts(Format::Png, source@) && format_accepts(Format::Png, target@)) ==> (r matches Err(ExportError::Failed(m))
                && m@ == "PNG metadata: "@ + "image text export currently requires PNG input and PNG output"@),
            r matches Ok(m) ==> (format_accepts(Format::Png, source@) && format_accepts(Format::Png, target@)
                && (png_scan(source_bytes@, false, Seq::empty(), None) matches PngScanned::Done(texts, a, _)
                && texts_view(m.chunks@) == retained_texts(texts, options@) + new_text_chunks(options@, 10)
                && anim_view(m.animation) == a)),
            (format_accepts(Format::Png, source@) && format_accepts(Format::Png, target@)) ==> (r matches Err(e) ==> png_error_reports(e, png_scan(source_bytes@, false, Seq::empty(), None))),
    {
        if !png_path(source) || !png_path(target) {
            return Err(invalid("image text export currently requires PNG input and PNG output"));
        }
        let none: Vec<TextChunk> = Vec::new();
        assert(texts_view(none@) =~= Seq::<TextView>::empty());
        let contents = match scan_contents(source_bytes, false, none.as_slice(), None, cancelled) {
            Ok(c) => c,
            Err(e) => return Err(e),
        };
        let ghost found = texts_view(contents.texts@);
        let mut chunks: Vec<TextChunk> = Vec::new();
        let mut i: usize = 0;
        while i < contents.texts.len()
            invariant
                i <= contents.texts@.len(),
                found == texts_view(contents.texts@),
                texts_view(chunks@) == retained_texts(found.take(i as int), options@),
            decreases contents.texts@.len() - i,
        {
            let chunk = &contents.texts[i];
            let ghost before = chunks@;
            if options.get(chunk.field).is_none() {
                chunks.push(chunk.clone_chunk());
                assert(texts_view(chunks@) =~= texts_view(before).push(found[i as int]));
            }
            i = i + 1;
            assert(found.take(i as int).drop_last() =~= found.take(i as int - 1));
        }
        assert(found.take(found.len() as int) =~= found);
        let ghost kept = texts_view(chunks@);
        let mut n: usize = 0;
        while n < 10
            invariant
                n <= 10,
                texts_view(chunks@) == kept + new_text_chunks(options@, n as int),
            decreases 10 - n,
        {
            let field = MetadataField::at(n);
            let ghost before = chunks@;
            match options.get(field) {
                Some(text) => {
                    if !text_is_empty(text) {
                        let mut data = keyword(field);
                        let zeros: Vec<u8> = vec![0u8, 0, 0, 0, 0];
                        extend(&mut data, zeros.as_slice());
                        extend(&mut data, text.as_bytes());
                        assert(zeros@ =~= seq![0u8, 0, 0, 0, 0]);
                        assert(data@ =~= itxt_data(field, text@));
                        chunks.push(TextChunk { kind: ITXT, data, field, text: owned(text) });
                        assert(texts_view(chunks@) =~= texts_view(before).push(TextView { kind: ITXT, data: itxt_data(field, text@), field }));
                    }
                },
                None => {},
            }
            n = n + 1;
            assert(texts_view(chunks@) =~= kept + new_text_chunks(options@, n as int));
        }
        Ok(PngMetadata { chunks, animation: contents.animation })
    }

    /// The message of a rewrite whose read-back differs from the request.
    pub open spec fn retain_message() -> Seq<char> {
        "PNG metadata: "@ + "staged text or animation did not retain the requested values"@
    }

    /// Whether `e` is a refusal that applying `chunks` and `animation` to
    /// `staged` can give: cancellation, the animation assembly's refusal,
    /// or a refusal of the rewrite or of its read-back.
    #[verifier::opaque]
    pub open spec fn apply_refusal(e: ExportError, staged: Seq<u8>, chunks: Seq<TextChunk>, animation: Option<AnimView>) -> bool {
        ||| e is Cancelled
        ||| match apply_input(staged, animation) {
            Some(i) => written_refusal(e, i, chunks, animation),
            None => animation matches Some(a) && assembled_reports(Err(e), assemble_spec(staged, a.plays, a.delays)),
        }
    }

    /// Writes the text, and first the animation, into an encoded PNG, then
    /// reads the result back and refuses it unless it holds exactly the
    /// requested text chunks and animation.
    #[verifier::rlimit(60)]
    #[verifier::spinoff_prover]
    pub fn apply(&self, staged: &[u8], cancelled: &AtomicBool) -> (r: Result<Vec<u8>, ExportError>)
        ensures
            r matches Ok(out) ==> (png_scan(out@, false, Seq::empty(), None) matches PngScanned::Done(t, a, _)
                && t == texts_view(self.chunks@) && a == anim_view(self.animation)),
            r matches Ok(out) ==> match self.animation {
                None => (png_scan(staged@, true, texts_view(self.chunks@), None) matches PngScanned::Done(_, _, o) && o == out@),
                Some(a) => (assemble_spec(staged@, a.plays, a.delays@) matches Assembled::Done(j)
                    && (png_scan(j, true, texts_view(self.chunks@), Some(a@)) matches PngScanned::Done(_, _, o) && o == out@)),
            },
            r matches Err(e) ==> Self::apply_refusal(e, staged@, self.chunks@, anim_view(self.animation)),
    {
        let ghost repl = texts_view(self.chunks@);
        let ghost anim = anim_view(self.animation);
        let input = match &self.animation {
            Some(a) => match a.assemble(staged, cancelled) {
                Ok(v) => v,
                Err(e) => {
                    assert(Self::apply_refusal(e, staged@, self.chunks@, anim)) by {
                        reveal(PngMetadata::apply_refusal);
                    }
                    return Err(e);
                },
            },
            None => copy_bytes(staged),
        };
        assert(apply_input(staged@, anim) == Some(input@));
        let expected = self.animation.as_ref();
        assert(expected_view(expected) == anim);
        let written = match scan_contents(input.as_slice(), true, self.chunks.as_slice(), expected, cancelled) {
            Ok(c) => c,
            Err(e) => {
                assert(Self::apply_refusal(e, staged@, self.chunks@, anim)) by {
                    reveal(PngMetadata::apply_refusal);
                    reveal(written_refusal);
                }
                return Err(e);
            },
        };
        let none: Vec<TextChunk> = Vec::new();
        assert(texts_view(none@) =~= Seq::<TextView>::empty());
        let check = match scan_contents(written.output.as_slice(), false, none.as_slice(), None, cancelled) {
            Ok(c) => c,
            Err(e) => {
                assert(Self::apply_refusal(e, staged@, self.chunks@, anim)) by {
                    reveal(PngMetadata::apply_refusal);
                    reveal(written_refusal);
                }
                return Err(e);
            },
        };
        if !same_chunks(&check.texts, &self.chunks) || !same_optional_animation(&check.animation, &self.animation) {
            let e = invalid("staged text or animation did not retain the requested values");
            assert(!(texts_view(check.texts@) == texts_view(self.chunks@) && anim_view(check.animation) == anim
                && texts_decoded(self.chunks@))) by {
                if texts_view(check.texts@) == texts_view(self.chunks@) && anim_view(check.animation) == anim
                    && texts_decoded(self.chunks@) {
                    assert forall|k: int| 0 <= k < check.texts@.len() implies (#[trigger] check.texts@[k])@ == self.chunks@[k]@
                        && check.texts@[k].text@ == self.chunks@[k].text@ by {
                        assert(texts_view(check.texts@).len() == texts_view(self.chunks@).len());
                        assert(k < self.chunks@.len());
                        assert(texts_view(check.texts@)[k] == texts_view(self.chunks@)[k]);
                        assert(value_ok(check.texts@[k].kind, check.texts@[k].data@, check.texts@[k].text@));
                        assert(value_ok(self.chunks@[k].kind, self.chunks@[k].data@, self.chunks@[k].text@));
                    }
                    assert(check.texts@.len() == texts_view(check.texts@).len());
                    assert(self.chunks@.len() == texts_view(self.chunks@).len());
                    assert(same_text_chunks(check.texts@, self.chunks@));
                }
            }
            assert(Self::apply_refusal(e, staged@, self.chunks@, anim)) by {
                reveal(PngMetadata::apply_refusal);
                reveal(written_refusal);
            }
            return Err(e);
        }
        Ok(written.output)
    }
}

/// The bytes a text rewrite starts from: the staged PNG, or the APNG
/// assembled from it when an animation is kept.
pub open spec fn apply_input(staged: Seq<u8>, animation: Option<AnimView>) -> Option<Seq<u8>> {
    match animation {
        None => Some(staged),
        Some(a) => match assemble_spec(staged, a.plays, a.delays) {
            Assembled::Done(j) => Some(j),
            _ => None,
        },
    }
}

/// Whether `e` is the refusal of rewriting `input` with `chunks`, of
/// reading the rewritten bytes back, or of a read-back that differs from
/// the request.
#[verifier::opaque]
pub open spec fn written_refusal(e: ExportError, input: Seq<u8>, chunks: Seq<TextChunk>, animation: Option<AnimView>) -> bool {
    match png_scan(input, true, texts_view(chunks), animation) {
        PngScanned::Done(_, _, o) => png_error_reports(e, png_scan(o, false, Seq::empty(), None))
            || ((e matches ExportError::Failed(m) && m@ == PngMetadata::retain_message())
                && (png_scan(o, false, Seq::empty(), None) matches PngScanned::Done(t, a, _)
                && !(t == texts_view(chunks) && a == animation && texts_decoded(chunks)))),
        s => png_error_reports(e, s),
    }
}

/// Whether each chunk's text is the decoded value of its data.
pub open spec fn texts_decoded(chunks: Seq<TextChunk>) -> bool {
    forall|i: int| 0 <= i < chunks.len() ==> value_ok(#[trigger] chunks[i].kind, chunks[i].data@, chunks[i].text@)
}

impl TextChunk {
    pub fn clone_chunk(&self) -> (r: TextChunk)
        ensures
            r@ == self@,
            r.text@ == self.text@,
    {
        TextChunk { kind: self.kind, data: copy_bytes(self.data.as_slice()), field: self.field, text: owned(self.text.as_str()) }
    }
}

/// Refuses an encoded PNG that carries animation controls.
pub fn require_static(input: &[u8], cancelled: &AtomicBool) -> (r: Result<(), ExportError>)
    ensures
        r is Ok ==> (png_scan(input@, false, Seq::empty(), None) matches PngScanned::Done(_, a, _) && a is None),
        r matches Err(e) ==> png_error_reports(e, png_scan(input@, false, Seq::empty(), None))
            || (e matches ExportError::Failed(m) && m@ == "PNG metadata: "@ + "animation export requires PNG or APNG output"@
                && (png_scan(input@, false, Seq::empty(), None) matches PngScanned::Done(_, a, _) && a is Some)),
{
    let none: Vec<TextChunk> = Vec::new();
    assert(texts_view(none@) =~= Seq::<TextView>::empty());
    let contents = match scan_contents(input, false, none.as_slice(), None, cancelled) {
        Ok(c) => c,
        Err(e) => return Err(e),
    };
    if contents.animation.is_some() {
        return Err(invalid("animation export requires PNG or APNG output"));
    }
    Ok(())
}

/// The recognized text of a PNG for display: each value bounded to 1024
/// bytes at a character boundary.
pub fn inspect(path: &str, input: &[u8]) -> (r: Result<Vec<MetadataSourceValue>, ExportError>)
    ensures
        !format_accepts(Format::Png, path@) ==> (r matches Err(ExportError::Failed(m))
            && m@ == "PNG metadata: "@ + "image text inspection currently requires PNG input"@),
        r matches Err(e) ==> !format_accepts(Format::Png, path@)
            || png_error_reports(e, png_scan(input@, false, Seq::empty(), None)),
        r matches Ok(v) ==> (format_accepts(Format::Png, path@)
            && (png_scan(input@, false, Seq::empty(), None) matches PngScanned::Done(t, _, _)
            && v@.len() == t.len()
            && forall|i: int| 0 <= i < v@.len() ==> (#[trigger] v@[i]).field == t[i].field && v@[i].scope@ == "PNG text"@
                && exists|x: Seq<char>| #[trigger] value_ok(t[i].kind, t[i].data, x)
                    && encode_utf8(v@[i].value@) == encode_utf8(x).take(floor_boundary(encode_utf8(x), 1024))
                    && v@[i].truncated == (encode_utf8(x).len() > 1024))),
{
    if !png_path(path) {
        return Err(invalid("image text inspection currently requires PNG input"));
    }
    let never = AtomicBool::new(false);
    let texts = match scan(input, &never) {
        Ok(t) => t,
        Err(e) => return Err(e),
    };
    let mut values: Vec<MetadataSourceValue> = Vec::new();
    let mut i: usize = 0;
    while i < texts.len()
        invariant
            i <= texts@.len(),
            values@.len() == i,
            forall|k: int| 0 <= k < texts@.len() ==> value_ok(#[trigger] texts@[k].kind, texts@[k].data@, texts@[k].text@),
            forall|k: int| 0 <= k < i ==> (#[trigger] values@[k]).field == texts@[k].field && values@[k].scope@ == "PNG text"@
                && encode_utf8(values@[k].value@) == encode_utf8(texts@[k].text@).take(floor_boundary(encode_utf8(texts@[k].text@), 1024))
                && values@[k].truncated == (encode_utf8(texts@[k].text@).len() > 1024),
        decreases texts@.len() - i,
    {
        let (value, truncated) = bounded_prefix(texts[i].text.as_str(), 1024);
        values.push(MetadataSourceValue { field: texts[i].field, scope: "PNG text", value, truncated });
        i = i + 1;
    }
    assert forall|k: int| #![trigger values@[k]] 0 <= k < values@.len() implies exists|x: Seq<char>| #[trigger] value_ok(texts_view(texts@)[k].kind, texts_view(texts@)[k].data, x)
        && encode_utf8(values@[k].value@) == encode_utf8(x).take(floor_boundary(encode_utf8(x), 1024))
        && values@[k].truncated == (encode_utf8(x).len() > 1024) by {
        assert(texts_view(texts@)[k] == texts@[k]@);
        assert(value_ok(texts@[k].kind, texts@[k].data@, texts@[k].text@));
        assert(value_ok(texts_view(texts@)[k].kind, texts_view(texts@)[k].data, texts@[k].text@));
    }
    assert(texts_view(texts@).len() == texts@.len());
    Ok(values)
}

} // verus!
