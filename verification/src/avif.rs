//! ISO base media (AVIF) boxes: bounded scanning of box lists and reading
//! the track controls of an image sequence from in-memory bytes.
use crate::bytes::{be32, be32_bytes, be64, read_u32, read_u64};
use crate::error::{check_cancelled, ExportError};
use crate::text::{owned, push_char, push_str};
use std::sync::atomic::AtomicBool;
use vstd::prelude::*;

verus! {

/// One box: its kind, where its header starts, and its payload range.
#[derive(Clone, Copy, Debug, Eq, PartialEq, Structural)]
pub struct BoxRange {
    pub kind: u32,
    pub header: u64,
    pub start: u64,
    pub end: u64,
}

/// Most boxes in one list.
pub const BOX_LIMIT: usize = 65536;

/// The boxes between `pos` and `end`, appended to `acc`.
pub open spec fn boxes_from(input: Seq<u8>, pos: int, end: int, acc: Seq<BoxRange>) -> Result<Seq<BoxRange>, Seq<char>>
    decreases end - pos,
{
    if pos >= end {
        Ok(acc)
    } else if end - pos < 8 || acc.len() == BOX_LIMIT {
        Err("invalid box boundary or too many boxes"@)
    } else {
        let size32 = be32(input, pos);
        if size32 == 1 && end - pos < 16 {
            Err("incomplete large box"@)
        } else {
            let size = if size32 == 0 { end - pos } else if size32 == 1 { be64(input, pos + 8) } else { size32 };
            let header = if size32 == 1 { 16int } else { 8int };
            if size < header || size > end - pos {
                Err("box exceeds parent bounds"@)
            } else {
                boxes_from(input, pos + size, end, acc.push(BoxRange {
                    kind: be32(input, pos + 4) as u32,
                    header: pos as u64,
                    start: (pos + header) as u64,
                    end: (pos + size) as u64,
                }))
            }
        }
    }
}

/// The boxes that fill `start..end`: each declares its size (zero: to the
/// end; one: a 64-bit size follows), and none crosses `end`.
pub open spec fn box_list(input: Seq<u8>, start: int, end: int) -> Result<Seq<BoxRange>, Seq<char>> {
    boxes_from(input, start, end, Seq::empty())
}

/// The error of a refused AVIF file.
pub(crate) fn invalid(message: &str) -> (e: ExportError)
    ensures
        e matches ExportError::Failed(m) && m@ == "AVIF export: "@ + message@,
{
    let mut m = owned("AVIF export: ");
    push_str(&mut m, message);
    ExportError::Failed(m)
}

/// Whether an error reports the refusal `t`.
pub open spec fn refuses(e: ExportError, t: Seq<char>) -> bool {
    e matches ExportError::Failed(m) && m@ == "AVIF export: "@ + t
}

/// Every box has its payload within its header's range and `end`.
pub open spec fn boxes_within(bs: Seq<BoxRange>, end: int) -> bool {
    forall|i: int| 0 <= i < bs.len() ==> (#[trigger] bs[i]).header <= bs[i].start <= bs[i].end <= end
}

proof fn lemma_boxes_within(input: Seq<u8>, pos: int, end: int, acc: Seq<BoxRange>)
    requires
        boxes_within(acc, end),
        acc.len() <= BOX_LIMIT,
        0 <= pos,
        end <= u64::MAX,
    ensures
        boxes_from(input, pos, end, acc) matches Ok(bs) ==> boxes_within(bs, end) && bs.len() <= BOX_LIMIT,
    decreases end - pos,
{
    if pos < end && !(end - pos < 8 || acc.len() == BOX_LIMIT) {
        let size32 = be32(input, pos);
        if !(size32 == 1 && end - pos < 16) {
            let size = if size32 == 0 { end - pos } else if size32 == 1 { be64(input, pos + 8) } else { size32 };
            let header = if size32 == 1 { 16int } else { 8int };
            if !(size < header || size > end - pos) {
                let b = BoxRange { kind: be32(input, pos + 4) as u32, header: pos as u64, start: (pos + header) as u64, end: (pos + size) as u64 };
                assert(pos + size <= end);
                assert(b.header <= b.start <= b.end <= end);
                assert(boxes_within(acc.push(b), end)) by {
                    assert forall|i: int| 0 <= i < acc.push(b).len() implies (#[trigger] acc.push(b)[i]).header <= acc.push(b)[i].start <= acc.push(b)[i].end <= end by {
                        if i < acc.len() { assert(acc.push(b)[i] == acc[i]); }
                    }
                }
                lemma_boxes_within(input, pos + size, end, acc.push(b));
            }
        }
    }
}

/// Boxes lie in order within `start..end`, each after the one before,
/// with a header of at least eight bytes.
pub open spec fn boxes_layout(bs: Seq<BoxRange>, start: int, end: int) -> bool {
    &&& forall|i: int| 0 <= i < bs.len() ==> start <= (#[trigger] bs[i]).header && bs[i].header + 8 <= bs[i].start <= bs[i].end <= end
    &&& forall|i: int, j: int| 0 <= i < j < bs.len() ==> (#[trigger] bs[i]).end <= (#[trigger] bs[j]).header
}

proof fn lemma_boxes_layout(input: Seq<u8>, start: int, pos: int, end: int, acc: Seq<BoxRange>)
    requires
        boxes_layout(acc, start, pos),
        0 <= start <= pos,
        end <= u64::MAX,
    ensures
        boxes_from(input, pos, end, acc) matches Ok(bs) ==> boxes_layout(bs, start, if pos >= end { pos } else { end }),
    decreases end - pos,
{
    if pos < end && !(end - pos < 8 || acc.len() == BOX_LIMIT) {
        let size32 = be32(input, pos);
        if !(size32 == 1 && end - pos < 16) {
            let size = if size32 == 0 { end - pos } else if size32 == 1 { be64(input, pos + 8) } else { size32 };
            let header = if size32 == 1 { 16int } else { 8int };
            if !(size < header || size > end - pos) {
                let b = BoxRange { kind: be32(input, pos + 4) as u32, header: pos as u64, start: (pos + header) as u64, end: (pos + size) as u64 };
                let next = acc.push(b);
                assert(b.header == pos && b.start == pos + header && b.end == pos + size);
                assert(boxes_layout(next, start, pos + size)) by {
                    assert forall|i: int| 0 <= i < next.len() implies start <= (#[trigger] next[i]).header && next[i].header + 8 <= next[i].start <= next[i].end <= pos + size by {
                        if i < acc.len() { assert(next[i] == acc[i]); }
                    }
                    assert forall|i: int, j: int| 0 <= i < j < next.len() implies (#[trigger] next[i]).end <= (#[trigger] next[j]).header by {
                        if j < acc.len() { assert(next[i] == acc[i] && next[j] == acc[j]); } else { assert(next[i] == acc[i]); }
                    }
                }
                lemma_boxes_layout(input, start, pos + size, end, next);
            }
        }
    }
}

/// Scans the boxes of `start..end`.
pub fn boxes(input: &[u8], start: u64, end: u64, cancelled: &AtomicBool) -> (r: Result<Vec<BoxRange>, ExportError>)
    requires
        start <= end <= input@.len(),
    ensures
        r matches Ok(bs) ==> box_list(input@, start as int, end as int) == Ok::<Seq<BoxRange>, Seq<char>>(bs@),
        r matches Ok(bs) ==> boxes_within(bs@, end as int),
        r matches Ok(bs) ==> boxes_layout(bs@, start as int, end as int),
        r matches Err(e) ==> e is Cancelled || (box_list(input@, start as int, end as int) matches Err(t) && refuses(e, t)),
        start == end ==> (r matches Ok(bs) && bs@.len() == 0),
{
    proof {
        lemma_boxes_within(input@, start as int, end as int, Seq::empty());
        lemma_boxes_layout(input@, start as int, start as int, end as int, Seq::empty());
    }
    let n = input.len();
    let mut result: Vec<BoxRange> = Vec::new();
    let mut pos = start;
    while pos < end
        invariant
            start <= pos <= end <= input@.len(),
            n == input@.len(),
            result@.len() <= BOX_LIMIT,
            box_list(input@, start as int, end as int) == boxes_from(input@, pos as int, end as int, result@),
        decreases end - pos,
    {
        match check_cancelled(cancelled) {
            Ok(()) => {},
            Err(e) => return Err(e),
        }
        if end - pos < 8 || result.len() == BOX_LIMIT {
            return Err(invalid("invalid box boundary or too many boxes"));
        }
        let at = pos as usize;
        let size32 = read_u32(input, at);
        let kind = read_u32(input, at + 4);
        if size32 == 1 && end - pos < 16 {
            return Err(invalid("incomplete large box"));
        }
        let size: u64 = if size32 == 0 { end - pos } else if size32 == 1 { read_u64(input, at + 8) } else { size32 as u64 };
        let header: u64 = if size32 == 1 { 16 } else { 8 };
        if size < header || size > end - pos {
            return Err(invalid("box exceeds parent bounds"));
        }
        result.push(BoxRange { kind, header: pos, start: pos + header, end: pos + size });
        pos = pos + size;
    }
    Ok(result)
}

/// The characters of a box kind's four bytes.
pub open spec fn kind_text(kind: u32) -> Seq<char> {
    Seq::new(4, |i: int| be32_bytes(kind as int)[i] as char)
}

/// Whether a box is of a kind.
pub open spec fn has_kind(kind: u32) -> spec_fn(BoxRange) -> bool {
    |b: BoxRange| b.kind == kind
}

/// The first box of a kind, or why the list is refused: a second box of
/// the same kind.
pub open spec fn one_of(bs: Seq<BoxRange>, kind: u32) -> Result<Option<BoxRange>, Seq<char>> {
    let found = bs.filter(has_kind(kind));
    if found.len() >= 2 {
        Err("duplicate "@ + kind_text(kind) + " box"@)
    } else if found.len() == 1 {
        Ok(Some(found[0]))
    } else {
        Ok(None)
    }
}

fn kind_name(kind: u32) -> (r: String)
    ensures
        r@ == kind_text(kind),
{
    let bytes = crate::bytes::u32_bytes(kind);
    let mut r = String::new();
    let mut i: usize = 0;
    while i < 4
        invariant
            i <= 4,
            bytes@ == be32_bytes(kind as int),
            r@ == kind_text(kind).take(i as int),
        decreases 4 - i,
    {
        push_char(&mut r, bytes[i] as char);
        i = i + 1;
        assert(r@ =~= kind_text(kind).take(i as int));
    }
    assert(kind_text(kind).take(4) =~= kind_text(kind));
    r
}

/// The only box of a kind, if any.
pub fn one(bs: &[BoxRange], kind: u32) -> (r: Result<Option<BoxRange>, ExportError>)
    ensures
        r matches Ok(b) ==> one_of(bs@, kind) == Ok::<Option<BoxRange>, Seq<char>>(b),
        r matches Ok(Some(b)) ==> bs@.contains(b),
        r matches Err(e) ==> one_of(bs@, kind) matches Err(t) && refuses(e, t),
{
    let ghost p = has_kind(kind);
    let mut found: Option<BoxRange> = None;
    let mut i: usize = 0;
    while i < bs.len()
        invariant
            i <= bs@.len(),
            p == has_kind(kind),
            bs@.take(i as int).filter(p).len() <= 1,
            found is None <==> bs@.take(i as int).filter(p).len() == 0,
            found matches Some(b) ==> bs@.take(i as int).filter(p)[0] == b,
            found matches Some(b) ==> bs@.contains(b),
        decreases bs@.len() - i,
    {
        assert(bs@.take(i as int + 1) =~= bs@.take(i as int).push(bs@[i as int]));
        proof { bs@.take(i as int).lemma_filter_push(bs@[i as int], p); }
        if bs[i].kind == kind {
            if found.is_some() {
                proof {
                    lemma_filter_grows(bs@, p, i as int + 1);
                }
                let mut m = owned("duplicate ");
                let name = kind_name(kind);
                push_str(&mut m, name.as_str());
                push_str(&mut m, " box");
                return Err(invalid(m.as_str()));
            }
            found = Some(bs[i]);
        }
        i = i + 1;
    }
    assert(bs@.take(bs@.len() as int) =~= bs@);
    Ok(found)
}

proof fn lemma_filter_grows(s: Seq<BoxRange>, p: spec_fn(BoxRange) -> bool, n: int)
    requires
        0 <= n <= s.len(),
    ensures
        s.filter(p).len() >= s.take(n).filter(p).len(),
    decreases s.len() - n,
{
    if n < s.len() {
        assert(s.take(n + 1) =~= s.take(n).push(s[n]));
        s.take(n).lemma_filter_push(s[n], p);
        lemma_filter_grows(s, p, n + 1);
    } else {
        assert(s.take(n) =~= s);
    }
}

/// A box's payload, when it is at most `limit` bytes.
pub open spec fn payload(input: Seq<u8>, b: BoxRange, limit: int) -> Result<Seq<u8>, Seq<char>> {
    if b.end - b.start > limit {
        Err("oversized control box"@)
    } else {
        Ok(input.subrange(b.start as int, b.end as int))
    }
}

pub fn bytes(input: &[u8], b: BoxRange, limit: usize) -> (r: Result<Vec<u8>, ExportError>)
    requires
        b.start <= b.end <= input@.len(),
    ensures
        r matches Ok(v) ==> payload(input@, b, limit as int) == Ok::<Seq<u8>, Seq<char>>(v@),
        r matches Err(e) ==> payload(input@, b, limit as int) matches Err(t) && refuses(e, t),
{
    if b.end - b.start > limit as u64 {
        return Err(invalid("oversized control box"));
    }
    let n = input.len();
    let mut v: Vec<u8> = Vec::new();
    crate::bytes::extend(&mut v, &input[b.start as usize..b.end as usize]);
    Ok(v)
}

/// A big-endian field of a control box.
pub open spec fn field32(s: Seq<u8>, off: int) -> Result<u32, Seq<char>> {
    if off + 4 > s.len() { Err("truncated control field"@) } else { Ok(be32(s, off) as u32) }
}

pub open spec fn field64(s: Seq<u8>, off: int) -> Result<u64, Seq<char>> {
    if off + 8 > s.len() { Err("truncated control field"@) } else { Ok(be64(s, off) as u64) }
}

pub fn u32_at(s: &[u8], off: usize) -> (r: Result<u32, ExportError>)
    requires
        off <= 64,
    ensures
        r matches Ok(v) ==> field32(s@, off as int) == Ok::<u32, Seq<char>>(v),
        r matches Err(e) ==> field32(s@, off as int) matches Err(t) && refuses(e, t),
{
    if s.len() < off + 4 {
        return Err(invalid("truncated control field"));
    }
    Ok(read_u32(s, off))
}

pub fn u64_at(s: &[u8], off: usize) -> (r: Result<u64, ExportError>)
    requires
        off <= 64,
    ensures
        r matches Ok(v) ==> field64(s@, off as int) == Ok::<u64, Seq<char>>(v),
        r matches Err(e) ==> field64(s@, off as int) matches Err(t) && refuses(e, t),
{
    if s.len() < off + 8 {
        return Err(invalid("truncated control field"));
    }
    Ok(read_u64(s, off))
}

pub const TKHD: u32 = 0x746b6864;
pub const EDTS: u32 = 0x65647473;
pub const ELST: u32 = 0x656c7374;
pub const TREF: u32 = 0x74726566;
pub const AUXL: u32 = 0x6175786c;
pub const PREM: u32 = 0x7072656d;
pub const MDIA: u32 = 0x6d646961;
pub const MINF: u32 = 0x6d696e66;
pub const STBL: u32 = 0x7374626c;
pub const STSD: u32 = 0x73747364;
pub const AV01: u32 = 0x61763031;
pub const AUXI: u32 = 0x61757869;
pub const MDHD: u32 = 0x6d646864;

/// Whether an exec result reports a spec result, or cancellation.
pub open spec fn reports<T>(r: Result<T, ExportError>, s: Result<T, Seq<char>>) -> bool {
    match r {
        Ok(v) => s == Ok::<T, Seq<char>>(v),
        Err(e) => e is Cancelled || (s matches Err(t) && refuses(e, t)),
    }
}

/// The auxiliary type that marks alpha samples.
pub open spec fn alpha_urn() -> Seq<u8> {
    seq![0u8, 0, 0, 0, 117, 114, 110, 58, 109, 112, 101, 103, 58, 109, 112, 101, 103, 66, 58, 99, 105, 99, 112, 58, 115, 121, 115, 116, 101, 109, 115, 58, 97, 117, 120, 105, 108, 105, 97, 114, 121, 58, 97, 108, 112, 104, 97, 0]
}

fn alpha_urn_bytes() -> (r: Vec<u8>)
    ensures
        r@ == alpha_urn(),
{
    let r = vec![0u8, 0, 0, 0, 117, 114, 110, 58, 109, 112, 101, 103, 58, 109, 112, 101, 103, 66, 58, 99, 105, 99, 112, 58, 115, 121, 115, 116, 101, 109, 115, 58, 97, 117, 120, 105, 108, 105, 97, 114, 121, 58, 97, 108, 112, 104, 97, 0];
    assert(r@ =~= alpha_urn());
    r
}

/// The timing controls of one track.
#[derive(Clone, Copy, Debug, Eq, PartialEq, Structural)]
pub struct Track {
    pub id: u32,
    pub timescale: u32,
    pub duration: u64,
    /// `None`: no edit list declares repetition; `Some(0)`: endless.
    pub loops: Option<u32>,
    pub alpha_for: Option<u32>,
    pub premultiplied_with: Option<u32>,
}

/// The track ID and duration of a track header.
pub open spec fn header_fields(input: Seq<u8>, children: Seq<BoxRange>) -> Result<(u32, u64), Seq<char>> {
    match one_of(children, TKHD) {
        Err(t) => Err(t),
        Ok(None) => Err("track has no tkhd"@),
        Ok(Some(b)) => match payload(input, b, 128) {
            Err(t) => Err(t),
            Ok(h) => if h.len() > 0 && h[0] == 0 {
                match field32(h, 12) {
                    Err(t) => Err(t),
                    Ok(id) => match field32(h, 20) { Err(t) => Err(t), Ok(d) => Ok((id, d as u64)) },
                }
            } else if h.len() > 0 && h[0] == 1 {
                match field32(h, 20) {
                    Err(t) => Err(t),
                    Ok(id) => match field64(h, 28) { Err(t) => Err(t), Ok(d) => Ok((id, d)) },
                }
            } else {
                Err("unsupported tkhd version"@)
            },
        },
    }
}

/// Smallest whole number of segments that cover `duration`.
pub open spec fn cycles(duration: int, segment: int) -> int {
    (duration + segment - 1) / segment
}

/// Whole segments needed to cover a duration: the quotient, plus one for a
/// remainder.
proof fn lemma_cycles(d: int, s: int)
    requires
        s > 0,
        d >= 0,
    ensures
        cycles(d, s) == d / s + if d % s == 0 { 0int } else { 1int },
{
    vstd::arithmetic::div_mod::lemma_fundamental_div_mod(d, s);
    let q = d / s;
    let r = d % s;
    assert(d + s - 1 == s * q + r + s - 1);
    if r == 0 {
        assert(d + s - 1 == q * s + (s - 1)) by (nonlinear_arith)
            requires d == s * q + r, r == 0;
        vstd::arithmetic::div_mod::lemma_fundamental_div_mod_converse(d + s - 1, s, q, s - 1);
    } else {
        assert(d + s - 1 == (q + 1) * s + (r - 1)) by (nonlinear_arith)
            requires d == s * q + r;
        vstd::arithmetic::div_mod::lemma_fundamental_div_mod_converse(d + s - 1, s, q + 1, r - 1);
    }
}

/// Repetition that one edit-list segment declares: one play without the
/// repeat flag, otherwise the cycles of the track duration (0: endless,
/// when the count exceeds the signed 32-bit range).
pub open spec fn segment_loops(ed: Seq<u8>, duration: u64) -> Result<Option<u32>, Seq<char>> {
    let v0 = ed.len() == 20 && ed[0] == 0;
    let v1 = ed.len() == 28 && ed[0] == 1;
    if !(v0 || v1) {
        Err("invalid elst version or length"@)
    } else {
        let segment = if v0 { be32(ed, 8) } else { be64(ed, 8) };
        let time = if v0 { be32(ed, 12) } else { be64(ed, 16) };
        let rate = if v0 { be32(ed, 16) } else { be32(ed, 24) };
        if segment == 0 || time != 0 || rate != 65536 || ed[1] != 0 || ed[2] != 0 || ed[3] > 1 {
            Err("unsupported edit-list time, rate or flags"@)
        } else if ed[3] == 0 {
            Ok(Some(1u32))
        } else if duration == 0 {
            Err("repeating track has zero duration"@)
        } else {
            let count = cycles(duration as int, segment);
            Ok(Some(if count > 0x7fffffff { 0u32 } else { count as u32 }))
        }
    }
}

/// The repetition a track's edit list declares, if it has one.
pub open spec fn edit_loops(input: Seq<u8>, children: Seq<BoxRange>, duration: u64) -> Result<Option<u32>, Seq<char>> {
    match one_of(children, EDTS) {
        Err(t) => Err(t),
        Ok(None) => Ok(None),
        Ok(Some(e)) => match box_list(input, e.start as int, e.end as int) {
            Err(t) => Err(t),
            Ok(edits) => match one_of(edits, ELST) {
                Err(t) => Err(t),
                Ok(None) => Err("edts has no elst"@),
                Ok(Some(l)) => match payload(input, l, 64) {
                    Err(t) => Err(t),
                    Ok(ed) => match field32(ed, 4) {
                        Err(t) => Err(t),
                        Ok(count) => if count != 1 {
                            Err("multiple edit-list segments are not supported"@)
                        } else {
                            segment_loops(ed, duration)
                        },
                    },
                },
            },
        },
    }
}

/// The track that a reference of a kind names, if any.
pub open spec fn reference_of(input: Seq<u8>, refs: Seq<BoxRange>, kind: u32) -> Result<Option<u32>, Seq<char>> {
    match one_of(refs, kind) {
        Err(t) => Err(t),
        Ok(None) => Ok(None),
        Ok(Some(b)) => match payload(input, b, 4) {
            Err(t) => Err(t),
            Ok(v) => match field32(v, 0) { Err(t) => Err(t), Ok(x) => Ok(Some(x)) },
        },
    }
}

/// The alpha and premultiplication references of a track.
pub open spec fn references_of(input: Seq<u8>, children: Seq<BoxRange>) -> Result<(Option<u32>, Option<u32>), Seq<char>> {
    match one_of(children, TREF) {
        Err(t) => Err(t),
        Ok(None) => Ok((None, None)),
        Ok(Some(r)) => match box_list(input, r.start as int, r.end as int) {
            Err(t) => Err(t),
            Ok(refs) => match reference_of(input, refs, AUXL) {
                Err(t) => Err(t),
                Ok(a) => match reference_of(input, refs, PREM) { Err(t) => Err(t), Ok(p) => Ok((a, p)) },
            },
        },
    }
}

/// The sample description of an alpha track: one AV1 entry whose
/// auxiliary type is alpha.
pub open spec fn alpha_description(input: Seq<u8>, stbl: Seq<BoxRange>) -> Result<(), Seq<char>> {
    match one_of(stbl, STSD) {
        Err(t) => Err(t),
        Ok(None) => Err("missing alpha stsd"@),
        Ok(Some(d)) => if d.end - d.start < 8 {
            Err("truncated sample descriptions"@)
        } else {
            match box_list(input, d.start + 8, d.end as int) {
                Err(t) => Err(t),
                Ok(ds) => if ds.len() != 1 || ds[0].kind != AV01 {
                    Err("unsupported alpha sample description"@)
                } else if ds[0].end - ds[0].start < 78 {
                    Err("truncated visual sample entry"@)
                } else {
                    match box_list(input, ds[0].start + 78, ds[0].end as int) {
                        Err(t) => Err(t),
                        Ok(props) => match one_of(props, AUXI) {
                            Err(t) => Err(t),
                            Ok(None) => Err("missing alpha type"@),
                            Ok(Some(a)) => match payload(input, a, 48) {
                                Err(t) => Err(t),
                                Ok(v) => if v != alpha_urn() { Err("unsupported auxiliary type"@) } else { Ok(()) },
                            },
                        },
                    }
                },
            }
        },
    }
}

/// The media of an alpha track must describe alpha samples.
pub open spec fn alpha_media(input: Seq<u8>, media: Seq<BoxRange>) -> Result<(), Seq<char>> {
    match one_of(media, MINF) {
        Err(t) => Err(t),
        Ok(None) => Err("missing alpha sample table"@),
        Ok(Some(m)) => match box_list(input, m.start as int, m.end as int) {
            Err(t) => Err(t),
            Ok(minf) => match one_of(minf, STBL) {
                Err(t) => Err(t),
                Ok(None) => Err("missing alpha sample table"@),
                Ok(Some(b)) => match box_list(input, b.start as int, b.end as int) {
                    Err(t) => Err(t),
                    Ok(stbl) => alpha_description(input, stbl),
                },
            },
        },
    }
}

/// The time base and duration of a track's media header.
pub open spec fn media_fields(input: Seq<u8>, media: Seq<BoxRange>) -> Result<(u32, u64), Seq<char>> {
    match one_of(media, MDHD) {
        Err(t) => Err(t),
        Ok(None) => Err("track has no mdhd"@),
        Ok(Some(b)) => match payload(input, b, 64) {
            Err(t) => Err(t),
            Ok(h) => {
                let fields = if h.len() > 0 && h[0] == 0 {
                    match field32(h, 12) {
                        Err(t) => Err(t),
                        Ok(ts) => match field32(h, 16) { Err(t) => Err(t), Ok(d) => Ok((ts, d as u64)) },
                    }
                } else if h.len() > 0 && h[0] == 1 {
                    match field32(h, 20) {
                        Err(t) => Err(t),
                        Ok(ts) => match field64(h, 24) { Err(t) => Err(t), Ok(d) => Ok((ts, d)) },
                    }
                } else {
                    Err("unsupported mdhd version"@)
                };
                match fields {
                    Err(t) => Err(t),
                    Ok((ts, d)) => if ts == 0 || ts > 0x7fffffff || d == 0 {
                        Err("invalid media time base or duration"@)
                    } else {
                        Ok((ts, d))
                    },
                }
            },
        },
    }
}

/// The controls of one track box.
pub open spec fn track_of(input: Seq<u8>, item: BoxRange) -> Result<Track, Seq<char>> {
    match box_list(input, item.start as int, item.end as int) {
        Err(t) => Err(t),
        Ok(children) => match header_fields(input, children) {
            Err(t) => Err(t),
            Ok((id, duration)) => if id == 0 {
                Err("invalid track ID"@)
            } else {
                match edit_loops(input, children, duration) {
                    Err(t) => Err(t),
                    Ok(loops) => match references_of(input, children) {
                        Err(t) => Err(t),
                        Ok((alpha_for, premultiplied_with)) => match one_of(children, MDIA) {
                            Err(t) => Err(t),
                            Ok(None) => Err("track has no mdia"@),
                            Ok(Some(m)) => match box_list(input, m.start as int, m.end as int) {
                                Err(t) => Err(t),
                                Ok(media) => match (if alpha_for is Some { alpha_media(input, media) } else { Ok(()) }) {
                                    Err(t) => Err(t),
                                    Ok(_) => match media_fields(input, media) {
                                        Err(t) => Err(t),
                                        Ok((timescale, d)) => Ok(Track { id, timescale, duration: d, loops, alpha_for, premultiplied_with }),
                                    },
                                },
                            },
                        },
                    },
                }
            },
        },
    }
}

fn track_header(input: &[u8], children: &[BoxRange]) -> (r: Result<(u32, u64), ExportError>)
    requires
        boxes_within(children@, input@.len() as int),
    ensures
        reports(r, header_fields(input@, children@)),
        !(r matches Err(ExportError::Cancelled)),
{
    let b = match one(children, TKHD) {
        Ok(Some(b)) => b,
        Ok(None) => return Err(invalid("track has no tkhd")),
        Err(e) => return Err(e),
    };
    let h = match bytes(input, b, 128) {
        Ok(h) => h,
        Err(e) => return Err(e),
    };
    if h.len() > 0 && h[0] == 0 {
        let id = match u32_at(h.as_slice(), 12) { Ok(v) => v, Err(e) => return Err(e) };
        let d = match u32_at(h.as_slice(), 20) { Ok(v) => v, Err(e) => return Err(e) };
        Ok((id, d as u64))
    } else if h.len() > 0 && h[0] == 1 {
        let id = match u32_at(h.as_slice(), 20) { Ok(v) => v, Err(e) => return Err(e) };
        let d = match u64_at(h.as_slice(), 28) { Ok(v) => v, Err(e) => return Err(e) };
        Ok((id, d))
    } else {
        Err(invalid("unsupported tkhd version"))
    }
}

fn segment_repeats(ed: &[u8], duration: u64) -> (r: Result<Option<u32>, ExportError>)
    ensures
        reports(r, segment_loops(ed@, duration)),
{
    let v0 = ed.len() == 20 && ed[0] == 0;
    let v1 = ed.len() == 28 && ed[0] == 1;
    if !(v0 || v1) {
        return Err(invalid("invalid elst version or length"));
    }
    let segment: u64 = if v0 { read_u32(ed, 8) as u64 } else { read_u64(ed, 8) };
    let time: u64 = if v0 { read_u32(ed, 12) as u64 } else { read_u64(ed, 16) };
    let rate: u32 = if v0 { read_u32(ed, 16) } else { read_u32(ed, 24) };
    if segment == 0 || time != 0 || rate != 65536 || ed[1] != 0 || ed[2] != 0 || ed[3] > 1 {
        return Err(invalid("unsupported edit-list time, rate or flags"));
    }
    if ed[3] == 0 {
        return Ok(Some(1));
    }
    if duration == 0 {
        return Err(invalid("repeating track has zero duration"));
    }
    let q = duration / segment;
    let count: u64 = if duration % segment == 0 {
        q
    } else {
        assert(q < u64::MAX) by (nonlinear_arith)
            requires segment > 0, duration % segment != 0, q == duration / segment;
        q + 1
    };
    proof { lemma_cycles(duration as int, segment as int); }
    Ok(Some(if count > 0x7fffffff { 0 } else { count as u32 }))
}

fn track_loops(input: &[u8], children: &[BoxRange], duration: u64, cancelled: &AtomicBool) -> (r: Result<Option<u32>, ExportError>)
    requires
        boxes_within(children@, input@.len() as int),
    ensures
        reports(r, edit_loops(input@, children@, duration)),
{
    let e = match one(children, EDTS) {
        Ok(Some(e)) => e,
        Ok(None) => return Ok(None),
        Err(err) => return Err(err),
    };
    let edits = match boxes(input, e.start, e.end, cancelled) { Ok(v) => v, Err(err) => return Err(err) };
    let l = match one(edits.as_slice(), ELST) {
        Ok(Some(l)) => l,
        Ok(None) => return Err(invalid("edts has no elst")),
        Err(err) => return Err(err),
    };
    let ed = match bytes(input, l, 64) { Ok(v) => v, Err(err) => return Err(err) };
    let count = match u32_at(ed.as_slice(), 4) { Ok(v) => v, Err(err) => return Err(err) };
    if count != 1 {
        return Err(invalid("multiple edit-list segments are not supported"));
    }
    segment_repeats(ed.as_slice(), duration)
}

fn reference(input: &[u8], refs: &[BoxRange], kind: u32) -> (r: Result<Option<u32>, ExportError>)
    requires
        boxes_within(refs@, input@.len() as int),
    ensures
        reports(r, reference_of(input@, refs@, kind)),
{
    let b = match one(refs, kind) {
        Ok(Some(b)) => b,
        Ok(None) => return Ok(None),
        Err(e) => return Err(e),
    };
    let v = match bytes(input, b, 4) { Ok(v) => v, Err(e) => return Err(e) };
    match u32_at(v.as_slice(), 0) {
        Ok(x) => Ok(Some(x)),
        Err(e) => Err(e),
    }
}

fn track_references(input: &[u8], children: &[BoxRange], cancelled: &AtomicBool) -> (r: Result<(Option<u32>, Option<u32>), ExportError>)
    requires
        boxes_within(children@, input@.len() as int),
    ensures
        reports(r, references_of(input@, children@)),
{
    let b = match one(children, TREF) {
        Ok(Some(b)) => b,
        Ok(None) => return Ok((None, None)),
        Err(e) => return Err(e),
    };
    let refs = match boxes(input, b.start, b.end, cancelled) { Ok(v) => v, Err(e) => return Err(e) };
    let a = match reference(input, refs.as_slice(), AUXL) { Ok(v) => v, Err(e) => return Err(e) };
    let p = match reference(input, refs.as_slice(), PREM) { Ok(v) => v, Err(e) => return Err(e) };
    Ok((a, p))
}

fn alpha_entry(input: &[u8], stbl: &[BoxRange], cancelled: &AtomicBool) -> (r: Result<(), ExportError>)
    requires
        boxes_within(stbl@, input@.len() as int),
    ensures
        reports(r, alpha_description(input@, stbl@)),
{
    let d = match one(stbl, STSD) {
        Ok(Some(d)) => d,
        Ok(None) => return Err(invalid("missing alpha stsd")),
        Err(e) => return Err(e),
    };
    if d.end - d.start < 8 {
        return Err(invalid("truncated sample descriptions"));
    }
    let ds = match boxes(input, d.start + 8, d.end, cancelled) { Ok(v) => v, Err(e) => return Err(e) };
    if ds.len() != 1 || ds[0].kind != AV01 {
        return Err(invalid("unsupported alpha sample description"));
    }
    let entry = ds[0];
    if entry.end - entry.start < 78 {
        return Err(invalid("truncated visual sample entry"));
    }
    let props = match boxes(input, entry.start + 78, entry.end, cancelled) { Ok(v) => v, Err(e) => return Err(e) };
    let a = match one(props.as_slice(), AUXI) {
        Ok(Some(a)) => a,
        Ok(None) => return Err(invalid("missing alpha type")),
        Err(e) => return Err(e),
    };
    let v = match bytes(input, a, 48) { Ok(v) => v, Err(e) => return Err(e) };
    let urn = alpha_urn_bytes();
    if !crate::bytes::same_bytes(v.as_slice(), urn.as_slice()) {
        return Err(invalid("unsupported auxiliary type"));
    }
    Ok(())
}

fn alpha_samples(input: &[u8], media: &[BoxRange], cancelled: &AtomicBool) -> (r: Result<(), ExportError>)
    requires
        boxes_within(media@, input@.len() as int),
    ensures
        reports(r, alpha_media(input@, media@)),
{
    let m = match one(media, MINF) {
        Ok(Some(m)) => m,
        Ok(None) => return Err(invalid("missing alpha sample table")),
        Err(e) => return Err(e),
    };
    let minf = match boxes(input, m.start, m.end, cancelled) { Ok(v) => v, Err(e) => return Err(e) };
    let b = match one(minf.as_slice(), STBL) {
        Ok(Some(b)) => b,
        Ok(None) => return Err(invalid("missing alpha sample table")),
        Err(e) => return Err(e),
    };
    let stbl = match boxes(input, b.start, b.end, cancelled) { Ok(v) => v, Err(e) => return Err(e) };
    alpha_entry(input, stbl.as_slice(), cancelled)
}

fn media_header(input: &[u8], media: &[BoxRange]) -> (r: Result<(u32, u64), ExportError>)
    requires
        boxes_within(media@, input@.len() as int),
    ensures
        reports(r, media_fields(input@, media@)),
{
    let b = match one(media, MDHD) {
        Ok(Some(b)) => b,
        Ok(None) => return Err(invalid("track has no mdhd")),
        Err(e) => return Err(e),
    };
    let h = match bytes(input, b, 64) { Ok(v) => v, Err(e) => return Err(e) };
    let (ts, d): (u32, u64) = if h.len() > 0 && h[0] == 0 {
        let ts = match u32_at(h.as_slice(), 12) { Ok(v) => v, Err(e) => return Err(e) };
        let d = match u32_at(h.as_slice(), 16) { Ok(v) => v, Err(e) => return Err(e) };
        (ts, d as u64)
    } else if h.len() > 0 && h[0] == 1 {
        let ts = match u32_at(h.as_slice(), 20) { Ok(v) => v, Err(e) => return Err(e) };
        let d = match u64_at(h.as_slice(), 24) { Ok(v) => v, Err(e) => return Err(e) };
        (ts, d)
    } else {
        return Err(invalid("unsupported mdhd version"));
    };
    if ts == 0 || ts > 0x7fffffff || d == 0 {
        return Err(invalid("invalid media time base or duration"));
    }
    Ok((ts, d))
}

/// Reads the controls of one track box.
pub fn track(input: &[u8], item: BoxRange, cancelled: &AtomicBool) -> (r: Result<Track, ExportError>)
    requires
        item.start <= item.end <= input@.len(),
    ensures
        reports(r, track_of(input@, item)),
        r matches Err(ExportError::Cancelled) ==> item.start < item.end,
{
    let children = match boxes(input, item.start, item.end, cancelled) { Ok(v) => v, Err(e) => return Err(e) };
    let (id, duration) = match track_header(input, children.as_slice()) { Ok(v) => v, Err(e) => return Err(e) };
    if id == 0 {
        return Err(invalid("invalid track ID"));
    }
    let loops = match track_loops(input, children.as_slice(), duration, cancelled) { Ok(v) => v, Err(e) => return Err(e) };
    let (alpha_for, premultiplied_with) = match track_references(input, children.as_slice(), cancelled) { Ok(v) => v, Err(e) => return Err(e) };
    let m = match one(children.as_slice(), MDIA) {
        Ok(Some(m)) => m,
        Ok(None) => return Err(invalid("track has no mdia")),
        Err(e) => return Err(e),
    };
    let media = match boxes(input, m.start, m.end, cancelled) { Ok(v) => v, Err(e) => return Err(e) };
    if alpha_for.is_some() {
        match alpha_samples(input, media.as_slice(), cancelled) {
            Ok(()) => {},
            Err(e) => return Err(e),
        }
    }
    let (timescale, d) = match media_header(input, media.as_slice()) { Ok(v) => v, Err(e) => return Err(e) };
    Ok(Track { id, timescale, duration: d, loops, alpha_for, premultiplied_with })
}

pub const FTYP: u32 = 0x66747970;
pub const MOOV: u32 = 0x6d6f6f76;
pub const TRAK: u32 = 0x7472616b;
pub const BRAND_AVIF: u32 = 0x61766966;
pub const BRAND_AVIS: u32 = 0x61766973;

/// Whether a file type box names AVIF: whole brands after the major brand
/// and minor version, one of which (other than the minor version) is
/// `avif` or `avis`.
pub open spec fn avif_brands(b: Seq<u8>) -> bool {
    &&& b.len() >= 8
    &&& b.len() % 4 == 0
    &&& exists|i: int| 0 <= i < b.len() / 4 && i != 1 && (#[trigger] brand_at(b, i) == BRAND_AVIF || brand_at(b, i) == BRAND_AVIS)
}

/// The `i`-th four-byte brand.
pub open spec fn brand_at(b: Seq<u8>, i: int) -> int {
    be32(b, 4 * i)
}

/// The tracks of the track boxes among `bs[from..]`.
pub open spec fn tracks_from(input: Seq<u8>, bs: Seq<BoxRange>, from: int, acc: Seq<Track>) -> Result<Seq<Track>, Seq<char>>
    decreases bs.len() - from,
{
    if from < 0 || from >= bs.len() {
        Ok(acc)
    } else if bs[from].kind != TRAK {
        tracks_from(input, bs, from + 1, acc)
    } else {
        match track_of(input, bs[from]) {
            Err(t) => Err(t),
            Ok(tr) => tracks_from(input, bs, from + 1, acc.push(tr)),
        }
    }
}

/// The first track without an alpha reference.
pub open spec fn color_of(ts: Seq<Track>) -> Option<int> {
    if exists|i: int| 0 <= i < ts.len() && ts[i].alpha_for is None {
        Some(choose|i: int| 0 <= i < ts.len() && ts[i].alpha_for is None
            && forall|j: int| 0 <= j < i ==> ts[j].alpha_for is Some)
    } else {
        None
    }
}

/// The tracks of a movie: a color track and at most one alpha track
/// linked to it, with distinct IDs.
pub open spec fn movie_tracks(input: Seq<u8>, movie: Seq<BoxRange>) -> Result<Option<Seq<Track>>, Seq<char>> {
    match tracks_from(input, movie, 0, Seq::empty()) {
        Err(t) => Err(t),
        Ok(ts) => if ts.len() == 0 || ts.len() > 2 {
            Err("expected a color track and optional alpha track"@)
        } else if ts.len() == 2 && ts[0].id == ts[1].id {
            Err("duplicate track IDs"@)
        } else {
            match color_of(ts) {
                None => Err("missing color track"@),
                Some(c) => if ts.len() == 2 && !(ts[0].alpha_for == Some(ts[c].id) || ts[1].alpha_for == Some(ts[c].id)) {
                    Err("second track is not linked alpha"@)
                } else {
                    Ok(Some(ts))
                },
            }
        },
    }
}

/// The track controls of an AVIF file: `None` for a still image without a
/// movie.
pub open spec fn sequence_tracks(input: Seq<u8>) -> Result<Option<Seq<Track>>, Seq<char>> {
    match box_list(input, 0, input.len() as int) {
        Err(t) => Err(t),
        Ok(root) => match one_of(root, FTYP) {
            Err(t) => Err(t),
            Ok(None) => Err("missing ftyp"@),
            Ok(Some(f)) => match payload(input, f, 4096) {
                Err(t) => Err(t),
                Ok(brands) => if !avif_brands(brands) {
                    Err("not an AVIF container"@)
                } else {
                    match one_of(root, MOOV) {
                        Err(t) => Err(t),
                        Ok(None) => Ok(None),
                        Ok(Some(m)) => match box_list(input, m.start as int, m.end as int) {
                            Err(t) => Err(t),
                            Ok(movie) => movie_tracks(input, movie),
                        },
                    }
                },
            },
        },
    }
}

fn brands_valid(b: &[u8]) -> (r: bool)
    ensures
        r == avif_brands(b@),
{
    if b.len() < 8 || b.len() % 4 != 0 {
        return false;
    }
    let n = b.len();
    let count = n / 4;
    let mut i: usize = 0;
    let mut off: usize = 0;
    while i < count
        invariant
            n == b@.len(),
            n >= 8,
            count == b@.len() / 4,
            b@.len() % 4 == 0,
            i <= count,
            off == 4 * i,
            forall|k: int| 0 <= k < i && k != 1 ==> !(#[trigger] brand_at(b@, k) == BRAND_AVIF || brand_at(b@, k) == BRAND_AVIS),
        decreases count - i,
    {
        assert(off + 4 <= b@.len()) by (nonlinear_arith)
            requires i < count, count == b@.len() / 4, b@.len() % 4 == 0, off == 4 * i;
        let brand = read_u32(b, off);
        assert(brand == brand_at(b@, i as int));
        if i != 1 && (brand == BRAND_AVIF || brand == BRAND_AVIS) {
            return true;
        }
        i = i + 1;
        off = off + 4;
    }
    false
}

/// Reads the track controls of an AVIF file: the color track, and an alpha
/// track when one is linked to it.
pub fn read_tracks(input: &[u8], cancelled: &AtomicBool) -> (r: Result<Option<Vec<Track>>, ExportError>)
    ensures
        r matches Ok(Some(ts)) ==> sequence_tracks(input@) == Ok::<Option<Seq<Track>>, Seq<char>>(Some(ts@)),
        r matches Ok(None) ==> sequence_tracks(input@) == Ok::<Option<Seq<Track>>, Seq<char>>(None),
        r matches Err(e) ==> e is Cancelled || (sequence_tracks(input@) matches Err(t) && refuses(e, t)),
{
    match check_cancelled(cancelled) {
        Ok(()) => {},
        Err(e) => return Err(e),
    }
    let n = input.len();
    let root = match boxes(input, 0, n as u64, cancelled) { Ok(v) => v, Err(e) => return Err(e) };
    let f = match one(root.as_slice(), FTYP) {
        Ok(Some(f)) => f,
        Ok(None) => return Err(invalid("missing ftyp")),
        Err(e) => return Err(e),
    };
    let brands = match bytes(input, f, 4096) { Ok(v) => v, Err(e) => return Err(e) };
    if !brands_valid(brands.as_slice()) {
        return Err(invalid("not an AVIF container"));
    }
    let m = match one(root.as_slice(), MOOV) {
        Ok(Some(m)) => m,
        Ok(None) => return Ok(None),
        Err(e) => return Err(e),
    };
    let movie = match boxes(input, m.start, m.end, cancelled) { Ok(v) => v, Err(e) => return Err(e) };
    assert(sequence_tracks(input@) == movie_tracks(input@, movie@));
    let mut tracks: Vec<Track> = Vec::new();
    let mut i: usize = 0;
    while i < movie.len()
        invariant
            i <= movie@.len(),
            boxes_within(movie@, input@.len() as int),
            sequence_tracks(input@) == movie_tracks(input@, movie@),
            tracks_from(input@, movie@, 0, Seq::empty()) == tracks_from(input@, movie@, i as int, tracks@),
        decreases movie@.len() - i,
    {
        if movie[i].kind == TRAK {
            let t = match track(input, movie[i], cancelled) { Ok(t) => t, Err(e) => return Err(e) };
            tracks.push(t);
        }
        i = i + 1;
    }
    let ghost ts = tracks@;
    if tracks.len() == 0 || tracks.len() > 2 {
        return Err(invalid("expected a color track and optional alpha track"));
    }
    if tracks.len() == 2 && tracks[0].id == tracks[1].id {
        return Err(invalid("duplicate track IDs"));
    }
    let c: usize = if tracks[0].alpha_for.is_none() {
        0
    } else if tracks.len() == 2 && tracks[1].alpha_for.is_none() {
        1
    } else {
        proof {
            assert forall|i: int| 0 <= i < ts.len() implies ts[i].alpha_for is Some by {
                if i != 0 { assert(i == 1); }
            }
        }
        return Err(invalid("missing color track"));
    };
    proof {
        assert(ts[c as int].alpha_for is None);
        let w = choose|i: int| 0 <= i < ts.len() && ts[i].alpha_for is None && forall|j: int| 0 <= j < i ==> ts[j].alpha_for is Some;
        assert(0 <= c < ts.len() && ts[c as int].alpha_for is None && forall|j: int| 0 <= j < c ==> ts[j].alpha_for is Some);
        assert(w == c as int);
    }
    let color = tracks[c].id;
    if tracks.len() == 2 && !(tracks[0].alpha_for == Some(color) || tracks[1].alpha_for == Some(color)) {
        return Err(invalid("second track is not linked alpha"));
    }
    Ok(Some(tracks))
}

/// Sample timing of one decoded track: presentation time and duration of
/// each sample, in the track's time base.
#[derive(Debug)]
pub struct Samples {
    pub index: usize,
    pub id: u32,
    pub size: (u32, u32),
    pub time_base: crate::edits::Rational,
    pub times: Vec<(i64, i64)>,
}

/// Whether two tick counts, each in its own time base, are the same time.
pub open spec fn same_time(a: int, b: int, left: crate::edits::Rational, right: crate::edits::Rational) -> bool {
    a * left.numerator * right.denominator == b * right.numerator * left.denominator
}

/// Whether sample `k` of two tracks starts at the same time after each
/// track's first sample, and lasts as long.
pub open spec fn sample_agrees(left: Samples, right: Samples, k: int) -> bool {
    let l = left.times@;
    let r = right.times@;
    &&& same_time(l[k].0 - l[0].0, r[k].0 - r[0].0, left.time_base, right.time_base)
    &&& same_time(l[k].1 as int, r[k].1 as int, left.time_base, right.time_base)
}

/// Whether two tracks show their samples at the same times, measured from
/// their first sample, for the same durations.
pub open spec fn timing_matches(left: Samples, right: Samples) -> bool {
    &&& left.times@.len() == right.times@.len()
    &&& forall|i: int| 0 <= i < left.times@.len() ==> #[trigger] sample_agrees(left, right, i)
}

fn same_ticks(a: i128, b: i128, left: crate::edits::Rational, right: crate::edits::Rational) -> (r: bool)
    requires
        -0x10000000000000000 <= a <= 0x10000000000000000,
        -0x10000000000000000 <= b <= 0x10000000000000000,
    ensures
        r == same_time(a as int, b as int, left, right),
{
    let ln = left.numerator as i128;
    let ld = left.denominator as i128;
    let rn = right.numerator as i128;
    let rd = right.denominator as i128;
    assert(-0x10000000000000000 * 0x80000000 <= a * ln <= 0x10000000000000000 * 0x80000000) by (nonlinear_arith)
        requires -0x10000000000000000 <= a <= 0x10000000000000000, -0x80000000 <= ln <= 0x80000000;
    assert(-0x10000000000000000 * 0x80000000 * 0x80000000 <= a * ln * rd <= 0x10000000000000000 * 0x80000000 * 0x80000000) by (nonlinear_arith)
        requires -0x10000000000000000 * 0x80000000 <= a * ln <= 0x10000000000000000 * 0x80000000, -0x80000000 <= rd <= 0x80000000;
    assert(-0x10000000000000000 * 0x80000000 <= b * rn <= 0x10000000000000000 * 0x80000000) by (nonlinear_arith)
        requires -0x10000000000000000 <= b <= 0x10000000000000000, -0x80000000 <= rn <= 0x80000000;
    assert(-0x10000000000000000 * 0x80000000 * 0x80000000 <= b * rn * ld <= 0x10000000000000000 * 0x80000000 * 0x80000000) by (nonlinear_arith)
        requires -0x10000000000000000 * 0x80000000 <= b * rn <= 0x10000000000000000 * 0x80000000, -0x80000000 <= ld <= 0x80000000;
    a * ln * rd == b * rn * ld
}

/// Compares the sample timing of two tracks.
pub fn same_timing(left: &Samples, right: &Samples) -> (r: bool)
    ensures
        r == timing_matches(*left, *right),
{
    let n = left.times.len();
    if n != right.times.len() {
        return false;
    }
    if n == 0 {
        return true;
    }
    let l0 = left.times[0].0;
    let r0 = right.times[0].0;
    let mut i: usize = 0;
    while i < n
        invariant
            n == left.times@.len(),
            n == right.times@.len(),
            n > 0,
            l0 == left.times@[0].0,
            r0 == right.times@[0].0,
            i <= n,
            forall|k: int| 0 <= k < i ==> #[trigger] sample_agrees(*left, *right, k),
        decreases n - i,
    {
        let (lt, ld) = left.times[i];
        let (rt, rd) = right.times[i];
        let a = lt as i128 - l0 as i128;
        let b = rt as i128 - r0 as i128;
        let first = same_ticks(a, b, left.time_base, right.time_base);
        let second = same_ticks(ld as i128, rd as i128, left.time_base, right.time_base);
        assert(lt == left.times@[i as int].0 && rt == right.times@[i as int].0);
        assert(first == same_time(left.times@[i as int].0 - left.times@[0].0, right.times@[i as int].0 - right.times@[0].0, left.time_base, right.time_base));
        assert(second == same_time(left.times@[i as int].1 as int, right.times@[i as int].1 as int, left.time_base, right.time_base));
        if !first || !second {
            assert(!sample_agrees(*left, *right, i as int));
            return false;
        }
        assert(sample_agrees(*left, *right, i as int));
        i = i + 1;
    }
    true
}

pub const MVHD: u32 = 0x6d766864;
pub const HDLR: u32 = 0x68646c72;
pub const STTS: u32 = 0x73747473;
pub const STSZ: u32 = 0x7374737a;
pub const BTRT: u32 = 0x62747274;
pub const FIEL: u32 = 0x6669656c;
pub const STSS: u32 = 0x73747373;
pub const STSC: u32 = 0x73747363;
pub const STCO: u32 = 0x7374636f;
pub const CO64: u32 = 0x636f3634;
pub const VMHD: u32 = 0x766d6864;
pub const DINF: u32 = 0x64696e66;
pub const AV1C: u32 = 0x61763143;
pub const COLR: u32 = 0x636f6c72;
pub const PASP: u32 = 0x70617370;
pub const FREE: u32 = 0x66726565;
pub const MDAT: u32 = 0x6d646174;
pub const VIDE: u32 = 0x76696465;
pub const PICT: u32 = 0x70696374;
pub const AUXV: u32 = 0x61757876;

/// Most bytes of the rewritten movie metadata and of each box in it.
pub const SINGLE_LIMIT: usize = 1048576;

/// The timing that a single-frame sequence is given.
#[derive(Clone, Copy, Debug, Eq, PartialEq, Structural)]
pub struct Movie {
    pub timescale: u32,
    pub duration: u32,
    pub total: u64,
    pub loops: u32,
}

/// A box with a payload of at most the limit.
pub open spec fn atom_of(kind: u32, payload: Seq<u8>) -> Result<Seq<u8>, Seq<char>> {
    if payload.len() > SINGLE_LIMIT {
        Err("single-frame movie metadata exceeds limit"@)
    } else {
        Ok(atom_bytes(kind, payload))
    }
}

/// The bytes of a box: size, kind, payload.
pub open spec fn atom_bytes(kind: u32, payload: Seq<u8>) -> Seq<u8> {
    be32_bytes(payload.len() + 8int) + be32_bytes(kind as int) + payload
}

fn atom(kind: u32, payload: &[u8]) -> (r: Result<Vec<u8>, ExportError>)
    ensures
        reports_bytes(r, atom_of(kind, payload@)),
{
    if payload.len() > SINGLE_LIMIT {
        return Err(invalid("single-frame movie metadata exceeds limit"));
    }
    let mut v = crate::bytes::u32_bytes((payload.len() + 8) as u32);
    let k = crate::bytes::u32_bytes(kind);
    crate::bytes::extend(&mut v, k.as_slice());
    crate::bytes::extend(&mut v, payload);
    Ok(v)
}

/// Whether an exec result reports a byte result, or cancellation.
pub open spec fn reports_bytes(r: Result<Vec<u8>, ExportError>, s: Result<Seq<u8>, Seq<char>>) -> bool {
    match r {
        Ok(v) => s == Ok::<Seq<u8>, Seq<char>>(v@),
        Err(e) => e is Cancelled || (s matches Err(t) && refuses(e, t)),
    }
}

/// Bytes of a container's payload before its children.
pub open spec fn container_prefix(kind: u32) -> Option<int> {
    if kind == TRAK || kind == MDIA || kind == MINF || kind == STBL {
        Some(0)
    } else if kind == STSD {
        Some(8)
    } else if kind == AV01 {
        Some(78)
    } else {
        None
    }
}

/// The children that a single-frame movie may hold in each container.
pub open spec fn child_allowed(parent: u32, child: u32) -> bool {
    if parent == TRAK {
        child == TKHD || child == MDIA
    } else if parent == MDIA {
        child == MDHD || child == HDLR || child == MINF
    } else if parent == MINF {
        child == VMHD || child == DINF || child == STBL
    } else if parent == STBL {
        child == STSD || child == STTS || child == STSS || child == STSC || child == STSZ || child == STCO || child == CO64
    } else if parent == STSD {
        child == AV01
    } else if parent == AV01 {
        child == AV1C || child == COLR || child == PASP || child == BTRT || child == FIEL
    } else {
        false
    }
}

/// One edit-list segment for the movie's cycle, repeating unless it plays once.
pub open spec fn edit_entry(m: Movie) -> Seq<u8> {
    seq![1u8, 0, 0, if m.loops != 1 { 1u8 } else { 0u8 }] + be32_bytes(1) + crate::bytes::be64_bytes(m.duration as int)
        + crate::bytes::be64_bytes(0) + be32_bytes(65536)
}

/// What a container gains: the alpha type on the alpha sample entry; the
/// edit list on each track, and the alpha reference on the alpha track.
pub open spec fn container_extra(m: Movie, kind: u32, track: int) -> Seq<u8> {
    if kind == AV01 && track == 1 {
        atom_bytes(AUXI, alpha_urn())
    } else if kind == TRAK {
        atom_bytes(EDTS, atom_bytes(ELST, edit_entry(m)))
            + if track == 1 { atom_bytes(TREF, atom_bytes(AUXL, be32_bytes(1))) } else { Seq::empty() }
    } else {
        Seq::empty()
    }
}

/// A generated leaf box adapted to the sequence: headers get version 1,
/// zero times, the movie's time base and durations; the handler names a
/// picture or auxiliary track; the one sample time lasts the duration.
pub open spec fn leaf_rewritten(m: Movie, kind: u32, data: Seq<u8>, track: int) -> Result<Seq<u8>, Seq<char>> {
    if kind == MVHD || kind == MDHD || kind == TKHD {
        if data.len() == 0 || data[0] > 1 {
            Err("invalid generated header version"@)
        } else {
            let wide = data[0] == 1;
            let th = kind == TKHD;
            let offset: int = if wide { 20 } else { 12 };
            let suffix: int = offset + (if th { 8int } else { 4int }) + (if wide { 8int } else { 4int });
            if data.len() < suffix {
                Err("truncated generated header"@)
            } else if th && data.subrange(offset, offset + 4) != be32_bytes(track + 1) {
                Err("unexpected generated track ID"@)
            } else {
                atom_of(kind, seq![1u8] + data.subrange(1, 4) + Seq::new(16, |i: int| 0u8)
                    + (if th { data.subrange(offset, offset + 8) } else { be32_bytes(m.timescale as int) })
                    + crate::bytes::be64_bytes(if kind == MDHD { m.duration as int } else { m.total as int })
                    + data.skip(suffix))
            }
        }
    } else if kind == HDLR {
        if data.len() < 12 || be32(data, 8) != VIDE {
            Err("unexpected generated handler"@)
        } else {
            atom_of(kind, data.take(8) + be32_bytes(if track == 0 { PICT as int } else { AUXV as int }) + data.skip(12))
        }
    } else if kind == STTS {
        if data.len() != 16 || data.take(12) != seq![0u8, 0, 0, 0, 0, 0, 0, 1, 0, 0, 0, 1] {
            Err("expected one generated sample time"@)
        } else {
            atom_of(kind, data.take(12) + be32_bytes(m.duration as int))
        }
    } else if kind == STSZ && (data.len() < 12 || be32(data, 8) != 1) {
        Err("expected one generated sample"@)
    } else {
        atom_of(kind, data)
    }
}

/// A container's box once its children are rewritten.
pub open spec fn container_result(kind: u32, extra: Seq<u8>, children: Result<Seq<u8>, Seq<char>>) -> Result<Seq<u8>, Seq<char>> {
    match children {
        Err(t) => Err(t),
        Ok(body) => atom_of(kind, body + extra),
    }
}

/// How many children a container box has, when they can be listed.
pub open spec fn kids_len(input: Seq<u8>, item: BoxRange) -> int {
    match container_prefix(item.kind) {
        Some(p) => match box_list(input, item.start + p, item.end as int) {
            Ok(cs) => cs.len() as int,
            Err(_) => 0,
        },
        None => 0,
    }
}

/// A box of the generated movie rewritten for the sequence (`i < 0`), or
/// the rest of a container's children from `i` on after `acc`. Children
/// must be allowed in their container; bitrate boxes are dropped, and
/// field-order boxes once they declare progressive frames.
#[verifier::opaque]
pub open spec fn node(input: Seq<u8>, m: Movie, item: BoxRange, track: int, i: int, acc: Seq<u8>) -> Result<Seq<u8>, Seq<char>>
    decreases item.end - item.start, (if i < 0 { 1int } else { 0int }), kids_len(input, item) - i,
{
    if i < 0 {
        match payload(input, item, SINGLE_LIMIT as int) {
            Err(t) => Err(t),
            Ok(data) => match container_prefix(item.kind) {
                Some(p) => if data.len() < p || (item.kind == STSD && data.take(8) != seq![0u8, 0, 0, 0, 0, 0, 0, 1]) {
                    Err("invalid single-frame sample description"@)
                } else if item.end < item.start + p {
                    Err("invalid single-frame sample description"@)
                } else {
                    match box_list(input, item.start + p, item.end as int) {
                        Err(t) => Err(t),
                        Ok(_) => container_result(item.kind, container_extra(m, item.kind, track),
                            node(input, m, item, track, 0, data.take(p))),
                    }
                },
                None => leaf_rewritten(m, item.kind, data, track),
            },
        }
    } else {
        match container_prefix(item.kind) {
            None => Ok(acc),
            Some(p) => match box_list(input, item.start + p, item.end as int) {
                Err(t) => Err(t),
                Ok(children) => if i >= children.len() {
                    Ok(acc)
                } else {
                    let c = children[i];
                    if !child_allowed(item.kind, c.kind) {
                        Err("unexpected single-frame child "@ + kind_text(c.kind) + " in "@ + kind_text(item.kind))
                    } else if c.kind == BTRT {
                        node(input, m, item, track, i + 1, acc)
                    } else if c.kind == FIEL {
                        match payload(input, c, 2) {
                            Err(t) => Err(t),
                            Ok(v) => if v != seq![1u8, 0] {
                                Err("non-progressive single-frame sample"@)
                            } else {
                                node(input, m, item, track, i + 1, acc)
                            },
                        }
                    } else if !(c.start <= c.end && c.end - c.start < item.end - item.start) {
                        Err("box exceeds parent bounds"@)
                    } else {
                        match node(input, m, c, track, -1, Seq::empty()) {
                            Err(t) => Err(t),
                            Ok(b) => node(input, m, item, track, i + 1, acc + b),
                        }
                    }
                },
            },
        }
    }
}

/// A box of the generated movie, rewritten for the sequence.
pub open spec fn rewritten(input: Seq<u8>, m: Movie, item: BoxRange, track: int) -> Result<Seq<u8>, Seq<char>> {
    node(input, m, item, track, -1, Seq::empty())
}

proof fn lemma_node_whole(input: Seq<u8>, m: Movie, item: BoxRange, track: int)
    ensures
        node(input, m, item, track, -1, Seq::empty()) == match payload(input, item, SINGLE_LIMIT as int) {
            Err(t) => Err(t),
            Ok(data) => match container_prefix(item.kind) {
                Some(p) => if data.len() < p || (item.kind == STSD && data.take(8) != seq![0u8, 0, 0, 0, 0, 0, 0, 1]) {
                    Err("invalid single-frame sample description"@)
                } else if item.end < item.start + p {
                    Err("invalid single-frame sample description"@)
                } else {
                    match box_list(input, item.start + p, item.end as int) {
                        Err(t) => Err(t),
                        Ok(_) => container_result(item.kind, container_extra(m, item.kind, track),
                            node(input, m, item, track, 0, data.take(p))),
                    }
                },
                None => leaf_rewritten(m, item.kind, data, track),
            },
        },
{
    reveal_with_fuel(node, 1);
}

proof fn lemma_node_step(input: Seq<u8>, m: Movie, item: BoxRange, track: int, i: int, acc: Seq<u8>, p: int, children: Seq<BoxRange>)
    requires
        0 <= i,
        container_prefix(item.kind) == Some(p),
        box_list(input, item.start + p, item.end as int) == Ok::<Seq<BoxRange>, Seq<char>>(children),
    ensures
        node(input, m, item, track, i, acc) == if i >= children.len() {
            Ok(acc)
        } else {
            let c = children[i];
            if !child_allowed(item.kind, c.kind) {
                Err("unexpected single-frame child "@ + kind_text(c.kind) + " in "@ + kind_text(item.kind))
            } else if c.kind == BTRT {
                node(input, m, item, track, i + 1, acc)
            } else if c.kind == FIEL {
                match payload(input, c, 2) {
                    Err(t) => Err(t),
                    Ok(v) => if v != seq![1u8, 0] {
                        Err("non-progressive single-frame sample"@)
                    } else {
                        node(input, m, item, track, i + 1, acc)
                    },
                }
            } else if !(c.start <= c.end && c.end - c.start < item.end - item.start) {
                Err("box exceeds parent bounds"@)
            } else {
                match node(input, m, c, track, -1, Seq::empty()) {
                    Err(t) => Err(t),
                    Ok(b) => node(input, m, item, track, i + 1, acc + b),
                }
            }
        },
{
    reveal_with_fuel(node, 1);
}

fn zeros(n: usize) -> (r: Vec<u8>)
    ensures
        r@ == Seq::new(n as nat, |i: int| 0u8),
{
    let mut r: Vec<u8> = Vec::new();
    let mut i: usize = 0;
    while i < n
        invariant
            i <= n,
            r@ == Seq::new(i as nat, |k: int| 0u8),
        decreases n - i,
    {
        r.push(0);
        i = i + 1;
        assert(r@ =~= Seq::new(i as nat, |k: int| 0u8));
    }
    r
}

fn slice_vec(s: &[u8], a: usize, b: usize) -> (r: Vec<u8>)
    requires
        a <= b <= s@.len(),
    ensures
        r@ == s@.subrange(a as int, b as int),
{
    let mut r: Vec<u8> = Vec::new();
    crate::bytes::extend(&mut r, &s[a..b]);
    r
}

fn allowed_child(parent: u32, child: u32) -> (r: bool)
    requires
        container_prefix(parent) is Some,
    ensures
        r == child_allowed(parent, child),
{
    if parent == TRAK {
        child == TKHD || child == MDIA
    } else if parent == MDIA {
        child == MDHD || child == HDLR || child == MINF
    } else if parent == MINF {
        child == VMHD || child == DINF || child == STBL
    } else if parent == STBL {
        child == STSD || child == STTS || child == STSS || child == STSC || child == STSZ || child == STCO || child == CO64
    } else if parent == STSD {
        child == AV01
    } else {
        child == AV1C || child == COLR || child == PASP || child == BTRT || child == FIEL
    }
}

fn refused_child(parent: u32, child: u32) -> (e: ExportError)
    ensures
        refuses(e, "unexpected single-frame child "@ + kind_text(child) + " in "@ + kind_text(parent)),
{
    let mut m = owned("unexpected single-frame child ");
    let child_name = kind_name(child);
    push_str(&mut m, child_name.as_str());
    push_str(&mut m, " in ");
    let parent_name = kind_name(parent);
    push_str(&mut m, parent_name.as_str());
    invalid(m.as_str())
}

impl Movie {
    fn leaf(&self, kind: u32, data: Vec<u8>, track: usize) -> (r: Result<Vec<u8>, ExportError>)
        requires
            track <= 1,
        ensures
            reports_bytes(r, leaf_rewritten(*self, kind, data@, track as int)),
    {
        if kind == MVHD || kind == MDHD || kind == TKHD {
            if data.len() == 0 || data[0] > 1 {
                return Err(invalid("invalid generated header version"));
            }
            let wide = data[0] == 1;
            let th = kind == TKHD;
            let offset: usize = if wide { 20 } else { 12 };
            let suffix: usize = offset + (if th { 8 } else { 4 }) + (if wide { 8 } else { 4 });
            if data.len() < suffix {
                return Err(invalid("truncated generated header"));
            }
            if th {
                let id = crate::bytes::u32_bytes((track + 1) as u32);
                if !crate::bytes::same_bytes(&data.as_slice()[offset..offset + 4], id.as_slice()) {
                    return Err(invalid("unexpected generated track ID"));
                }
            }
            let mut header: Vec<u8> = vec![1u8];
            crate::bytes::extend(&mut header, &data.as_slice()[1..4]);
            let z = zeros(16);
            crate::bytes::extend(&mut header, z.as_slice());
            if th {
                crate::bytes::extend(&mut header, &data.as_slice()[offset..offset + 8]);
            } else {
                let t = crate::bytes::u32_bytes(self.timescale);
                crate::bytes::extend(&mut header, t.as_slice());
            }
            let d = crate::bytes::u64_bytes(if kind == MDHD { self.duration as u64 } else { self.total });
            crate::bytes::extend(&mut header, d.as_slice());
            crate::bytes::extend(&mut header, &data.as_slice()[suffix..data.len()]);
            proof {
                assert(seq![1u8] + data@.subrange(1, 4) =~= seq![1u8].add(data@.subrange(1, 4)));
            }
            assert(header@ =~= seq![1u8] + data@.subrange(1, 4) + Seq::new(16, |i: int| 0u8)
                + (if th { data@.subrange(offset as int, offset as int + 8) } else { be32_bytes(self.timescale as int) })
                + crate::bytes::be64_bytes(if kind == MDHD { self.duration as int } else { self.total as int })
                + data@.skip(suffix as int));
            return atom(kind, header.as_slice());
        }
        if kind == HDLR {
            if data.len() < 12 || read_u32(data.as_slice(), 8) != VIDE {
                return Err(invalid("unexpected generated handler"));
            }
            let mut v = slice_vec(data.as_slice(), 0, 8);
            let name = crate::bytes::u32_bytes(if track == 0 { PICT } else { AUXV });
            crate::bytes::extend(&mut v, name.as_slice());
            crate::bytes::extend(&mut v, &data.as_slice()[12..data.len()]);
            assert(data@.subrange(0, 8) =~= data@.take(8));
            assert(v@ =~= data@.take(8) + be32_bytes(if track == 0 { PICT as int } else { AUXV as int }) + data@.skip(12));
            return atom(kind, v.as_slice());
        }
        if kind == STTS {
            let expected: Vec<u8> = vec![0u8, 0, 0, 0, 0, 0, 0, 1, 0, 0, 0, 1];
            if data.len() != 16 || !crate::bytes::same_bytes(&data.as_slice()[0..12], expected.as_slice()) {
                proof {
                    assert(expected@ =~= seq![0u8, 0, 0, 0, 0, 0, 0, 1, 0, 0, 0, 1]);
                    assert(data@.subrange(0, 12) =~= data@.take(12));
                }
                return Err(invalid("expected one generated sample time"));
            }
            assert(expected@ =~= seq![0u8, 0, 0, 0, 0, 0, 0, 1, 0, 0, 0, 1]);
            let mut v = slice_vec(data.as_slice(), 0, 12);
            let d = crate::bytes::u32_bytes(self.duration);
            crate::bytes::extend(&mut v, d.as_slice());
            assert(data@.subrange(0, 12) =~= data@.take(12));
            return atom(kind, v.as_slice());
        }
        if kind == STSZ && (data.len() < 12 || read_u32(data.as_slice(), 8) != 1) {
            return Err(invalid("expected one generated sample"));
        }
        atom(kind, data.as_slice())
    }

    fn extra(&self, kind: u32, track: usize) -> (r: Vec<u8>)
        requires
            track <= 1,
        ensures
            r@ == container_extra(*self, kind, track as int),
    {
        if kind == AV01 && track == 1 {
            let urn = alpha_urn_bytes();
            let mut v = crate::bytes::u32_bytes(56);
            let k = crate::bytes::u32_bytes(AUXI);
            crate::bytes::extend(&mut v, k.as_slice());
            crate::bytes::extend(&mut v, urn.as_slice());
            return v;
        }
        if kind == TRAK {
            let mut entry: Vec<u8> = vec![1u8, 0, 0, if self.loops != 1 { 1u8 } else { 0u8 }];
            let one = crate::bytes::u32_bytes(1);
            crate::bytes::extend(&mut entry, one.as_slice());
            let d = crate::bytes::u64_bytes(self.duration as u64);
            crate::bytes::extend(&mut entry, d.as_slice());
            let z = crate::bytes::u64_bytes(0);
            crate::bytes::extend(&mut entry, z.as_slice());
            let rate = crate::bytes::u32_bytes(65536);
            crate::bytes::extend(&mut entry, rate.as_slice());
            assert(entry@ =~= edit_entry(*self));
            let mut elst = crate::bytes::u32_bytes(28 + 8);
            let ek = crate::bytes::u32_bytes(ELST);
            crate::bytes::extend(&mut elst, ek.as_slice());
            crate::bytes::extend(&mut elst, entry.as_slice());
            assert(elst@ =~= atom_bytes(ELST, edit_entry(*self)));
            let mut v = crate::bytes::u32_bytes(36 + 8);
            let dk = crate::bytes::u32_bytes(EDTS);
            crate::bytes::extend(&mut v, dk.as_slice());
            crate::bytes::extend(&mut v, elst.as_slice());
            assert(v@ =~= atom_bytes(EDTS, atom_bytes(ELST, edit_entry(*self))));
            if track == 1 {
                let mut auxl = crate::bytes::u32_bytes(12);
                let ak = crate::bytes::u32_bytes(AUXL);
                crate::bytes::extend(&mut auxl, ak.as_slice());
                crate::bytes::extend(&mut auxl, one.as_slice());
                assert(auxl@ =~= atom_bytes(AUXL, be32_bytes(1)));
                let mut tref = crate::bytes::u32_bytes(20);
                let tk = crate::bytes::u32_bytes(TREF);
                crate::bytes::extend(&mut tref, tk.as_slice());
                crate::bytes::extend(&mut tref, auxl.as_slice());
                assert(tref@ =~= atom_bytes(TREF, atom_bytes(AUXL, be32_bytes(1))));
                crate::bytes::extend(&mut v, tref.as_slice());
            }
            return v;
        }
        Vec::new()
    }

    /// Rewrites one box of the generated movie for the sequence.
    pub fn rewrite(&self, input: &[u8], item: BoxRange, track: usize, cancelled: &AtomicBool) -> (r: Result<Vec<u8>, ExportError>)
        requires
            item.start <= item.end <= input@.len(),
            track <= 1,
        ensures
            reports_bytes(r, rewritten(input@, *self, item, track as int)),
        decreases item.end - item.start,
    {
        proof { lemma_node_whole(input@, *self, item, track as int); }
        match check_cancelled(cancelled) {
            Ok(()) => {},
            Err(e) => return Err(e),
        }
        let data = match bytes(input, item, SINGLE_LIMIT) {
            Ok(v) => v,
            Err(e) => return Err(e),
        };
        let prefix: usize = if item.kind == TRAK || item.kind == MDIA || item.kind == MINF || item.kind == STBL {
            0
        } else if item.kind == STSD {
            8
        } else if item.kind == AV01 {
            78
        } else {
            return self.leaf(item.kind, data, track);
        };
        if data.len() < prefix {
            return Err(invalid("invalid single-frame sample description"));
        }
        if item.kind == STSD {
            let expected: Vec<u8> = vec![0u8, 0, 0, 0, 0, 0, 0, 1];
            assert(expected@ =~= seq![0u8, 0, 0, 0, 0, 0, 0, 1]);
            assert(data@.subrange(0, 8) =~= data@.take(8));
            if !crate::bytes::same_bytes(&data.as_slice()[0..8], expected.as_slice()) {
                return Err(invalid("invalid single-frame sample description"));
            }
        }
        let children = match boxes(input, item.start + prefix as u64, item.end, cancelled) {
            Ok(v) => v,
            Err(e) => return Err(e),
        };
        let mut body = slice_vec(data.as_slice(), 0, prefix);
        assert(data@.subrange(0, prefix as int) =~= data@.take(prefix as int));
        let ghost head = data@.take(prefix as int);
        assert(rewritten(input@, *self, item, track as int) == container_result(item.kind, container_extra(*self, item.kind, track as int),
            node(input@, *self, item, track as int, 0, head)));
        let mut i: usize = 0;
        while i < children.len()
            invariant
                i <= children@.len(),
                item.start <= item.end <= input@.len(),
                track <= 1,
                container_prefix(item.kind) == Some(prefix as int),
                box_list(input@, item.start + prefix, item.end as int) == Ok::<Seq<BoxRange>, Seq<char>>(children@),
                boxes_layout(children@, item.start + prefix, item.end as int),
                node(input@, *self, item, track as int, 0, head) == node(input@, *self, item, track as int, i as int, body@),
                rewritten(input@, *self, item, track as int) == container_result(item.kind, container_extra(*self, item.kind, track as int),
                    node(input@, *self, item, track as int, 0, head)),
            decreases children@.len() - i,
        {
            proof { lemma_node_step(input@, *self, item, track as int, i as int, body@, prefix as int, children@); }
            let c = children[i];
            if !allowed_child(item.kind, c.kind) {
                return Err(refused_child(item.kind, c.kind));
            }
            if c.kind == FIEL {
                let v = match bytes(input, c, 2) {
                    Ok(v) => v,
                    Err(e) => return Err(e),
                };
                let progressive: Vec<u8> = vec![1u8, 0];
                assert(progressive@ =~= seq![1u8, 0]);
                if !crate::bytes::same_bytes(v.as_slice(), progressive.as_slice()) {
                    return Err(invalid("non-progressive single-frame sample"));
                }
            } else if c.kind != BTRT {
                let b = match self.rewrite(input, c, track, cancelled) {
                    Ok(v) => v,
                    Err(e) => return Err(e),
                };
                crate::bytes::extend(&mut body, b.as_slice());
            }
            i = i + 1;
        }
        proof { lemma_node_step(input@, *self, item, track as int, i as int, body@, prefix as int, children@); }
        let extra = self.extra(item.kind, track);
        crate::bytes::extend(&mut body, extra.as_slice());
        atom(item.kind, body.as_slice())
    }
}

pub const MSF1: u32 = 0x6d736631;
pub const ISO8: u32 = 0x69736f38;
pub const MIAF: u32 = 0x6d696166;

/// The timing of a single-frame sequence: its time base, the duration of
/// its frame, and how often it plays (0: endlessly).
#[derive(Clone, Copy, Debug, Eq, PartialEq, Structural)]
pub struct SequenceTiming {
    pub time_base: crate::edits::Rational,
    pub single_duration: Option<u32>,
    pub loops: u32,
}

/// The movie timing, or why the sequence timing is refused.
pub open spec fn movie_of(t: SequenceTiming) -> Result<Movie, Seq<char>> {
    if t.time_base.numerator != 1 || t.time_base.denominator <= 0 {
        Err("invalid single-frame time base"@)
    } else {
        match t.single_duration {
            Some(d) => if d > 0 {
                Ok(Movie {
                    timescale: t.time_base.denominator as u32,
                    duration: d,
                    total: if t.loops == 0 { u64::MAX } else { (d * t.loops) as u64 },
                    loops: t.loops,
                })
            } else {
                Err("missing single-frame duration"@)
            },
            None => Err("missing single-frame duration"@),
        }
    }
}

/// The brand at position `i` after the major brand and minor version.
pub open spec fn sequence_brand(i: int) -> u32 {
    if i == 0 { BRAND_AVIS } else if i == 1 { MSF1 } else if i == 2 { ISO8 } else { MIAF }
}

/// Brands of a sequence in `n` bytes: major brand `avis`, minor version
/// zero, then `avis`, `msf1`, `iso8` and `miaf` repeated to fill.
pub open spec fn sequence_brands(n: int) -> Seq<u8> {
    Seq::new(n as nat, |k: int| if k < 4 { be32_bytes(BRAND_AVIS as int)[k] } else if k < 8 { 0u8 } else {
        be32_bytes(sequence_brand((k - 8) / 4) as int)[(k - 8) % 4]
    })
}

/// The rewritten movie children: each track with its index, and the movie
/// header; other children are dropped.
pub open spec fn movie_children(input: Seq<u8>, m: Movie, children: Seq<BoxRange>, i: int, track: int, acc: Seq<u8>) -> Result<Seq<u8>, Seq<char>>
    decreases children.len() - i,
{
    if i < 0 || i >= children.len() {
        Ok(acc)
    } else if children[i].kind == TRAK {
        match rewritten(input, m, children[i], track) {
            Err(t) => Err(t),
            Ok(b) => movie_children(input, m, children, i + 1, track + 1, acc + b),
        }
    } else if children[i].kind == MVHD {
        match rewritten(input, m, children[i], 0) {
            Err(t) => Err(t),
            Ok(b) => movie_children(input, m, children, i + 1, track, acc + b),
        }
    } else {
        movie_children(input, m, children, i + 1, track, acc)
    }
}

/// Whether a top-level box is one that the muxer writes.
pub open spec fn muxer_box(kind: u32) -> bool {
    kind == FTYP || kind == FREE || kind == MDAT || kind == MOOV
}

/// A single-frame movie turned into an AVIF sequence: sequence brands in
/// place of the file type's brands, and the movie box, which ends the
/// file, replaced by the rewritten one.
pub open spec fn finished(input: Seq<u8>, t: SequenceTiming, alpha: bool) -> Result<Seq<u8>, Seq<char>> {
    match movie_of(t) {
        Err(e) => Err(e),
        Ok(m) => match box_list(input, 0, input.len() as int) {
            Err(e) => Err(e),
            Ok(root) => match one_of(root, MOOV) {
                Err(e) => Err(e),
                Ok(None) => Err("missing single-frame movie"@),
                Ok(Some(moov)) => match one_of(root, FTYP) {
                    Err(e) => Err(e),
                    Ok(None) => Err("missing single-frame brands"@),
                    Ok(Some(ftyp)) => match one_of(root, MDAT) {
                        Err(e) => Err(e),
                        Ok(None) => Err("missing single-frame media"@),
                        Ok(Some(mdat)) => if moov.end != input.len() || moov.end - moov.header > SINGLE_LIMIT || mdat.end > moov.header
                            || exists|i: int| 0 <= i < root.len() && !muxer_box(#[trigger] root[i].kind) {
                            Err("unexpected single-frame muxer layout"@)
                        } else {
                            match payload(input, ftyp, 4096) {
                                Err(e) => Err(e),
                                Ok(brands) => if brands.len() < 24 || brands.len() % 4 != 0 {
                                    Err("insufficient sequence brand space"@)
                                } else {
                                    match box_list(input, moov.start as int, moov.end as int) {
                                        Err(e) => Err(e),
                                        Ok(children) => if children.filter(has_kind(TRAK)).len() != (if alpha { 2int } else { 1int }) {
                                            Err("unexpected single-frame track count"@)
                                        } else {
                                            match movie_children(input, m, children, 0, 0, Seq::empty()) {
                                                Err(e) => Err(e),
                                                Ok(data) => match atom_of(MOOV, data) {
                                                    Err(e) => Err(e),
                                                    Ok(a) => Ok(input.take(ftyp.start as int) + sequence_brands(brands.len() as int)
                                                        + input.subrange(ftyp.end as int, moov.header as int) + a),
                                                },
                                            }
                                        },
                                    }
                                },
                            }
                        },
                    },
                },
            },
        },
    }
}

fn brand_bytes(n: usize) -> (r: Vec<u8>)
    requires
        n >= 8,
        n % 4 == 0,
    ensures
        r@ == sequence_brands(n as int),
{
    let mut r = crate::bytes::u32_bytes(BRAND_AVIS);
    let z = zeros(4);
    crate::bytes::extend(&mut r, z.as_slice());
    assert(r@ =~= sequence_brands(n as int).take(8));
    let mut index: usize = 0;
    while r.len() < n
        invariant
            8 <= r@.len() <= n,
            n % 4 == 0,
            r@.len() == 8 + 4 * index,
            r@ == sequence_brands(n as int).take(r@.len() as int),
        decreases n - r@.len(),
    {
        let brand = if index == 0 { BRAND_AVIS } else if index == 1 { MSF1 } else if index == 2 { ISO8 } else { MIAF };
        assert(brand == sequence_brand(index as int));
        let b = crate::bytes::u32_bytes(brand);
        let ghost before = r@;
        crate::bytes::extend(&mut r, b.as_slice());
        assert(r@.len() <= n) by (nonlinear_arith)
            requires before.len() < n, n % 4 == 0, before.len() == 8 + 4 * index, r@.len() == before.len() + 4;
        assert forall|k: int| before.len() <= k < r@.len() implies r@[k] == sequence_brands(n as int)[k] by {
            assert((k - 8) / 4 == index as int && (k - 8) % 4 == k - before.len()) by (nonlinear_arith)
                requires before.len() <= k < before.len() + 4, before.len() == 8 + 4 * index;
        }
        assert(r@ =~= sequence_brands(n as int).take(r@.len() as int));
        index = index + 1;
    }
    assert(r@ =~= sequence_brands(n as int));
    r
}

proof fn lemma_before_last(root: Seq<BoxRange>, len: int, a: BoxRange, last: BoxRange)
    requires
        boxes_layout(root, 0, len),
        root.contains(a),
        root.contains(last),
        a.kind != last.kind,
        last.end == len,
    ensures
        a.end <= last.header,
{
    let i = choose|i: int| 0 <= i < root.len() && root[i] == a;
    let j = choose|j: int| 0 <= j < root.len() && root[j] == last;
    assert(i != j);
    if j < i {
        assert(root[j].end <= root[i].header);
    } else {
        assert(root[i].end <= root[j].header);
    }
}

fn count_tracks(children: &Vec<BoxRange>) -> (r: usize)
    ensures
        r == children@.filter(has_kind(TRAK)).len(),
{
    let ghost p = has_kind(TRAK);
    let mut n: usize = 0;
    let mut i: usize = 0;
    while i < children.len()
        invariant
            i <= children@.len(),
            p == has_kind(TRAK),
            n == children@.take(i as int).filter(p).len(),
            n <= i,
        decreases children@.len() - i,
    {
        assert(children@.take(i as int + 1) =~= children@.take(i as int).push(children@[i as int]));
        proof { children@.take(i as int).lemma_filter_push(children@[i as int], p); }
        if children[i].kind == TRAK {
            n = n + 1;
        }
        i = i + 1;
    }
    assert(children@.take(children@.len() as int) =~= children@);
    n
}

/// The finished file once the movie's children are rewritten.
pub open spec fn finish_tail(input: Seq<u8>, ftyp: BoxRange, moov: BoxRange, brands: int, children: Result<Seq<u8>, Seq<char>>) -> Result<Seq<u8>, Seq<char>> {
    match children {
        Err(e) => Err(e),
        Ok(data) => match atom_of(MOOV, data) {
            Err(e) => Err(e),
            Ok(a) => Ok(input.take(ftyp.start as int) + sequence_brands(brands) + input.subrange(ftyp.end as int, moov.header as int) + a),
        },
    }
}

/// Turns the single-frame movie that the encoder wrote into an AVIF
/// sequence of one frame with the given timing, without moving media data.
pub fn finish(input: &[u8], timing: SequenceTiming, alpha: bool, cancelled: &AtomicBool) -> (r: Result<Vec<u8>, ExportError>)
    ensures
        reports_bytes(r, finished(input@, timing, alpha)),
{
    match check_cancelled(cancelled) {
        Ok(()) => {},
        Err(e) => return Err(e),
    }
    if timing.time_base.numerator != 1 || timing.time_base.denominator <= 0 {
        return Err(invalid("invalid single-frame time base"));
    }
    let duration = match timing.single_duration {
        Some(d) => if d > 0 { d } else { return Err(invalid("missing single-frame duration")) },
        None => return Err(invalid("missing single-frame duration")),
    };
    let movie = Movie {
        timescale: timing.time_base.denominator as u32,
        duration,
        total: if timing.loops == 0 { u64::MAX } else {
            assert(duration as u64 * timing.loops as u64 <= u64::MAX) by (nonlinear_arith)
                requires duration <= u32::MAX, timing.loops <= u32::MAX;
            duration as u64 * timing.loops as u64
        },
        loops: timing.loops,
    };
    assert(movie_of(timing) == Ok::<Movie, Seq<char>>(movie));
    let length = input.len();
    let root = match boxes(input, 0, length as u64, cancelled) { Ok(v) => v, Err(e) => return Err(e) };
    let moov = match one(root.as_slice(), MOOV) {
        Ok(Some(b)) => b,
        Ok(None) => return Err(invalid("missing single-frame movie")),
        Err(e) => return Err(e),
    };
    let ftyp = match one(root.as_slice(), FTYP) {
        Ok(Some(b)) => b,
        Ok(None) => return Err(invalid("missing single-frame brands")),
        Err(e) => return Err(e),
    };
    let mdat = match one(root.as_slice(), MDAT) {
        Ok(Some(b)) => b,
        Ok(None) => return Err(invalid("missing single-frame media")),
        Err(e) => return Err(e),
    };
    let mut foreign = false;
    let mut i: usize = 0;
    while i < root.len()
        invariant
            i <= root@.len(),
            foreign <==> exists|k: int| 0 <= k < i && !muxer_box(#[trigger] root@[k].kind),
        decreases root@.len() - i,
    {
        let kind = root[i].kind;
        if !(kind == FTYP || kind == FREE || kind == MDAT || kind == MOOV) {
            foreign = true;
        }
        i = i + 1;
    }
    if moov.end != length as u64 || moov.end - moov.header > SINGLE_LIMIT as u64 || mdat.end > moov.header || foreign {
        return Err(invalid("unexpected single-frame muxer layout"));
    }
    let brands = match bytes(input, ftyp, 4096) { Ok(v) => v, Err(e) => return Err(e) };
    if brands.len() < 24 || brands.len() % 4 != 0 {
        return Err(invalid("insufficient sequence brand space"));
    }
    proof { lemma_before_last(root@, length as int, ftyp, moov); }
    let children = match boxes(input, moov.start, moov.end, cancelled) { Ok(v) => v, Err(e) => return Err(e) };
    let tracks = count_tracks(&children);
    if tracks != if alpha { 2 } else { 1 } {
        return Err(invalid("unexpected single-frame track count"));
    }
    assert(finished(input@, timing, alpha) == finish_tail(input@, ftyp, moov, brands@.len() as int,
        movie_children(input@, movie, children@, 0, 0, Seq::empty())));
    let mut data: Vec<u8> = Vec::new();
    let mut track: usize = 0;
    let mut k: usize = 0;
    while k < children.len()
        invariant
            k <= children@.len(),
            boxes_within(children@, input@.len() as int),
            track == children@.take(k as int).filter(has_kind(TRAK)).len(),
            children@.filter(has_kind(TRAK)).len() <= 2,
            movie_children(input@, movie, children@, 0, 0, Seq::empty()) == movie_children(input@, movie, children@, k as int, track as int, data@),
            finished(input@, timing, alpha) == finish_tail(input@, ftyp, moov, brands@.len() as int,
                movie_children(input@, movie, children@, 0, 0, Seq::empty())),
        decreases children@.len() - k,
    {
        match check_cancelled(cancelled) {
            Ok(()) => {},
            Err(e) => return Err(e),
        }
        assert(children@.take(k as int + 1) =~= children@.take(k as int).push(children@[k as int]));
        proof {
            children@.take(k as int).lemma_filter_push(children@[k as int], has_kind(TRAK));
            lemma_filter_grows(children@, has_kind(TRAK), k as int + 1);
        }
        let item = children[k];
        if item.kind == TRAK {
            let b = match movie.rewrite(input, item, track, cancelled) { Ok(v) => v, Err(e) => return Err(e) };
            crate::bytes::extend(&mut data, b.as_slice());
            track = track + 1;
        } else if item.kind == MVHD {
            let b = match movie.rewrite(input, item, 0, cancelled) { Ok(v) => v, Err(e) => return Err(e) };
            crate::bytes::extend(&mut data, b.as_slice());
        }
        k = k + 1;
    }
    let moov_atom = match atom(MOOV, data.as_slice()) { Ok(v) => v, Err(e) => return Err(e) };
    match check_cancelled(cancelled) {
        Ok(()) => {},
        Err(e) => return Err(e),
    }
    let mut output = slice_vec(input, 0, ftyp.start as usize);
    let new_brands = brand_bytes(brands.len());
    crate::bytes::extend(&mut output, new_brands.as_slice());
    crate::bytes::extend(&mut output, &input[ftyp.end as usize..moov.header as usize]);
    crate::bytes::extend(&mut output, moov_atom.as_slice());
    assert(input@.subrange(0, ftyp.start as int) =~= input@.take(ftyp.start as int));
    match check_cancelled(cancelled) {
        Ok(()) => {},
        Err(e) => return Err(e),
    }
    Ok(output)
}

} // verus!
