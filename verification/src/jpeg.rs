//! JPEG marker scanning: finds the standard XMP packet and, when asked,
//! rewrites the file with a replacement packet, copying every other marker
//! segment and all entropy-coded bytes unchanged.
use crate::bytes::{be16, be16_bytes, extend, find_byte, lemma_find_byte, position_of, read_u16, starts_with, u16_bytes};
use crate::error::{check_cancelled, ExportError};
use crate::text::{owned, push_str};
use std::sync::atomic::AtomicBool;
use vstd::prelude::*;

verus! {

/// Whether a path names a JPEG file.
pub fn jpeg_path(path: &str) -> (r: bool)
    ensures
        r == (crate::path::extension_is(path@, "jpg"@) || crate::path::extension_is(path@, "jpeg"@)),
{
    crate::path::extension_equals(path, "jpg") || crate::path::extension_equals(path, "jpeg")
}

/// Largest standard XMP packet after its namespace identifier.
pub const XMP_LIMIT: usize = 65502;

/// The identifier that opens a standard XMP APP1 segment.
pub open spec fn xmp_id() -> Seq<u8> {
    seq![104u8, 116, 116, 112, 58, 47, 47, 110, 115, 46, 97, 100, 111, 98, 101, 46, 99, 111, 109, 47, 120, 97, 112, 47, 49, 46, 48, 47, 0]
}

/// The identifier that opens an extended XMP APP1 segment.
pub open spec fn extended_id() -> Seq<u8> {
    seq![104u8, 116, 116, 112, 58, 47, 47, 110, 115, 46, 97, 100, 111, 98, 101, 46, 99, 111, 109, 47, 120, 109, 112, 47, 101, 120, 116, 101, 110, 115, 105, 111, 110, 47, 0]
}

fn xmp_identifier() -> (r: Vec<u8>)
    ensures
        r@ == xmp_id(),
{
    let r = vec![104u8, 116, 116, 112, 58, 47, 47, 110, 115, 46, 97, 100, 111, 98, 101, 46, 99, 111, 109, 47, 120, 97, 112, 47, 49, 46, 48, 47, 0];
    assert(r@ =~= xmp_id());
    r
}

fn extended_identifier() -> (r: Vec<u8>)
    ensures
        r@ == extended_id(),
{
    let r = vec![104u8, 116, 116, 112, 58, 47, 47, 110, 115, 46, 97, 100, 111, 98, 101, 46, 99, 111, 109, 47, 120, 109, 112, 47, 101, 120, 116, 101, 110, 115, 105, 111, 110, 47, 0];
    assert(r@ =~= extended_id());
    r
}

/// How a scan ends.
pub enum Scanned {
    /// The packet found, if any, and the rewritten bytes.
    Done(Option<Seq<u8>>, Seq<u8>),
    /// The input ended inside a marker or segment.
    Truncated,
    /// The input is not an acceptable JPEG stream.
    Invalid(Seq<char>),
}

/// The scanner's position and what it has seen.
pub struct JState {
    pub pos: int,
    pub entropy: bool,
    pub image_seen: bool,
    pub inserted: bool,
    pub count: int,
    pub packet: Option<Seq<u8>>,
    pub out: Seq<u8>,
}

pub enum JStep {
    Next(JState),
    Stop(Scanned),
}

/// First index at or after `q` that does not hold 0xFF, or the end.
pub open spec fn pad_end(s: Seq<u8>, q: int) -> int
    decreases s.len() - q,
{
    if q < 0 || q >= s.len() || s[q] != 0xff { if q < 0 { 0 } else if q > s.len() { s.len() as int } else { q } } else { pad_end(s, q + 1) }
}

/// End of the entropy-coded run starting at `p`: the next 0xFF or the end.
pub open spec fn run_end(s: Seq<u8>, p: int) -> int {
    match find_byte(s, p, 0xff) {
        Some(k) => k,
        None => s.len() as int,
    }
}

/// Bytes that go to the output, when one is written.
pub open spec fn emitted(out: Seq<u8>, write: bool, bytes: Seq<u8>) -> Seq<u8> {
    if write { out + bytes } else { out }
}

/// The APP1 segment that carries the replacement packet.
pub open spec fn xmp_segment(repl: Seq<u8>) -> Seq<u8> {
    seq![0xffu8, 0xe1u8] + be16_bytes(((repl.len() + xmp_id().len() + 2) % 65536) as int) + xmp_id() + repl
}

/// Whether a marker code keeps the replacement waiting: APP0 and APP1
/// segments come before the inserted packet.
pub open spec fn is_app01(code: u8) -> bool {
    code == 0xe0 || code == 0xe1
}

/// One step of the scan from `st`.
pub open spec fn jpeg_step(input: Seq<u8>, write: bool, repl: Seq<u8>, st: JState) -> JStep {
    let len = input.len() as int;
    let p = st.pos;
    if st.entropy && p >= len {
        JStep::Stop(Scanned::Invalid("missing end of image"@))
    } else if st.entropy && run_end(input, p) > p {
        let e = run_end(input, p);
        JStep::Next(JState { pos: e, out: emitted(st.out, write, input.subrange(p, e)), ..st })
    } else if p >= len {
        JStep::Stop(Scanned::Truncated)
    } else if input[p] != 0xff {
        JStep::Stop(Scanned::Invalid("expected marker"@))
    } else {
        let q = pad_end(input, p + 1);
        if q - p >= 4096 {
            if p + 4096 >= len {
                JStep::Stop(Scanned::Truncated)
            } else {
                JStep::Stop(Scanned::Invalid("excessive marker padding"@))
            }
        } else if q >= len {
            JStep::Stop(Scanned::Truncated)
        } else {
            let code = input[q];
            let marker = input.subrange(p, q + 1);
            let p1 = q + 1;
            if st.entropy && (code == 0 || (0xd0 <= code <= 0xd7)) {
                JStep::Next(JState { pos: p1, out: emitted(st.out, write, marker), ..st })
            } else if st.count + 1 > 65536 {
                JStep::Stop(Scanned::Invalid("too many marker segments"@))
            } else {
                let insert_now = !st.inserted && !is_app01(code);
                let out1 = if insert_now && write && repl.len() > 0 { st.out + xmp_segment(repl) } else { st.out };
                let inserted = st.inserted || insert_now;
                let count = st.count + 1;
                if code == 0xd9 {
                    if !st.image_seen {
                        JStep::Stop(Scanned::Invalid("JPEG has no image scan"@))
                    } else if p1 < len {
                        JStep::Stop(Scanned::Invalid("trailing data after JPEG image"@))
                    } else {
                        JStep::Stop(Scanned::Done(st.packet, emitted(out1, write, marker)))
                    }
                } else if code == 1 {
                    JStep::Next(JState { pos: p1, out: emitted(out1, write, marker), inserted, count, ..st })
                } else if code == 0 || (0xd0 <= code <= 0xd8) {
                    JStep::Stop(Scanned::Invalid("unexpected standalone marker"@))
                } else if p1 + 2 > len {
                    JStep::Stop(Scanned::Truncated)
                } else if be16(input, p1) < 2 {
                    JStep::Stop(Scanned::Invalid("invalid segment length"@))
                } else if p1 + be16(input, p1) > len {
                    JStep::Stop(Scanned::Truncated)
                } else {
                    let end = p1 + be16(input, p1);
                    let data = input.subrange(p1 + 2, end);
                    if code == 0xe1 && data.len() >= extended_id().len() && data.take(extended_id().len() as int) == extended_id() {
                        JStep::Stop(Scanned::Invalid("Extended XMP is not supported yet"@))
                    } else {
                        let is_xmp = code == 0xe1 && data.len() >= xmp_id().len() && data.take(xmp_id().len() as int) == xmp_id();
                        if is_xmp && st.packet is Some {
                            JStep::Stop(Scanned::Invalid("multiple standard XMP packets"@))
                        } else if is_xmp && data.len() - xmp_id().len() > XMP_LIMIT {
                            JStep::Stop(Scanned::Invalid("XMP packet exceeds 65502 bytes"@))
                        } else {
                            let packet = if is_xmp { Some(data.skip(xmp_id().len() as int)) } else { st.packet };
                            let out2 = if !is_xmp { emitted(out1, write, input.subrange(p, end)) } else { out1 };
                            JStep::Next(JState {
                                pos: end,
                                entropy: code == 0xda || (st.entropy && code == 0xdc),
                                image_seen: st.image_seen || code == 0xda,
                                inserted,
                                count,
                                packet,
                                out: out2,
                            })
                        }
                    }
                }
            }
        }
    }
}

/// The scan from `st` to its end.
pub open spec fn jpeg_run(input: Seq<u8>, write: bool, repl: Seq<u8>, st: JState) -> Scanned
    decreases input.len() - st.pos,
{
    match jpeg_step(input, write, repl, st) {
        JStep::Next(n) => if st.pos < n.pos <= input.len() { jpeg_run(input, write, repl, n) } else { Scanned::Truncated },
        JStep::Stop(s) => s,
    }
}

/// The whole scan: the start-of-image marker, then marker segments until
/// the end-of-image marker.
pub open spec fn jpeg_scan(input: Seq<u8>, write: bool, repl: Seq<u8>) -> Scanned {
    if input.len() < 2 {
        Scanned::Truncated
    } else if input[0] != 0xff || input[1] != 0xd8 {
        Scanned::Invalid("input is not JPEG"@)
    } else {
        jpeg_run(input, write, repl, JState {
            pos: 2, entropy: false, image_seen: false, inserted: false, count: 0,
            packet: None, out: emitted(Seq::empty(), write, input.take(2)),
        })
    }
}

/// The outcome of a completed scan.
#[derive(Debug)]
pub struct JpegScan {
    pub packet: Option<Vec<u8>>,
    pub output: Vec<u8>,
}

pub open spec fn packet_view(p: Option<Vec<u8>>) -> Option<Seq<u8>> {
    match p {
        Some(v) => Some(v@),
        None => None,
    }
}

/// Whether an exec result reports the scan `s`.
pub open spec fn reports(r: Result<JpegScan, ExportError>, s: Scanned) -> bool {
    match r {
        Ok(j) => s == Scanned::Done(packet_view(j.packet), j.output@),
        Err(ExportError::Cancelled) => true,
        Err(ExportError::Output(_)) => s is Truncated,
        Err(ExportError::Failed(m)) => s matches Scanned::Invalid(t) && m@ == "JPEG metadata: "@ + t,
        Err(_) => false,
    }
}

/// The error of a refused JPEG stream.
fn invalid(message: &str) -> (e: ExportError)
    ensures
        e matches ExportError::Failed(m) && m@ == "JPEG metadata: "@ + message@,
{
    let mut m = owned("JPEG metadata: ");
    push_str(&mut m, message);
    ExportError::Failed(m)
}

/// The error of input that ends too early.
/// Trusted: `std::io::Error::from` builds an error of the given kind.
#[verifier::external_body]
pub(crate) fn unexpected_end() -> std::io::Error {
    std::io::Error::from(std::io::ErrorKind::UnexpectedEof)
}

fn emit(out: &mut Vec<u8>, write: bool, bytes: &[u8])
    ensures
        final(out)@ == emitted(old(out)@, write, bytes@),
{
    if write {
        extend(out, bytes);
    }
}

fn find_pad_end(s: &[u8], q: usize) -> (r: usize)
    requires
        q <= s@.len(),
    ensures
        r == pad_end(s@, q as int),
        q <= r <= s@.len(),
{
    let mut i = q;
    while i < s.len() && s[i] == 0xff
        invariant
            q <= i <= s@.len(),
            pad_end(s@, q as int) == pad_end(s@, i as int),
        decreases s@.len() - i,
    {
        i = i + 1;
    }
    i
}

/// Scans a JPEG stream. With `write`, the output receives the stream with
/// every standard XMP packet removed and `replacement`, when nonempty, in a
/// new APP1 segment before the first marker that is not APP0 or APP1.
/// The flag `cancelled` may stop the scan between segments.
#[verifier::rlimit(40)]
pub fn scan(input: &[u8], write: bool, replacement: &[u8], cancelled: &AtomicBool) -> (r: Result<JpegScan, ExportError>)
    ensures
        reports(r, jpeg_scan(input@, write, replacement@)),
        input@.len() < 2 ==> r matches Err(ExportError::Output(_)),
        input@.len() >= 2 && !(input@[0] == 0xff && input@[1] == 0xd8) ==> (r matches Err(ExportError::Failed(m))
            && m@ == "JPEG metadata: "@ + "input is not JPEG"@),
{
    if input.len() < 2 {
        return Err(ExportError::Output(unexpected_end()));
    }
    if input[0] != 0xff || input[1] != 0xd8 {
        return Err(invalid("input is not JPEG"));
    }
    let xmp = xmp_identifier();
    let extended = extended_identifier();
    let mut out: Vec<u8> = Vec::new();
    emit(&mut out, write, &input[0..2]);
    assert(input@.subrange(0, 2) =~= input@.take(2));
    let mut pos: usize = 2;
    let mut entropy = false;
    let mut image_seen = false;
    let mut inserted = false;
    let mut count: usize = 0;
    let mut packet: Option<Vec<u8>> = None;
    loop
        invariant
            2 <= pos <= input@.len(),
            input@[0] == 0xff && input@[1] == 0xd8,
            count <= 65536,
            xmp@ == xmp_id(),
            extended@ == extended_id(),
            jpeg_scan(input@, write, replacement@) == jpeg_run(input@, write, replacement@, JState {
                pos: pos as int, entropy, image_seen, inserted, count: count as int,
                packet: packet_view(packet), out: out@,
            }),
        decreases input@.len() - pos,
    {
        match check_cancelled(cancelled) {
            Ok(()) => {},
            Err(e) => return Err(e),
        }
        let ghost st = JState {
            pos: pos as int, entropy, image_seen, inserted, count: count as int,
            packet: packet_view(packet), out: out@,
        };
        if entropy {
            if pos >= input.len() {
                return Err(invalid("missing end of image"));
            }
            let end = match position_of(input, pos, 0xff) {
                Some(k) => k,
                None => input.len(),
            };
            proof { lemma_find_byte(input@, pos as int, 0xff); }
            assert(end == run_end(input@, pos as int));
            if end > pos {
                emit(&mut out, write, &input[pos..end]);
                pos = end;
                continue;
            }
        }
        if pos >= input.len() {
            return Err(ExportError::Output(unexpected_end()));
        }
        if input[pos] != 0xff {
            return Err(invalid("expected marker"));
        }
        let q = find_pad_end(input, pos + 1);
        if q - pos >= 4096 {
            if pos + 4096 >= input.len() {
                return Err(ExportError::Output(unexpected_end()));
            }
            return Err(invalid("excessive marker padding"));
        }
        if q >= input.len() {
            return Err(ExportError::Output(unexpected_end()));
        }
        let code = input[q];
        let p1 = q + 1;
        if entropy && (code == 0 || (0xd0 <= code && code <= 0xd7)) {
            emit(&mut out, write, &input[pos..p1]);
            pos = p1;
            continue;
        }
        if count + 1 > 65536 {
            return Err(invalid("too many marker segments"));
        }
        let insert_now = !inserted && !(code == 0xe0 || code == 0xe1);
        if insert_now && write && replacement.len() > 0 {
            let ghost before = out@;
            out.push(0xff);
            out.push(0xe1);
            let low = (replacement.len() % 65536) as u32;
            let size = ((low + 31) % 65536) as u16;
            assert(size == (replacement@.len() + xmp_id().len() + 2) % 65536) by (nonlinear_arith)
                requires low == replacement@.len() % 65536, size == (low + 31) % 65536, xmp_id().len() == 29;
            let size_bytes = u16_bytes(size);
            extend(&mut out, size_bytes.as_slice());
            extend(&mut out, xmp.as_slice());
            extend(&mut out, replacement);
            assert(out@ =~= before + xmp_segment(replacement@));
        }
        inserted = inserted || insert_now;
        count = count + 1;
        if code == 0xd9 {
            if !image_seen {
                return Err(invalid("JPEG has no image scan"));
            }
            if p1 < input.len() {
                return Err(invalid("trailing data after JPEG image"));
            }
            emit(&mut out, write, &input[pos..p1]);
            return Ok(JpegScan { packet, output: out });
        }
        if code == 1 {
            emit(&mut out, write, &input[pos..p1]);
            pos = p1;
            continue;
        }
        if code == 0 || (0xd0 <= code && code <= 0xd8) {
            return Err(invalid("unexpected standalone marker"));
        }
        if input.len() - p1 < 2 {
            return Err(ExportError::Output(unexpected_end()));
        }
        let length = read_u16(input, p1) as usize;
        if length < 2 {
            return Err(invalid("invalid segment length"));
        }
        if length > input.len() - p1 {
            return Err(ExportError::Output(unexpected_end()));
        }
        let end = p1 + length;
        let data = &input[p1 + 2..end];
        if code == 0xe1 && starts_with(data, extended.as_slice()) {
            return Err(invalid("Extended XMP is not supported yet"));
        }
        let is_xmp = code == 0xe1 && starts_with(data, xmp.as_slice());
        if is_xmp {
            if packet.is_some() {
                return Err(invalid("multiple standard XMP packets"));
            }
            if data.len() - 29 > XMP_LIMIT {
                return Err(invalid("XMP packet exceeds 65502 bytes"));
            }
            let mut value: Vec<u8> = Vec::new();
            extend(&mut value, &data[29..data.len()]);
            assert(value@ =~= data@.skip(29));
            packet = Some(value);
        } else {
            emit(&mut out, write, &input[pos..end]);
        }
        entropy = code == 0xda || (entropy && code == 0xdc);
        image_seen = image_seen || code == 0xda;
        pos = end;
    }
}

} // verus!
