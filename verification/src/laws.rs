//! Properties that span several operations of the library.
use crate::args::ticks;
use crate::edits::Rational;
use crate::export::DIAGNOSTIC_LIMIT;
use crate::jpeg::{emitted, jpeg_run, jpeg_scan, jpeg_step, xmp_id, xmp_segment, JState, JStep, Scanned};
use crate::bytes::{be32, be32_bytes};
use crate::png::{chunk_bytes, chunks_bytes, crc32_of, is_text_kind, png_run, png_scan, png_step, signature, AnimView, PState, PStep, PngScanned, TextView};
use crate::png::{animation_control, assemble_run, assemble_spec, assemble_step, frame_control, frame_controls, frame_data_step, frame_header_refused, AState, AStep, Assembled, ACTL, FCTL, IDAT, IEND};
use crate::metadata::{acceptable, entry_bytes, lemma_total_update, other_bytes, settings_wf, total_bytes, FIELD_LIMIT, TOTAL_LIMIT};
use vstd::prelude::*;
use vstd::utf8::*;

verus! {

/// Every accepted override keeps the settings bounded: at most 1024 bytes
/// per field and 4096 bytes in all, without NUL; and the field then holds
/// the new value, so a read after the write gives it back.
pub proof fn law_accepted_set_stays_bounded(s: Seq<Option<Seq<char>>>, i: int, v: Seq<char>)
    requires
        settings_wf(s),
        0 <= i < 10,
        acceptable(s, i, v),
    ensures
        settings_wf(s.update(i, Some(v))),
        s.update(i, Some(v))[i] == Some(v),
{
    let t = s.update(i, Some(v));
    lemma_total_update(s, i, None);
    lemma_total_update(s, i, Some(v));
    assert(s.update(i, None).update(i, Some(v)) =~= t);
    lemma_total_update(s.update(i, None), i, Some(v));
    assert forall|k: int| 0 <= k < 10 implies (#[trigger] t[k] matches Some(w) ==> crate::text::no_nul(w) && encode_utf8(w).len() <= FIELD_LIMIT) by {
        if k != i {
            assert(t[k] == s[k]);
        }
    }
}

/// Restoring Keep on a field never needs room: it always succeeds and
/// frees the bytes the field held.
pub proof fn law_keep_frees_space(s: Seq<Option<Seq<char>>>, i: int)
    requires
        settings_wf(s),
        0 <= i < 10,
    ensures
        settings_wf(s.update(i, None)),
        total_bytes(s.update(i, None)) + entry_bytes(s[i]) == total_bytes(s),
        other_bytes(s, i) <= TOTAL_LIMIT,
{
    let t = s.update(i, None);
    lemma_total_update(s, i, None);
    assert forall|k: int| 0 <= k < 10 implies (#[trigger] t[k] matches Some(w) ==> crate::text::no_nul(w) && encode_utf8(w).len() <= FIELD_LIMIT) by {
        if k != i {
            assert(t[k] == s[k]);
        }
    }
}

/// A trim point becomes the first tick at or after it: the tick is not
/// earlier than the point, and the tick before it is.
pub proof fn law_trim_tick_is_first_at_or_after(ns: int, tb: Rational)
    requires
        ns >= 0,
        tb.numerator > 0,
        tb.denominator > 0,
    ensures
        ticks(ns, tb) * (1000000000 * tb.numerator) >= ns * tb.denominator,
        (ticks(ns, tb) - 1) * (1000000000 * tb.numerator) < ns * tb.denominator,
{
    let n = ns * tb.denominator;
    let d = 1000000000 * tb.numerator;
    assert(n >= 0) by (nonlinear_arith)
        requires ns >= 0, tb.denominator > 0, n == ns * tb.denominator;
    assert(d > 0);
    let q = (n + d - 1) / d;
    assert(ticks(ns, tb) == q);
    assert(q * d >= n && (q - 1) * d < n) by (nonlinear_arith)
        requires d > 0, n >= 0, q == (n + d - 1) / d;
}

/// Scanning without writing and rewriting with no packet to insert agree
/// on every step: they accept the same streams, find the same packet, and
/// the rewrite copies each byte that is not a standard XMP segment.
pub proof fn law_jpeg_rewrite_without_packet_copies_stream(input: Seq<u8>, st: JState)
    requires
        0 <= st.pos <= input.len(),
        st.out == input.take(st.pos),
        st.packet is None,
    ensures
        jpeg_run(input, true, Seq::empty(), st) matches Scanned::Done(p, out) ==> (p is None ==> out == input),
    decreases input.len() - st.pos,
{
    match jpeg_step(input, true, Seq::empty(), st) {
        JStep::Next(n) => {
            if st.pos < n.pos <= input.len() {
                if n.packet is None {
                    lemma_step_copies(input, st, n);
                    law_jpeg_rewrite_without_packet_copies_stream(input, n);
                } else {
                    lemma_packet_persists(input, n);
                }
            }
        },
        JStep::Stop(s) => {
            if s matches Scanned::Done(p, out) {
                lemma_stop_copies(input, st);
            }
        },
    }
}

proof fn lemma_step_copies(input: Seq<u8>, st: JState, n: JState)
    requires
        0 <= st.pos <= input.len(),
        st.out == input.take(st.pos),
        st.packet is None,
        jpeg_step(input, true, Seq::empty(), st) == JStep::Next(n),
        n.packet is None,
        st.pos < n.pos <= input.len(),
    ensures
        n.out == input.take(n.pos),
{
    let p = st.pos;
    if n.pos > p {
        assert(input.take(p) + input.subrange(p, n.pos) =~= input.take(n.pos));
    }
}

proof fn lemma_packet_persists(input: Seq<u8>, st: JState)
    requires
        st.packet is Some,
    ensures
        jpeg_run(input, true, Seq::empty(), st) matches Scanned::Done(p, _) ==> p is Some,
    decreases input.len() - st.pos,
{
    match jpeg_step(input, true, Seq::empty(), st) {
        JStep::Next(n) => {
            if st.pos < n.pos <= input.len() {
                lemma_packet_persists(input, n);
            }
        },
        JStep::Stop(_) => {},
    }
}

proof fn lemma_stop_copies(input: Seq<u8>, st: JState)
    requires
        0 <= st.pos <= input.len(),
        st.out == input.take(st.pos),
        st.packet is None,
    ensures
        jpeg_step(input, true, Seq::empty(), st) matches JStep::Stop(Scanned::Done(p, out)) ==> out == input,
{
    let p = st.pos;
    if jpeg_step(input, true, Seq::empty(), st) matches JStep::Stop(Scanned::Done(_, out)) {
        let q = crate::jpeg::pad_end(input, p + 1);
        assert(q + 1 == input.len());
        assert(input.take(p) + input.subrange(p, q + 1) =~= input);
    }
}


/// A PNG rewrite that recognizes no text and inserts none copies the whole
/// stream: every chunk, the encoded image among them, comes out byte for
/// byte.
pub proof fn law_png_rewrite_without_text_copies_stream(input: Seq<u8>, expected: Option<AnimView>)
    ensures
        png_scan(input, true, Seq::empty(), expected) matches PngScanned::Done(t, _, out) ==> (t.len() == 0 ==> out == input),
{
    if input.len() >= 8 && input.take(8) == signature() {
        let st = PState {
            pos: 8, first: true, image_seen: false, text_count: 0, stored: 0, expanded: 0,
            texts: Seq::empty(), anim: crate::png::scan_start(), out: signature(),
        };
        lemma_png_copies(input, expected, st);
    }
}

proof fn lemma_png_copies(input: Seq<u8>, expected: Option<AnimView>, st: PState)
    requires
        8 <= st.pos <= input.len(),
        st.out == input.take(st.pos),
        st.texts.len() == 0,
    ensures
        png_run(input, true, Seq::empty(), expected, st) matches PngScanned::Done(t, _, out) ==> (t.len() == 0 ==> out == input),
    decreases input.len() - st.pos,
{
    match png_step(input, true, Seq::empty(), expected, st) {
        PStep::Next(n) => {
            if st.pos < n.pos <= input.len() {
                if n.texts.len() == 0 {
                    lemma_png_step_copies(input, expected, st);
                    lemma_png_copies(input, expected, n);
                } else {
                    lemma_png_texts_grow(input, true, Seq::empty(), expected, n);
                }
            }
        },
        PStep::Stop(_) => {
            lemma_png_step_copies(input, expected, st);
        },
    }
}

/// Reading four bytes as a big-endian number and writing it back gives the
/// same bytes.
pub(crate) proof fn lemma_be32_round_trip(s: Seq<u8>, q: int)
    requires
        0 <= q,
        q + 4 <= s.len(),
    ensures
        0 <= be32(s, q) < 4294967296,
        be32_bytes(be32(s, q)) == s.subrange(q, q + 4),
{
    let v = be32(s, q);
    let (b0, b1, b2, b3) = (s[q] as int, s[q + 1] as int, s[q + 2] as int, s[q + 3] as int);
    assert(v / 16777216 % 256 == b0 && v / 65536 % 256 == b1 && v / 256 % 256 == b2 && v % 256 == b3) by (nonlinear_arith)
        requires
            v == b0 * 16777216 + b1 * 65536 + b2 * 256 + b3,
            0 <= b0 < 256, 0 <= b1 < 256, 0 <= b2 < 256, 0 <= b3 < 256;
    assert(be32_bytes(v) =~= s.subrange(q, q + 4));
}

/// One step of a rewrite that keeps every chunk it reads extends the copy.
proof fn lemma_png_step_copies(input: Seq<u8>, expected: Option<AnimView>, st: PState)
    requires
        8 <= st.pos <= input.len(),
        st.out == input.take(st.pos),
        st.texts.len() == 0,
    ensures
        png_step(input, true, Seq::empty(), expected, st) matches PStep::Next(n) ==> (n.texts.len() == 0 ==> n.out == input.take(n.pos)),
        png_step(input, true, Seq::empty(), expected, st) matches PStep::Stop(PngScanned::Done(t, _, out)) ==> (t.len() == 0 ==> out == input),
{
    let p = st.pos;
    if p + 12 <= input.len() {
        let length = be32(input, p);
        lemma_be32_round_trip(input, p);
        lemma_be32_round_trip(input, p + 4);
        let kind = be32(input, p + 4) as u32;
        assert(kind as int == be32(input, p + 4));
        if p + 12 + length <= input.len() {
            let end = p + 12 + length;
            let data = input.subrange(p + 8, p + 8 + length);
            lemma_be32_round_trip(input, p + 8 + length);
            assert(chunks_bytes(Seq::<TextView>::empty()) =~= Seq::<u8>::empty());
            assert(input.take(p) + input.subrange(p, p + 8) + input.subrange(p + 8, end) =~= input.take(end));
            if crc32_of(be32_bytes(kind as int) + data) as int == be32(input, p + 8 + length) {
                assert(data.len() % 4294967296 == length);
                assert(chunk_bytes(kind, data) =~= input.subrange(p, end));
                assert(input.take(p) + input.subrange(p, end) =~= input.take(end));
            }
            if end == input.len() {
                assert(input.take(end) =~= input);
            }
        }
    }
}

/// A scan never forgets a recognized text chunk.
proof fn lemma_png_texts_grow(input: Seq<u8>, write: bool, repl: Seq<TextView>, expected: Option<AnimView>, st: PState)
    ensures
        png_run(input, write, repl, expected, st) matches PngScanned::Done(t, _, _) ==> t.len() >= st.texts.len(),
    decreases input.len() - st.pos,
{
    match png_step(input, write, repl, expected, st) {
        PStep::Next(n) => {
            if st.pos < n.pos <= input.len() {
                lemma_png_texts_grow(input, write, repl, expected, n);
            }
        },
        PStep::Stop(_) => {},
    }
}

/// Whether a rewrite and a plain scan of one stream end alike: both
/// complete with the same recognized text and animation, or both stop the
/// same way.
pub open spec fn same_outcome(written: PngScanned, read: PngScanned) -> bool {
    match (written, read) {
        (PngScanned::Done(t1, a1, _), PngScanned::Done(t2, a2, _)) => t1 == t2 && a1 == a2,
        _ => written == read,
    }
}

/// Rewriting a PNG accepts exactly the streams that scanning it accepts,
/// whatever text it inserts, and recognizes the same text and animation;
/// a refused rewrite fails the way the scan does.
pub proof fn law_png_rewrite_accepts_what_scan_accepts(input: Seq<u8>, repl: Seq<TextView>, expected: Option<AnimView>)
    ensures
        same_outcome(png_scan(input, true, repl, expected), png_scan(input, false, repl, expected)),
{
    if input.len() >= 8 && input.take(8) == signature() {
        let st = PState {
            pos: 8, first: true, image_seen: false, text_count: 0, stored: 0, expanded: 0,
            texts: Seq::empty(), anim: crate::png::scan_start(), out: Seq::empty(),
        };
        lemma_png_agree(input, repl, expected, PState { out: signature(), ..st }, st);
    }
}

proof fn lemma_png_agree(input: Seq<u8>, repl: Seq<TextView>, expected: Option<AnimView>, w: PState, r: PState)
    requires
        w == (PState { out: w.out, ..r }),
    ensures
        same_outcome(png_run(input, true, repl, expected, w), png_run(input, false, repl, expected, r)),
    decreases input.len() - r.pos,
{
    let sw = png_step(input, true, repl, expected, w);
    let sr = png_step(input, false, repl, expected, r);
    match sr {
        PStep::Next(nr) => {
            assert(sw matches PStep::Next(nw) && nw == (PState { out: nw.out, ..nr }));
            if r.pos < nr.pos <= input.len() {
                let nw = sw->Next_0;
                lemma_png_agree(input, repl, expected, nw, nr);
            }
        },
        PStep::Stop(s) => {
            assert(sw matches PStep::Stop(t) && same_outcome(t, s));
        },
    }
}

/// Whether `with` is `without` with the packet's APP1 segment spliced in at
/// one position.
pub open spec fn spliced(with: Seq<u8>, without: Seq<u8>, repl: Seq<u8>) -> bool {
    exists|k: int| 0 <= k <= without.len() && with == #[trigger] without.take(k) + xmp_segment(repl) + without.skip(k)
}

/// Whether a rewrite that inserts `repl` and one that inserts nothing end
/// alike: both find the same packet, and the first output is the second
/// with the new segment spliced in; or both stop the same way.
pub open spec fn splice_outcome(with: Scanned, without: Scanned, repl: Seq<u8>) -> bool {
    match (with, without) {
        (Scanned::Done(p1, o1), Scanned::Done(p2, o2)) => p1 == p2 && spliced(o1, o2, repl),
        _ => with == without,
    }
}

/// Writing a JPEG with a new XMP packet changes nothing but the packet: the
/// output is the rewrite without a packet, every byte of it in order, with
/// one APP1 segment carrying the new packet spliced in; and both rewrites
/// accept and refuse the same streams.
pub proof fn law_jpeg_splice_adds_only_the_packet(input: Seq<u8>, repl: Seq<u8>)
    requires
        repl.len() > 0,
    ensures
        splice_outcome(jpeg_scan(input, true, repl), jpeg_scan(input, true, Seq::empty()), repl),
{
    if input.len() >= 2 && input[0] == 0xff && input[1] == 0xd8 {
        let st = JState {
            pos: 2, entropy: false, image_seen: false, inserted: false, count: 0,
            packet: None, out: emitted(Seq::empty(), true, input.take(2)),
        };
        lemma_jpeg_splice(input, repl, st, st, 0);
    }
}

proof fn lemma_splice_append(b: Seq<u8>, seg: Seq<u8>, x: Seq<u8>, k: int)
    requires
        0 <= k <= b.len(),
    ensures
        (b.take(k) + seg + b.skip(k)) + x == (b + x).take(k) + seg + (b + x).skip(k),
        0 <= k <= (b + x).len(),
{
    assert((b.take(k) + seg + b.skip(k)) + x =~= (b + x).take(k) + seg + (b + x).skip(k));
}

#[verifier::spinoff_prover]
#[verifier::rlimit(40)]
proof fn lemma_jpeg_splice(input: Seq<u8>, repl: Seq<u8>, a: JState, b: JState, k: int)
    requires
        repl.len() > 0,
        a == (JState { out: a.out, ..b }),
        !b.inserted ==> a.out == b.out,
        b.inserted ==> 0 <= k <= b.out.len() && a.out == b.out.take(k) + xmp_segment(repl) + b.out.skip(k),
    ensures
        splice_outcome(jpeg_run(input, true, repl, a), jpeg_run(input, true, Seq::empty(), b), repl),
    decreases input.len() - b.pos,
{
    let sa = jpeg_step(input, true, repl, a);
    let sb = jpeg_step(input, true, Seq::empty(), b);
    let seg = xmp_segment(repl);
    let k2 = if b.inserted { k } else { b.out.len() as int };
    if !b.inserted {
        assert(b.out.take(k2) + seg + b.out.skip(k2) =~= b.out + seg);
    }
    match sb {
        JStep::Next(nb) => {
            let x = nb.out.skip(b.out.len() as int);
            assert(nb.out =~= b.out + x);
            lemma_splice_append(b.out, seg, x, k2);
            if nb.inserted {
                assert(sa matches JStep::Next(na) && na == (JState { out: na.out, ..nb })
                    && na.out == nb.out.take(k2) + seg + nb.out.skip(k2));
            } else {
                assert(sa matches JStep::Next(na) && na == (JState { out: na.out, ..nb }) && na.out == nb.out);
            }
            if b.pos < nb.pos <= input.len() {
                let na = sa->Next_0;
                lemma_jpeg_splice(input, repl, na, nb, k2);
            }
        },
        JStep::Stop(s) => {
            match s {
                Scanned::Done(p2, o2) => {
                    let x = o2.skip(b.out.len() as int);
                    assert(o2 =~= b.out + x);
                    lemma_splice_append(b.out, seg, x, k2);
                    assert(sa matches JStep::Stop(Scanned::Done(p1, o1)) && p1 == p2 && o1 == o2.take(k2) + seg + o2.skip(k2));
                    assert(sa matches JStep::Stop(Scanned::Done(_, o1)) && spliced(o1, o2, repl));
                },
                _ => {
                    assert(sa == sb);
                },
            }
        },
    }
}

/// Whether `input[a..b]` is one marker segment that ends with the standard
/// XMP identifier and the packet `pk`.
pub open spec fn packet_segment(input: Seq<u8>, a: int, b: int, pk: Seq<u8>) -> bool {
    &&& 0 <= a
    &&& a + 4 + xmp_id().len() + pk.len() <= b <= input.len()
    &&& input[a] == 0xff
    &&& input.subrange(b - pk.len() - xmp_id().len(), b) == xmp_id() + pk
}

/// Whether a completed rewrite without a new packet dropped exactly the
/// segment of the packet it found.
pub open spec fn removes_packet(input: Seq<u8>, s: Scanned) -> bool {
    s matches Scanned::Done(Some(pk), out) ==> exists|a: int, b: int|
        #[trigger] packet_segment(input, a, b, pk) && out == input.take(a) + input.skip(b)
}

/// A JPEG rewrite that inserts no packet keeps every byte of the stream but
/// the standard XMP segment it found: the output is the input with that one
/// segment cut out.
pub proof fn law_jpeg_rewrite_removes_only_the_packet(input: Seq<u8>)
    ensures
        removes_packet(input, jpeg_scan(input, true, Seq::empty())),
{
    if input.len() >= 2 && input[0] == 0xff && input[1] == 0xd8 {
        let st = JState {
            pos: 2, entropy: false, image_seen: false, inserted: false, count: 0,
            packet: None, out: emitted(Seq::empty(), true, input.take(2)),
        };
        assert(st.out =~= input.take(2));
        lemma_jpeg_removes(input, st, 0, 0);
    }
}

proof fn lemma_jpeg_removes(input: Seq<u8>, st: JState, a: int, b: int)
    requires
        0 <= st.pos <= input.len(),
        st.packet is None ==> st.out == input.take(st.pos),
        st.packet matches Some(pk) ==> packet_segment(input, a, b, pk) && b <= st.pos
            && st.out == input.take(a) + input.subrange(b, st.pos),
    ensures
        removes_packet(input, jpeg_run(input, true, Seq::empty(), st)),
    decreases input.len() - st.pos,
{
    let p = st.pos;
    lemma_jpeg_step_output(input, st);
    match jpeg_step(input, true, Seq::empty(), st) {
        JStep::Next(n) => {
            if p < n.pos <= input.len() {
                if st.packet is None && n.packet is Some {
                    let pk = n.packet->0;
                    let start = n.pos - pk.len() - xmp_id().len();
                    assert(input.subrange(start, n.pos) =~= xmp_id() + pk);
                    assert(input.take(p) + input.subrange(n.pos, n.pos) =~= input.take(p));
                    lemma_jpeg_removes(input, n, p, n.pos);
                } else {
                    if st.packet is None {
                        assert(input.take(p) + input.subrange(p, n.pos) =~= input.take(n.pos));
                    } else {
                        assert(input.take(a) + input.subrange(b, p) + input.subrange(p, n.pos)
                            =~= input.take(a) + input.subrange(b, n.pos));
                    }
                    lemma_jpeg_removes(input, n, a, b);
                }
            }
        },
        JStep::Stop(s) => {
            match s {
                Scanned::Done(Some(pk), out) => {
                    assert(input.take(a) + input.subrange(b, p) + input.subrange(p, input.len() as int) =~= input.take(a) + input.skip(b));
                },
                _ => {},
            }
        },
    }
}

/// What one step of a rewrite without a new packet writes: the bytes it
/// read, unless it read the standard XMP segment, which it drops.
proof fn lemma_jpeg_step_output(input: Seq<u8>, st: JState)
    requires
        0 <= st.pos <= input.len(),
    ensures
        jpeg_step(input, true, Seq::empty(), st) matches JStep::Next(n) ==> (st.pos < n.pos <= input.len() ==> (
            if st.packet is None && n.packet is Some {
                &&& n.out == st.out
                &&& input[st.pos] == 0xff
                &&& st.pos + 4 + xmp_id().len() + n.packet->0.len() <= n.pos
                &&& input.subrange(n.pos - n.packet->0.len() - xmp_id().len(), n.pos) == xmp_id() + n.packet->0
            } else {
                &&& n.out == st.out + input.subrange(st.pos, n.pos)
                &&& n.packet == st.packet
            })),
        jpeg_step(input, true, Seq::empty(), st) matches JStep::Stop(Scanned::Done(pk, out)) ==> (
            pk == st.packet && out == st.out + input.subrange(st.pos, input.len() as int)),
{
    let p = st.pos;
    match jpeg_step(input, true, Seq::empty(), st) {
      JStep::Next(n) => {
        if st.packet is None && n.packet is Some && p < n.pos <= input.len() {
            let q = crate::jpeg::pad_end(input, p + 1);
            lemma_pad_end_bounds(input, p + 1);
            let end = n.pos;
            let d = input.subrange(q + 3, end);
            let pk = n.packet->0;
            assert(pk == d.skip(xmp_id().len() as int));
            assert(d =~= d.take(xmp_id().len() as int) + d.skip(xmp_id().len() as int));
            assert(input.subrange(end - pk.len() - xmp_id().len(), end) =~= d);
        }
      },
      JStep::Stop(_) => {},
    }
}

proof fn lemma_pad_end_bounds(s: Seq<u8>, q: int)
    requires
        0 <= q <= s.len(),
    ensures
        q <= crate::jpeg::pad_end(s, q) <= s.len(),
    decreases s.len() - q,
{
    if q < s.len() && s[q] == 0xff {
        lemma_pad_end_bounds(s, q + 1);
    }
}

/// The diagnostics kept of an encoder run never exceed 16 KiB and always
/// end with the newest bytes: the whole latest chunk when it fits, or its
/// last 16 KiB.
pub proof fn law_diagnostic_tail_is_newest(kept: Seq<u8>, chunk: Seq<u8>)
    requires
        kept.len() <= DIAGNOSTIC_LIMIT,
    ensures
        ({
            let all = kept + chunk;
            let next = if all.len() > DIAGNOSTIC_LIMIT { all.skip(all.len() - DIAGNOSTIC_LIMIT) } else { all };
            &&& next.len() <= DIAGNOSTIC_LIMIT
            &&& chunk.len() <= DIAGNOSTIC_LIMIT ==> next.skip(next.len() - chunk.len()) == chunk
            &&& chunk.len() > DIAGNOSTIC_LIMIT ==> next == chunk.skip(chunk.len() - DIAGNOSTIC_LIMIT)
        }),
{
    let all = kept + chunk;
    let next = if all.len() > DIAGNOSTIC_LIMIT { all.skip(all.len() - DIAGNOSTIC_LIMIT) } else { all };
    if chunk.len() <= DIAGNOSTIC_LIMIT {
        assert(next.skip(next.len() - chunk.len()) =~= chunk);
    } else {
        assert(next =~= chunk.skip(chunk.len() - DIAGNOSTIC_LIMIT));
    }
}


/// Whether `piece` stands somewhere in `s`, byte for byte.
#[verifier::opaque]
pub open spec fn holds_piece(s: Seq<u8>, piece: Seq<u8>) -> bool {
    exists|k: int| 0 <= k && k + piece.len() <= s.len() && #[trigger] s.subrange(k, k + piece.len()) == piece
}

proof fn lemma_piece_kept(s: Seq<u8>, t: Seq<u8>, piece: Seq<u8>)
    requires
        holds_piece(s, piece),
        s.len() <= t.len(),
        t.subrange(0, s.len() as int) == s,
    ensures
        holds_piece(t, piece),
{
    reveal(holds_piece);
    let k = choose|k: int| 0 <= k && k + piece.len() <= s.len() && #[trigger] s.subrange(k, k + piece.len()) == piece;
    assert(t.subrange(k, k + piece.len()) =~= s.subrange(k, k + piece.len()));
}

/// The animation control that assembling writes.
pub open spec fn actl_chunk(plays: u32, delays: Seq<u32>) -> Seq<u8> {
    chunk_bytes(ACTL, animation_control(delays.len() as int, plays))
}

/// Whether `o` holds a frame control chunk, of any sequence number and
/// canvas, that shows its frame for `delay`.
pub open spec fn fctl_written(o: Seq<u8>, delay: u32) -> bool {
    exists|sq: int, c: Seq<u8>| #[trigger] holds_piece(o, chunk_bytes(FCTL, frame_control(sq, c, delay)))
}

proof fn lemma_fctl_kept(s: Seq<u8>, t: Seq<u8>, delay: u32)
    requires
        fctl_written(s, delay),
        s.len() <= t.len(),
        t.subrange(0, s.len() as int) == s,
    ensures
        fctl_written(t, delay),
{
    let (sq, c) = choose|sq: int, c: Seq<u8>| #[trigger] holds_piece(s, chunk_bytes(FCTL, frame_control(sq, c, delay)));
    lemma_piece_kept(s, t, chunk_bytes(FCTL, frame_control(sq, c, delay)));
}

/// What the joined output holds at a state: the animation control once the
/// first frame's image data has begun, and the frame control of every frame
/// whose image data has begun.
pub open spec fn controls_written(plays: u32, delays: Seq<u32>, st: AState) -> bool {
    &&& 0 <= st.index <= delays.len()
    &&& !st.at_start ==> st.index < delays.len()
    &&& (st.index > 0 || st.image_seen) ==> holds_piece(st.out, actl_chunk(plays, delays))
    &&& forall|j: int| 0 <= j < delays.len() && (j < st.index || (j == st.index && st.image_seen && !st.at_start))
        ==> #[trigger] fctl_written(st.out, delays[j])
}

proof fn lemma_controls_extend(plays: u32, delays: Seq<u32>, st: AState, kind: u32)
    requires
        0 <= st.index < delays.len(),
    ensures
        frame_controls(plays, delays, st, kind) matches Ok((out2, _)) ==> {
            &&& st.out.len() <= out2.len()
            &&& out2.subrange(0, st.out.len() as int) == st.out
            &&& (kind == IDAT && !st.image_seen && st.index == 0) ==> holds_piece(out2, actl_chunk(plays, delays))
            &&& (kind == IDAT && !st.image_seen) ==> fctl_written(out2, delays[st.index])
        },
{
    reveal(frame_controls);
    let a = actl_chunk(plays, delays);
    if let Ok((out2, _)) = frame_controls(plays, delays, st, kind) {
        assert(out2.subrange(0, st.out.len() as int) =~= st.out);
        if kind == IDAT && !st.image_seen {
            reveal(holds_piece);
            let out1 = if st.index == 0 { st.out + a } else { st.out };
            let f = chunk_bytes(FCTL, frame_control(st.sequence, st.canvas, delays[st.index]));
            assert(out2 == out1 + f);
            if st.index == 0 {
                assert(out2.subrange(st.out.len() as int, (st.out.len() + a.len()) as int) =~= a);
            }
            assert(out2.subrange(out1.len() as int, (out1.len() + f.len()) as int) =~= f);
            assert(holds_piece(out2, f));
        }
    }
}

proof fn lemma_data_extends(input: Seq<u8>, p: int, index: int, first: bool, image_seen: bool, canvas0: Seq<u8>, length: int,
    kind: u32, out2: Seq<u8>, seq1: int)
    ensures
        frame_data_step(input, p, index, first, image_seen, canvas0, length, kind, out2, seq1) matches AStep::Next(n) ==> {
            &&& out2.len() <= n.out.len()
            &&& n.out.subrange(0, out2.len() as int) == out2
            &&& n.index == if kind == IEND { index + 1 } else { index }
            &&& n.image_seen == if kind == IEND { image_seen } else { image_seen || kind == IDAT }
            &&& n.at_start == (kind == IEND)
        },
        !(frame_data_step(input, p, index, first, image_seen, canvas0, length, kind, out2, seq1) matches AStep::Stop(Assembled::Done(_))),
{
    reveal(frame_data_step);
    if let AStep::Next(n) = frame_data_step(input, p, index, first, image_seen, canvas0, length, kind, out2, seq1) {
        assert(n.out.subrange(0, out2.len() as int) =~= out2);
    }
}

proof fn lemma_written_start(input: Seq<u8>, delays: Seq<u32>, plays: u32, st: AState)
    requires
        controls_written(plays, delays, st),
        st.at_start,
    ensures
        assemble_step(input, plays, delays, st) matches AStep::Next(n) ==> controls_written(plays, delays, n),
        assemble_step(input, plays, delays, st) matches AStep::Stop(Assembled::Done(o)) ==> {
            &&& st.index == delays.len()
            &&& st.index > 0 ==> holds_piece(o, actl_chunk(plays, delays))
            &&& forall|j: int| 0 <= j < delays.len() ==> #[trigger] fctl_written(o, delays[j])
        },
{
    if st.index >= delays.len() && st.pos >= input.len() {
        let o = st.out + chunk_bytes(IEND, Seq::empty());
        assert(o.subrange(0, st.out.len() as int) =~= st.out);
        if st.index > 0 {
            lemma_piece_kept(st.out, o, actl_chunk(plays, delays));
        }
        assert forall|j: int| 0 <= j < delays.len() implies #[trigger] fctl_written(o, delays[j]) by {
            assert(fctl_written(st.out, delays[j]));
            lemma_fctl_kept(st.out, o, delays[j]);
        }
    }
}

#[verifier::rlimit(90)]
proof fn lemma_written_chunk(input: Seq<u8>, plays: u32, delays: Seq<u32>, st: AState)
    requires
        controls_written(plays, delays, st),
        !st.at_start,
    ensures
        assemble_step(input, plays, delays, st) matches AStep::Next(n) ==> controls_written(plays, delays, n),
        !(assemble_step(input, plays, delays, st) matches AStep::Stop(Assembled::Done(_))),
{
    let a = actl_chunk(plays, delays);
    let p = st.pos;
    if p + 8 <= input.len() {
        let length = be32(input, p);
        let kind = be32(input, p + 4) as u32;
        if !frame_header_refused(length, kind, st.first, st.image_seen) {
            lemma_controls_extend(plays, delays, st, kind);
            if let Ok((out2, seq1)) = frame_controls(plays, delays, st, kind) {
                if st.index > 0 || st.image_seen {
                    lemma_piece_kept(st.out, out2, a);
                }
                lemma_data_extends(input, p, st.index, st.first, st.image_seen, st.canvas, length, kind, out2, seq1);
                let step = frame_data_step(input, p, st.index, st.first, st.image_seen, st.canvas, length, kind, out2, seq1);
                assert(assemble_step(input, plays, delays, st) == step);
                if let AStep::Next(n) = step {
                    assert(kind == IEND ==> st.image_seen);
                    if holds_piece(out2, a) {
                        lemma_piece_kept(out2, n.out, a);
                    }
                    assert forall|j: int| 0 <= j < delays.len() && (j < n.index || (j == n.index && n.image_seen && !n.at_start))
                        implies #[trigger] fctl_written(n.out, delays[j]) by {
                        if j < st.index || (j == st.index && st.image_seen) {
                            assert(fctl_written(st.out, delays[j]));
                            lemma_fctl_kept(st.out, out2, delays[j]);
                        }
                        lemma_fctl_kept(out2, n.out, delays[j]);
                    }
                }
            }
        }
    }
}

proof fn lemma_written_step(input: Seq<u8>, plays: u32, delays: Seq<u32>, st: AState)
    requires
        controls_written(plays, delays, st),
        delays.len() >= 1,
    ensures
        assemble_step(input, plays, delays, st) matches AStep::Next(n) ==> controls_written(plays, delays, n),
        assemble_step(input, plays, delays, st) matches AStep::Stop(Assembled::Done(o)) ==> {
            &&& holds_piece(o, actl_chunk(plays, delays))
            &&& forall|j: int| 0 <= j < delays.len() ==> #[trigger] fctl_written(o, delays[j])
        },
{
    if st.at_start {
        lemma_written_start(input, delays, plays, st);
    } else {
        lemma_written_chunk(input, plays, delays, st);
    }
}

#[verifier::rlimit(60)]
proof fn lemma_written_run(input: Seq<u8>, plays: u32, delays: Seq<u32>, st: AState)
    requires
        controls_written(plays, delays, st),
        delays.len() >= 1,
    ensures
        assemble_run(input, plays, delays, st) matches Assembled::Done(o) ==> {
            &&& holds_piece(o, actl_chunk(plays, delays))
            &&& forall|j: int| 0 <= j < delays.len() ==> #[trigger] fctl_written(o, delays[j])
        },
    decreases input.len() - st.pos,
{
    lemma_written_step(input, plays, delays, st);
    match assemble_step(input, plays, delays, st) {
        AStep::Next(n) => {
            if st.pos < n.pos <= input.len() {
                lemma_written_run(input, plays, delays, n);
            }
        },
        AStep::Stop(_) => {},
    }
}

/// Every APNG that assembling produces from at least one frame holds, byte
/// for byte, the animation control chunk that records all its frames and
/// the requested number of plays, and for each frame a frame control chunk
/// that shows it for its delay.
pub proof fn law_assembled_apng_holds_its_controls(input: Seq<u8>, plays: u32, delays: Seq<u32>)
    requires
        delays.len() >= 1,
    ensures
        assemble_spec(input, plays, delays) matches Assembled::Done(o) ==> {
            &&& holds_piece(o, actl_chunk(plays, delays))
            &&& forall|j: int| 0 <= j < delays.len() ==> #[trigger] fctl_written(o, delays[j])
        },
{
    lemma_written_run(input, plays, delays, AState {
        pos: 0, at_start: true, index: 0, first: true, image_seen: false, sequence: 0,
        canvas: Seq::empty(), out: signature(),
    });
}

} // verus!
