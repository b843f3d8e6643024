//! Assembling an APNG and scanning it again: the scan finds the plays and
//! the delays that were assembled.
use crate::bytes::{be32, be32_bytes, lemma_be32_bytes};
use crate::png::{animation_control, assemble_run, assemble_spec, assemble_step, png_scan, scan_start, frame_header_refused, frame_control, frame_controls, frame_data_step, AState, AStep, Assembled, FDAT, IHDR, chunk_bytes, finish_spec, observe_spec, png_run, png_step, prefix_len, signature, AnimView, PState, PStep, PngScanned, ScanView, TextView, ACTL, FCTL, IDAT, IEND};
use vstd::prelude::*;

verus! {

/// The encoding of one chunk, a kind and its data.
#[verifier::opaque]
pub open spec fn piece(c: (u32, Seq<u8>)) -> Seq<u8> {
    chunk_bytes(c.0, c.1)
}

/// Chunks, each a kind and its data, encoded one after another.
pub open spec fn encoded(cs: Seq<(u32, Seq<u8>)>) -> Seq<u8>
    decreases cs.len(),
{
    if cs.len() == 0 {
        Seq::empty()
    } else {
        piece(cs[0]) + encoded(cs.drop_first())
    }
}

proof fn lemma_encoded_push(cs: Seq<(u32, Seq<u8>)>, c: (u32, Seq<u8>))
    ensures
        encoded(cs.push(c)) == encoded(cs) + piece(c),
    decreases cs.len(),
{
    if cs.len() == 0 {
        assert(cs.push(c).drop_first() =~= Seq::<(u32, Seq<u8>)>::empty());
        assert(cs.push(c)[0] == c);
        assert(encoded(Seq::<(u32, Seq<u8>)>::empty()) == Seq::<u8>::empty());
        assert(encoded(cs.push(c)) =~= piece(c));
    } else {
        assert(cs.push(c).drop_first() =~= cs.drop_first().push(c));
        assert(cs.push(c)[0] == cs[0]);
        lemma_encoded_push(cs.drop_first(), c);
        assert(encoded(cs.push(c)) =~= encoded(cs) + piece(c));
    }
}

/// The animation controls that a chunk list declares, as the scan reads
/// them: the plays of the animation control, the delay of each frame
/// control in order, whether the first frame control precedes the image
/// data, and whether image data has been seen.
pub struct Controls {
    pub plays: Option<u32>,
    pub delays: Seq<u32>,
    pub includes_default: bool,
    pub image_seen: bool,
}

pub open spec fn no_controls() -> Controls {
    Controls { plays: None, delays: Seq::empty(), includes_default: false, image_seen: false }
}

pub open spec fn control_step(c: Controls, kind: u32, d: Seq<u8>) -> Controls {
    if kind == ACTL {
        Controls { plays: Some(be32(d, 4) as u32), delays: Seq::empty(), includes_default: false, ..c }
    } else if kind == FCTL {
        Controls {
            delays: c.delays.push(be32(d, 20) as u32),
            includes_default: if c.delays.len() == 0 { !c.image_seen } else { c.includes_default },
            ..c
        }
    } else if kind == IDAT {
        Controls { image_seen: true, ..c }
    } else {
        c
    }
}

pub open spec fn controls_of(cs: Seq<(u32, Seq<u8>)>) -> Controls
    decreases cs.len(),
{
    if cs.len() == 0 {
        no_controls()
    } else {
        control_step(controls_of(cs.drop_last()), cs.last().0, cs.last().1)
    }
}

/// Whether a scan state agrees with the controls read so far.
pub open spec fn agrees(s: ScanView, c: Controls) -> bool {
    &&& s.image_seen == c.image_seen
    &&& (s.animation is None <==> c.plays is None)
    &&& s.animation is None ==> c.delays.len() == 0
    &&& (s.animation matches Some(a) ==> (c.plays == Some(a.plays) && a.delays == c.delays
        && a.includes_default == c.includes_default))
}

proof fn lemma_observe_agrees(s: ScanView, c: Controls, kind: u32, d: Seq<u8>, p: int)
    requires
        agrees(s, c),
        prefix_len(kind, d.len() as int) == Ok::<int, Seq<char>>(p),
    ensures
        observe_spec(s, kind, d.take(p), d.len() as int) matches Ok(s2) ==> agrees(s2, control_step(c, kind, d)),
{
    if kind == ACTL || kind == FCTL {
        assert(d.take(p) =~= d);
    }
}

/// What one scan step does to a chunk it accepts: it moves past the chunk
/// and folds it into the animation state; the scan ends only at `IEND`.
proof fn lemma_step_facts(input: Seq<u8>, repl: Seq<TextView>, st: PState)
    ensures
        png_step(input, false, repl, None, st) matches PStep::Next(n) ==> {
            let p = st.pos;
            let length = be32(input, p);
            let kind = be32(input, p + 4) as u32;
            &&& p + 12 + length <= input.len()
            &&& n.pos == p + 12 + length
            &&& kind != IEND
            &&& prefix_len(kind, length) matches Ok(k)
                && observe_spec(st.anim, kind, input.subrange(p + 8, p + 8 + length).take(k), length) == Ok::<ScanView, Seq<char>>(n.anim)
        },
        png_step(input, false, repl, None, st) matches PStep::Stop(PngScanned::Done(_, a, _)) ==> {
            let p = st.pos;
            let length = be32(input, p);
            let kind = be32(input, p + 4) as u32;
            &&& kind == IEND
            &&& p + 12 + length == input.len()
            &&& prefix_len(kind, length) matches Ok(k)
                && (observe_spec(st.anim, kind, input.subrange(p + 8, p + 8 + length).take(k), length) matches Ok(s2)
                && finish_spec(s2) == Ok::<Option<AnimView>, Seq<char>>(a))
        },
{
}

/// Whether every chunk's data fits a chunk length.
pub open spec fn small_chunks(cs: Seq<(u32, Seq<u8>)>) -> bool {
    forall|i: int| 0 <= i < cs.len() ==> (#[trigger] cs[i]).1.len() <= 0x7fffffff
}

proof fn lemma_piece_fields(c: (u32, Seq<u8>), o: Seq<u8>, p: int)
    requires
        c.1.len() <= 0x7fffffff,
        0 <= p,
        p + piece(c).len() <= o.len(),
        o.subrange(p, p + piece(c).len()) == piece(c),
    ensures
        piece(c).len() == c.1.len() + 12,
        be32(o, p) == c.1.len(),
        be32(o, p + 4) == c.0 as int,
        o.subrange(p + 8, p + 8 + c.1.len()) == c.1,
{
    reveal(piece);
    let n = c.1.len() as int;
    lemma_be32_bytes(n % 4294967296);
    lemma_be32_bytes(c.0 as int);
    let pc = piece(c);
    assert(pc.len() == n + 12);
    assert(o[p] == pc[0] && o[p + 1] == pc[1] && o[p + 2] == pc[2] && o[p + 3] == pc[3]);
    assert(be32(o, p) == be32(pc, 0));
    assert(be32(pc, 0) == be32(be32_bytes(n % 4294967296), 0));
    assert(o[p + 4] == pc[4] && o[p + 5] == pc[5] && o[p + 6] == pc[6] && o[p + 7] == pc[7]);
    assert(be32(o, p + 4) == be32(pc, 4));
    assert(be32(pc, 4) == be32(be32_bytes(c.0 as int), 0));
    assert(o.subrange(p + 8, p + 8 + n) =~= pc.subrange(8, 8 + n));
    assert(pc.subrange(8, 8 + n) =~= c.1);
}

proof fn lemma_encoded_split(cs: Seq<(u32, Seq<u8>)>, j: int)
    requires
        0 <= j <= cs.len(),
    ensures
        encoded(cs) == encoded(cs.take(j)) + encoded(cs.skip(j)),
    decreases j,
{
    if j == 0 {
        assert(cs.take(0) =~= Seq::<(u32, Seq<u8>)>::empty());
        assert(cs.skip(0) =~= cs);
        assert(encoded(cs) =~= encoded(cs.take(0)) + encoded(cs.skip(0)));
    } else {
        lemma_encoded_split(cs, j - 1);
        assert(cs.take(j) =~= cs.take(j - 1).push(cs[j - 1]));
        lemma_encoded_push(cs.take(j - 1), cs[j - 1]);
        assert(cs.skip(j - 1).drop_first() =~= cs.skip(j));
        assert(cs.skip(j - 1)[0] == cs[j - 1]);
        assert(encoded(cs.skip(j - 1)) == piece(cs[j - 1]) + encoded(cs.skip(j)));
        assert(encoded(cs) =~= encoded(cs.take(j)) + encoded(cs.skip(j)));
    }
}

/// The animation that the controls describe once they are complete.
pub open spec fn described(c: Controls) -> Option<AnimView> {
    match c.plays {
        Some(pl) => Some(AnimView { plays: pl, delays: c.delays, includes_default: c.includes_default }),
        None => None,
    }
}

/// A scan of chunks followed by `IEND` folds each chunk, in order, into
/// its animation state; if it completes, what it found is what the chunks
/// describe.
#[verifier::rlimit(60)]
proof fn lemma_scan_walk(o: Seq<u8>, cs: Seq<(u32, Seq<u8>)>, j: int, repl: Seq<TextView>, st: PState)
    requires
        o == signature() + encoded(cs) + piece((IEND, Seq::empty())),
        small_chunks(cs),
        0 <= j <= cs.len(),
        st.pos == 8 + encoded(cs.take(j)).len(),
        agrees(st.anim, controls_of(cs.take(j))),
    ensures
        png_run(o, false, repl, None, st) matches PngScanned::Done(_, a, _) ==> a == described(controls_of(cs)),
    decreases cs.len() - j,
{
    let p = st.pos;
    lemma_encoded_split(cs, j);
    lemma_step_facts(o, repl, st);
    let rest = encoded(cs.skip(j));
    assert(o == signature() + encoded(cs.take(j)) + rest + piece((IEND, Seq::empty())));
    if j < cs.len() {
        let c = cs[j];
        assert(cs.skip(j).drop_first() =~= cs.skip(j + 1));
        assert(cs.skip(j)[0] == c);
        assert(rest == piece(c) + encoded(cs.skip(j + 1)));
        assert(o == (signature() + encoded(cs.take(j))) + piece(c) + (encoded(cs.skip(j + 1)) + piece((IEND, Seq::empty()))));
        assert(o.subrange(p, p + piece(c).len()) =~= piece(c));
        lemma_piece_fields(c, o, p);
        let e = (IEND, Seq::<u8>::empty());
        assert(piece(e).subrange(0, piece(e).len() as int) =~= piece(e));
        lemma_piece_fields(e, piece(e), 0);
        match png_step(o, false, repl, None, st) {
            PStep::Next(n) => {
                assert(cs.take(j + 1).drop_last() =~= cs.take(j));
                assert(cs.take(j + 1).last() == c);
                lemma_encoded_push(cs.take(j), c);
                assert(cs.take(j + 1) =~= cs.take(j).push(c));
                let k = prefix_len(c.0, c.1.len() as int)->Ok_0;
                lemma_observe_agrees(st.anim, controls_of(cs.take(j)), c.0, c.1, k);
                lemma_scan_walk(o, cs, j + 1, repl, n);
            },
            PStep::Stop(_) => {},
        }
    } else {
        assert(cs.take(j) =~= cs);
        let e = (IEND, Seq::<u8>::empty());
        assert(o.subrange(p, p + piece(e).len()) =~= piece(e));
        lemma_piece_fields(e, o, p);
        match png_step(o, false, repl, None, st) {
            PStep::Stop(PngScanned::Done(_, a, _)) => {
                let k = prefix_len(IEND, 0)->Ok_0;
                assert(o.subrange(p + 8, p + 8) =~= Seq::<u8>::empty());
                lemma_observe_agrees(st.anim, controls_of(cs), IEND, Seq::empty(), k);
            },
            _ => {},
        }
    }
}

/// The chunks that joining has written, once the controls before a
/// frame's first image data are added.
pub open spec fn with_controls(plays: u32, delays: Seq<u32>, st: AState, kind: u32, cs: Seq<(u32, Seq<u8>)>) -> Seq<(u32, Seq<u8>)> {
    if kind == IDAT && !st.image_seen {
        let c1 = if st.index == 0 { cs.push((ACTL, animation_control(delays.len() as int, plays))) } else { cs };
        c1.push((FCTL, frame_control(st.sequence, st.canvas, delays[st.index])))
    } else {
        cs
    }
}

proof fn lemma_controls_chunks(plays: u32, delays: Seq<u32>, st: AState, kind: u32, cs: Seq<(u32, Seq<u8>)>)
    requires
        st.out == signature() + encoded(cs),
    ensures
        frame_controls(plays, delays, st, kind) matches Ok((out2, _))
            ==> out2 == signature() + encoded(with_controls(plays, delays, st, kind, cs)),
{
    reveal(frame_controls);
    if kind == IDAT && !st.image_seen {
        let a = (ACTL, animation_control(delays.len() as int, plays));
        let f = (FCTL, frame_control(st.sequence, st.canvas, delays[st.index]));
        reveal(piece);
        if st.index == 0 {
            lemma_encoded_push(cs, a);
            lemma_encoded_push(cs.push(a), f);
            assert(signature() + encoded(cs.push(a).push(f)) =~= st.out + chunk_bytes(a.0, a.1) + chunk_bytes(f.0, f.1));
        } else {
            lemma_encoded_push(cs, f);
            assert(signature() + encoded(cs.push(f)) =~= st.out + chunk_bytes(f.0, f.1));
        }
    }
}

/// The chunks that joining has written after one more chunk of a frame.
pub open spec fn with_data(input: Seq<u8>, p: int, index: int, length: int, kind: u32, seq1: int, cs: Seq<(u32, Seq<u8>)>) -> Seq<(u32, Seq<u8>)> {
    let data = input.subrange(p + 8, p + 8 + length);
    let copy = (index == 0 && kind != IEND) || kind == IDAT;
    if !copy {
        cs
    } else if index != 0 && kind == IDAT {
        cs.push((FDAT, be32_bytes(seq1) + data))
    } else {
        cs.push((kind, data))
    }
}

#[verifier::rlimit(40)]
proof fn lemma_data_chunks(input: Seq<u8>, p: int, index: int, first: bool, image_seen: bool, canvas0: Seq<u8>, length: int,
    kind: u32, out2: Seq<u8>, seq1: int, cs: Seq<(u32, Seq<u8>)>)
    requires
        out2 == signature() + encoded(cs),
        0 <= p,
        p + 8 <= input.len(),
        length == be32(input, p),
        kind == be32(input, p + 4) as u32,
    ensures
        frame_data_step(input, p, index, first, image_seen, canvas0, length, kind, out2, seq1) matches AStep::Next(n) ==> {
            &&& n.out == signature() + encoded(with_data(input, p, index, length, kind, seq1, cs))
            &&& p + 12 + length <= input.len()
            &&& n.pos == p + 12 + length
            &&& n.index == if kind == IEND { index + 1 } else { index }
            &&& n.image_seen == if kind == IEND { image_seen } else { image_seen || kind == IDAT }
            &&& n.at_start == (kind == IEND)
            &&& n.first == if kind == IEND { first } else { false }
            &&& n.canvas == if kind == IHDR && index == 0 { input.subrange(p + 8, p + 8 + length) } else { canvas0 }
            &&& n.sequence == if ((index == 0 && kind != IEND) || kind == IDAT) && index != 0 && kind == IDAT { seq1 + 1 } else { seq1 }
        },
        !(frame_data_step(input, p, index, first, image_seen, canvas0, length, kind, out2, seq1) matches AStep::Stop(Assembled::Done(_))),
{
    reveal(frame_data_step);
    if let AStep::Next(n) = frame_data_step(input, p, index, first, image_seen, canvas0, length, kind, out2, seq1) {
        let data = input.subrange(p + 8, p + 8 + length);
        let copy = (index == 0 && kind != IEND) || kind == IDAT;
        if copy {
            reveal(piece);
            if index != 0 && kind == IDAT {
                let c = (FDAT, be32_bytes(seq1) + data);
                lemma_encoded_push(cs, c);
                assert(n.out =~= signature() + encoded(cs.push(c)));
            } else {
                let c = (kind, data);
                lemma_encoded_push(cs, c);
                crate::laws::lemma_be32_round_trip(input, p);
                crate::laws::lemma_be32_round_trip(input, p + 4);
                crate::laws::lemma_be32_round_trip(input, p + 8 + length);
                assert(data.len() == length);
                assert(length % 4294967296 == length);
                assert(kind as int == be32(input, p + 4));
                assert(input.subrange(p, p + 12 + length) =~= chunk_bytes(kind, data));
                assert(n.out =~= signature() + encoded(cs.push(c)));
            }
        }
    }
}

/// The controls that joining has written by a state: none before the
/// first frame's image data, then the plays and the delay of every frame
/// whose image data has begun.
pub open spec fn expected_controls(plays: u32, delays: Seq<u32>, st: AState) -> Controls {
    if st.index == 0 && (st.at_start || !st.image_seen) {
        no_controls()
    } else {
        Controls {
            plays: Some(plays),
            delays: delays.take(st.index + if !st.at_start && st.image_seen { 1int } else { 0int }),
            includes_default: true,
            image_seen: true,
        }
    }
}

proof fn lemma_actl_plays(frames: int, plays: u32)
    ensures
        be32(animation_control(frames, plays), 4) == plays,
{
    lemma_be32_bytes(plays as int);
    assert(animation_control(frames, plays).subrange(4, 8) =~= be32_bytes(plays as int));
    assert(be32(animation_control(frames, plays), 4) == be32(be32_bytes(plays as int), 0));
}

proof fn lemma_fctl_delay(sequence: int, canvas: Seq<u8>, delay: u32)
    requires
        canvas.len() >= 8,
    ensures
        be32(frame_control(sequence, canvas, delay), 20) == delay,
{
    let fd = frame_control(sequence, canvas, delay);
    lemma_be32_bytes(delay as int);
    assert(fd.subrange(20, 24) =~= be32_bytes(delay as int));
    assert(be32(fd, 20) == be32(be32_bytes(delay as int), 0));
}

proof fn lemma_control_values(plays: u32, delays: Seq<u32>, st: AState, kind: u32, cs: Seq<(u32, Seq<u8>)>)
    requires
        controls_of(cs) == expected_controls(plays, delays, st),
        !st.at_start,
        0 <= st.index < delays.len(),
        st.canvas.len() >= 8,
        kind == IDAT && !st.image_seen,
    ensures
        controls_of(with_controls(plays, delays, st, kind, cs)) == (Controls {
            plays: Some(plays), delays: delays.take(st.index + 1), includes_default: true, image_seen: st.index > 0,
        }),
{
    let a = (ACTL, animation_control(delays.len() as int, plays));
    let f = (FCTL, frame_control(st.sequence, st.canvas, delays[st.index]));
    lemma_actl_plays(delays.len() as int, plays);
    lemma_fctl_delay(st.sequence, st.canvas, delays[st.index]);
    let c1 = if st.index == 0 { cs.push(a) } else { cs };
    assert(c1.push(f).drop_last() =~= c1);
    assert(c1.push(f).last() == f);
    if st.index == 0 {
        assert(cs.push(a).drop_last() =~= cs);
        assert(cs.push(a).last() == a);
        assert(controls_of(c1) == control_step(no_controls(), ACTL, a.1));
        assert(delays.take(1) =~= Seq::<u32>::empty().push(delays[0]));
    } else {
        assert(delays.take(st.index + 1) =~= delays.take(st.index).push(delays[st.index]));
    }
}

proof fn lemma_data_values(input: Seq<u8>, p: int, index: int, length: int, kind: u32, seq1: int, cs: Seq<(u32, Seq<u8>)>)
    requires
        kind != ACTL && kind != FCTL,
    ensures
        controls_of(with_data(input, p, index, length, kind, seq1, cs)) == if index == 0 && kind == IDAT {
            Controls { image_seen: true, ..controls_of(cs) }
        } else {
            controls_of(cs)
        },
{
    let w = with_data(input, p, index, length, kind, seq1, cs);
    if w != cs {
        assert(w.drop_last() =~= cs);
    }
}

/// What joining keeps between steps: the output so far is the signature
/// and chunks whose controls are those written so far.
pub open spec fn joined(plays: u32, delays: Seq<u32>, st: AState, cs: Seq<(u32, Seq<u8>)>) -> bool {
    &&& st.out == signature() + encoded(cs)
    &&& small_chunks(cs)
    &&& 0 <= st.pos
    &&& 0 <= st.index <= delays.len()
    &&& !st.at_start ==> st.index < delays.len()
    &&& (st.index > 0 || (!st.at_start && !st.first)) ==> st.canvas.len() == 13
    &&& controls_of(cs) == expected_controls(plays, delays, st)
}

proof fn lemma_small_push(cs: Seq<(u32, Seq<u8>)>, c: (u32, Seq<u8>))
    requires
        small_chunks(cs),
        c.1.len() <= 0x7fffffff,
    ensures
        small_chunks(cs.push(c)),
{
    assert forall|i: int| 0 <= i < cs.push(c).len() implies (#[trigger] cs.push(c)[i]).1.len() <= 0x7fffffff by {
        if i < cs.len() {
            assert(cs.push(c)[i] == cs[i]);
        }
    }
}

proof fn lemma_join_controls(plays: u32, delays: Seq<u32>, st: AState, cs: Seq<(u32, Seq<u8>)>, kind: u32, out2: Seq<u8>, seq1: int)
    requires
        joined(plays, delays, st, cs),
        !st.at_start,
        kind == IDAT ==> !st.first,
        frame_controls(plays, delays, st, kind) == Ok::<(Seq<u8>, int), Seq<char>>((out2, seq1)),
    ensures
        out2 == signature() + encoded(with_controls(plays, delays, st, kind, cs)),
        small_chunks(with_controls(plays, delays, st, kind, cs)),
        controls_of(with_controls(plays, delays, st, kind, cs)) == if kind == IDAT && !st.image_seen {
            Controls { plays: Some(plays), delays: delays.take(st.index + 1), includes_default: true, image_seen: st.index > 0 }
        } else {
            controls_of(cs)
        },
{
    lemma_controls_chunks(plays, delays, st, kind, cs);
    if kind == IDAT && !st.image_seen {
        lemma_control_values(plays, delays, st, kind, cs);
        let a = (ACTL, animation_control(delays.len() as int, plays));
        let f = (FCTL, frame_control(st.sequence, st.canvas, delays[st.index]));
        if st.index == 0 {
            lemma_small_push(cs, a);
            lemma_small_push(cs.push(a), f);
        } else {
            lemma_small_push(cs, f);
        }
    }
}

#[verifier::rlimit(60)]
proof fn lemma_join_data(input: Seq<u8>, plays: u32, delays: Seq<u32>, st: AState, cs: Seq<(u32, Seq<u8>)>, out2: Seq<u8>, seq1: int)
    requires
        joined(plays, delays, st, cs),
        !st.at_start,
        st.pos + 8 <= input.len(),
        !frame_header_refused(be32(input, st.pos), be32(input, st.pos + 4) as u32, st.first, st.image_seen),
        frame_controls(plays, delays, st, be32(input, st.pos + 4) as u32) == Ok::<(Seq<u8>, int), Seq<char>>((out2, seq1)),
    ensures
        frame_data_step(input, st.pos, st.index, st.first, st.image_seen, st.canvas, be32(input, st.pos), be32(input, st.pos + 4) as u32, out2, seq1)
            matches AStep::Next(n) ==> exists|cs2: Seq<(u32, Seq<u8>)>| joined(plays, delays, n, cs2),
{
    let p = st.pos;
    let length = be32(input, p);
    let kind = be32(input, p + 4) as u32;
    lemma_join_controls(plays, delays, st, cs, kind, out2, seq1);
    let cs1 = with_controls(plays, delays, st, kind, cs);
    lemma_data_chunks(input, p, st.index, st.first, st.image_seen, st.canvas, length, kind, out2, seq1, cs1);
    if let AStep::Next(n) = frame_data_step(input, p, st.index, st.first, st.image_seen, st.canvas, length, kind, out2, seq1) {
        let cs2 = with_data(input, p, st.index, length, kind, seq1, cs1);
        lemma_data_values(input, p, st.index, length, kind, seq1, cs1);
        let data = input.subrange(p + 8, p + 8 + length);
        if st.index != 0 && kind == IDAT {
            lemma_small_push(cs1, (FDAT, be32_bytes(seq1) + data));
        } else if (st.index == 0 && kind != IEND) || kind == IDAT {
            lemma_small_push(cs1, (kind, data));
        }
        assert(small_chunks(cs2));
        assert(controls_of(cs2) == expected_controls(plays, delays, n));
        assert(joined(plays, delays, n, cs2));
    }
}

proof fn lemma_join_chunk(input: Seq<u8>, plays: u32, delays: Seq<u32>, st: AState, cs: Seq<(u32, Seq<u8>)>)
    requires
        joined(plays, delays, st, cs),
        !st.at_start,
    ensures
        assemble_step(input, plays, delays, st) matches AStep::Next(n) ==> exists|cs2: Seq<(u32, Seq<u8>)>| joined(plays, delays, n, cs2),
        !(assemble_step(input, plays, delays, st) matches AStep::Stop(Assembled::Done(_))),
{
    let p = st.pos;
    if p + 8 <= input.len() {
        let length = be32(input, p);
        let kind = be32(input, p + 4) as u32;
        if !frame_header_refused(length, kind, st.first, st.image_seen) {
            lemma_controls_chunks(plays, delays, st, kind, cs);
            if let Ok((out2, seq1)) = frame_controls(plays, delays, st, kind) {
                lemma_data_chunks(input, p, st.index, st.first, st.image_seen, st.canvas, length, kind, out2, seq1,
                    with_controls(plays, delays, st, kind, cs));
                lemma_join_data(input, plays, delays, st, cs, out2, seq1);
            }
        }
    }
}

proof fn lemma_join_start(input: Seq<u8>, plays: u32, delays: Seq<u32>, st: AState, cs: Seq<(u32, Seq<u8>)>)
    requires
        joined(plays, delays, st, cs),
        st.at_start,
    ensures
        assemble_step(input, plays, delays, st) matches AStep::Next(n) ==> joined(plays, delays, n, cs),
        assemble_step(input, plays, delays, st) matches AStep::Stop(Assembled::Done(o))
            ==> o == signature() + encoded(cs) + piece((IEND, Seq::empty())) && st.index == delays.len(),
{
    reveal(piece);
}

proof fn lemma_join_run(input: Seq<u8>, plays: u32, delays: Seq<u32>, st: AState, cs: Seq<(u32, Seq<u8>)>)
    requires
        joined(plays, delays, st, cs),
        delays.len() >= 1,
    ensures
        assemble_run(input, plays, delays, st) matches Assembled::Done(o) ==> exists|all: Seq<(u32, Seq<u8>)>| {
            &&& o == signature() + encoded(all) + piece((IEND, Seq::empty()))
            &&& small_chunks(all)
            &&& controls_of(all) == (Controls { plays: Some(plays), delays: delays, includes_default: true, image_seen: true })
        },
    decreases input.len() - st.pos,
{
    if st.at_start {
        lemma_join_start(input, plays, delays, st, cs);
    } else {
        lemma_join_chunk(input, plays, delays, st, cs);
    }
    match assemble_step(input, plays, delays, st) {
        AStep::Next(n) => {
            if st.pos < n.pos <= input.len() {
                if st.at_start {
                    lemma_join_run(input, plays, delays, n, cs);
                } else {
                    let cs2 = choose|cs2: Seq<(u32, Seq<u8>)>| joined(plays, delays, n, cs2);
                    lemma_join_run(input, plays, delays, n, cs2);
                }
            }
        },
        AStep::Stop(r) => {
            if let Assembled::Done(o) = r {
                assert(delays.take(delays.len() as int) =~= delays);
                assert(controls_of(cs) == (Controls { plays: Some(plays), delays: delays, includes_default: true, image_seen: true }));
            }
        },
    }
}

/// Scanning an APNG that assembling produced from at least one frame, when
/// the scan accepts it, finds the assembled animation: the requested plays,
/// the delays in order, and the first frame as the default image.
pub proof fn law_scanning_assembled_apng_finds_its_animation(input: Seq<u8>, plays: u32, delays: Seq<u32>, repl: Seq<TextView>)
    requires
        delays.len() >= 1,
    ensures
        assemble_spec(input, plays, delays) matches Assembled::Done(o) ==> (png_scan(o, false, repl, None) matches PngScanned::Done(_, a, _)
            ==> a == Some(AnimView { plays, delays, includes_default: true })),
{
    let st0 = AState {
        pos: 0, at_start: true, index: 0, first: true, image_seen: false, sequence: 0,
        canvas: Seq::empty(), out: signature(),
    };
    let none = Seq::<(u32, Seq<u8>)>::empty();
    assert(encoded(none) == Seq::<u8>::empty());
    assert(signature() + encoded(none) =~= signature());
    assert(controls_of(none) == no_controls());
    lemma_join_run(input, plays, delays, st0, none);
    if let Assembled::Done(o) = assemble_spec(input, plays, delays) {
        let all = choose|all: Seq<(u32, Seq<u8>)>| {
            &&& o == signature() + encoded(all) + piece((IEND, Seq::empty()))
            &&& small_chunks(all)
            &&& controls_of(all) == (Controls { plays: Some(plays), delays: delays, includes_default: true, image_seen: true })
        };
        assert(o.take(8) =~= signature());
        assert(all.take(0) =~= none);
        let s0 = PState {
            pos: 8, first: true, image_seen: false, text_count: 0, stored: 0, expanded: 0,
            texts: Seq::empty(), anim: scan_start(), out: Seq::empty(),
        };
        lemma_scan_walk(o, all, 0, repl, s0);
    }
}

} // verus!
