use std::sync::atomic::AtomicBool;
use towavue_export::avif::{Samples, Track};
use towavue_export::edits::{EditOperation, ImageRotation, Rational};
use towavue_export::error::ExportError;
use towavue_export::sequence::{free_edit_lists, select_stream, sequence_arguments, take_packet, Animation, StreamInfo};

fn failure(result: Result<impl std::fmt::Debug, ExportError>) -> String {
    match result {
        Err(ExportError::Failed(message)) => message,
        other => panic!("expected a refusal, got {other:?}"),
    }
}

fn track(id: u32, alpha_for: Option<u32>) -> Track {
    Track { id, timescale: 600, duration: 1200, loops: Some(0), alpha_for, premultiplied_with: None }
}

fn stream(index: usize, id: i32) -> StreamInfo {
    StreamInfo { index, id, time_base: Rational { numerator: 1, denominator: 600 }, duration: 1200, video: true, av1: true }
}

fn samples(index: usize, id: u32, times: Vec<(i64, i64)>) -> Samples {
    Samples { index, id, size: (4, 4), time_base: Rational { numerator: 1, denominator: 600 }, times }
}

#[test]
fn timed_stream_is_selected_once_and_must_be_av1() {
    let t = track(1, None);
    let cover = StreamInfo { duration: 0, ..stream(0, 1) };
    assert_eq!(select_stream(&t, &[cover, stream(1, 1)]).expect("timed stream"), (1, 1));
    assert_eq!(failure(select_stream(&t, &[cover])), "AVIF export: missing timed AVIF track");
    assert_eq!(failure(select_stream(&t, &[stream(1, 1), stream(2, 1)])), "AVIF export: ambiguous timed AVIF track");
    let other = StreamInfo { av1: false, ..stream(1, 1) };
    assert_eq!(failure(select_stream(&t, &[other])), "AVIF export: AVIF sequence contains a non-AV1 video stream");
    let wrapped = track(u32::MAX, None);
    assert_eq!(
        failure(select_stream(&wrapped, &[stream(0, -1)])),
        "AVIF export: out of range integral type conversion attempted"
    );
}

#[test]
fn packets_feed_their_track_and_are_refused_when_unusable() {
    let mut gathered = vec![samples(3, 1, Vec::new()), samples(5, 2, Vec::new())];
    take_packet(&mut gathered, 9, true, 0, None, 0).expect("other streams are skipped");
    take_packet(&mut gathered, 5, false, 10, Some(20), 10).expect("sample");
    assert_eq!(gathered[1].times, vec![(20, 10)]);
    assert!(gathered[0].times.is_empty());
    assert_eq!(failure(take_packet(&mut gathered, 3, false, 0, Some(0), 1)), "AVIF export: corrupt or empty AVIF sample");
    assert_eq!(failure(take_packet(&mut gathered, 3, false, 1, None, 1)), "AVIF export: missing sample PTS");
    let mut full = vec![samples(0, 1, vec![(0, 1); 65536])];
    assert_eq!(failure(take_packet(&mut full, 0, false, 1, Some(1), 1)), "AVIF export: animation exceeds 65536 frames");
}

#[test]
fn samples_are_ordered_color_first_and_alpha_must_match() {
    let tracks = vec![track(2, Some(1)), track(1, None)];
    let alpha = samples(1, 2, vec![(10, 5), (0, 5)]);
    let color = samples(0, 1, vec![(0, 5), (10, 5)]);
    let animation = Animation::validated(tracks.clone(), vec![alpha, color], &[2, 0]).expect("valid sequence");
    assert_eq!(animation.samples[0].id, 1);
    assert_eq!(animation.samples[1].id, 2);
    assert_eq!(animation.samples[1].times, vec![(0, 5), (10, 5)]);
    let shifted = samples(1, 2, vec![(0, 5), (10, 5)]);
    let late = samples(0, 1, vec![(1, 5), (11, 5)]);
    assert_eq!(
        failure(Animation::validated(tracks.clone(), vec![late, shifted], &[0, 0])),
        "AVIF export: alpha dimensions or sample timing differ from color"
    );
    for times in [vec![], vec![(0, 5), (0, 5)], vec![(0, 0)]] {
        assert_eq!(
            failure(Animation::validated(vec![track(1, None)], vec![samples(0, 1, times)], &[0])),
            "AVIF export: missing or nonpositive sample timing"
        );
    }
    assert_eq!(
        failure(Animation::validated(vec![track(1, None)], vec![samples(0, 1, vec![(0, 1)])], &[2])),
        "AVIF export: missing or nonpositive sample timing"
    );
    assert_eq!(
        failure(Animation::validated(vec![track(2, Some(1))], vec![samples(0, 2, vec![(0, 1)])], &[0])),
        "AVIF export: missing color track"
    );
}

#[test]
fn sequence_plan_builds_the_graph_and_arguments() {
    let mut color = track(1, None);
    color.loops = None;
    let animation = Animation {
        tracks: vec![color],
        samples: vec![samples(0, 1, vec![(0, 5), (5, 5)])],
    };
    let plan = animation.plan(&[EditOperation::FlipHorizontal]).expect("plan");
    assert!(!plan.alpha_output);
    assert_eq!(plan.graph, "[0:0]scale=flags=bilinear,format=rgba,hflip,format=gbrp[outv]");
    assert_eq!(plan.loops, 1);
    assert!(plan.restore_repetition);
    let rotation = EditOperation::RotateImage(ImageRotation { tenths: 300, width: 6, height: 6 });
    assert!(animation.plan(&[rotation]).expect("rotated").alpha_output);
    let args = sequence_arguments("in.avif", "graph.txt", "out.avif", &plan);
    assert_eq!(args[11], "in.avif");
    assert_eq!(args[12..14], ["-/filter_complex", "graph.txt"]);
    assert_eq!(args[args.len() - 4..], ["1/600", "-loop", "1", "out.avif"]);
    let single = Animation { tracks: vec![track(1, None)], samples: vec![samples(0, 1, vec![(0, 5)])] };
    assert_eq!(
        failure(single.plan(&[])),
        "AVIF export: single-frame AVIF sequences need a sequence-preserving muxer"
    );
    let mut premultiplied = track(1, None);
    premultiplied.premultiplied_with = Some(7);
    let missing = Animation { tracks: vec![premultiplied], samples: vec![samples(0, 1, vec![(0, 5), (5, 5)])] };
    assert_eq!(failure(missing.plan(&[])), "AVIF export: invalid premultiplied alpha reference");
}

#[test]
fn saved_sequences_are_checked_and_edit_lists_renamed() {
    let never = AtomicBool::new(false);
    let source = Animation { tracks: vec![track(1, None)], samples: vec![samples(0, 1, vec![(0, 5), (5, 5)])] };
    let same = Animation { tracks: vec![track(1, None)], samples: vec![samples(0, 1, vec![(100, 5), (105, 5)])] };
    source.check_output(&same, false, (4, 4), &never).expect("same timing");
    assert_eq!(failure(source.check_output(&same, true, (4, 4), &never)), "AVIF export: saved loop or alpha controls differ");
    let slower = Animation { tracks: vec![track(1, None)], samples: vec![samples(0, 1, vec![(0, 6), (6, 6)])] };
    assert_eq!(failure(source.check_output(&slower, false, (4, 4), &never)), "AVIF export: saved frame count or timing differs");
    let edit = [16u32.to_be_bytes().as_slice(), b"edts", &[0; 8]].concat();
    let trak = [(8 + edit.len() as u32).to_be_bytes().as_slice(), b"trak", &edit].concat();
    let moov = [(8 + trak.len() as u32).to_be_bytes().as_slice(), b"moov", &trak].concat();
    let mut file = [8u32.to_be_bytes().as_slice(), b"ftyp", &moov].concat();
    free_edit_lists(&mut file, &never).expect("renamed");
    assert_eq!(&file[28..32], b"free");
    let mut bare = [8u32.to_be_bytes().as_slice(), b"ftyp"].concat();
    assert_eq!(failure(free_edit_lists(&mut bare, &never)), "AVIF export: saved sequence has no moov");
}
