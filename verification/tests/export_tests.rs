use towavue_export::edits::{EditOperation, ImageRotation, MediaKind, MediaTime, TimeRange};
use towavue_export::error::ExportError;
use towavue_export::export::{
    analysis_arguments, analysis_failure, encode_failure, frame_target, is_matroska, keep_tail, preflight, progress_micros, publish_check,
    source_duration, stage_graph,
};

fn strings(v: &[&str]) -> Vec<String> {
    v.iter().map(|s| s.to_string()).collect()
}

fn message(e: ExportError) -> String {
    match e {
        ExportError::Failed(m) => m,
        other => panic!("expected a failure, got {other:?}"),
    }
}

#[test]
fn requests_are_refused_before_anything_is_prepared() {
    let rotation = EditOperation::RotateImage(ImageRotation { tenths: 450, width: 2, height: 2 });
    assert!(matches!(preflight(MediaKind::Video, &[], true), Err(ExportError::SameAsSource)));
    assert_eq!(
        message(preflight(MediaKind::Video, &[rotation.clone()], false).unwrap_err()),
        "Free rotation currently supports images only"
    );
    assert!(preflight(MediaKind::Image, &[rotation], false).is_ok());
    let backwards = [
        EditOperation::SetTrimStart(MediaTime::from_nanoseconds(5)),
        EditOperation::SetTrimEnd(MediaTime::from_nanoseconds(5)),
    ];
    assert!(matches!(preflight(MediaKind::Audio, &backwards, false), Err(ExportError::InvalidTrim)));
    let timeline = EditOperation::Timeline(vec![TimeRange {
        start: MediaTime::from_nanoseconds(0),
        end: MediaTime::from_nanoseconds(10),
    }]);
    assert!(matches!(preflight(MediaKind::Image, &[timeline.clone()], false), Err(ExportError::InvalidTimeline)));
    let state = preflight(MediaKind::Video, &[timeline], false).expect("video timeline");
    assert!(state.trim_start.is_none());
}

#[test]
fn outputs_are_published_only_with_frames_and_bytes() {
    assert_eq!(
        message(publish_check(Some(MediaKind::Audio), false, 10).unwrap_err()),
        "trim contains no Audio frames; choose a wider range"
    );
    assert_eq!(
        message(publish_check(Some(MediaKind::Video), false, 10).unwrap_err()),
        "trim contains no Video frames; choose a wider range"
    );
    assert_eq!(message(publish_check(None, false, 0).unwrap_err()), "encoder produced an empty file");
    assert!(publish_check(Some(MediaKind::Image), true, 1).is_ok());
}

#[test]
fn failures_report_diagnostics_or_status() {
    assert_eq!(message(encode_failure("  broken pipe \n", "exit code: 1")), "broken pipe");
    assert_eq!(message(encode_failure(" \n", "exit code: 1")), "process exited with exit code: 1");
    assert_eq!(message(analysis_failure("\tbad\n")), "Audio analysis failed: bad");
}

#[test]
fn filter_graphs_are_staged_and_analysis_arguments_adapted() {
    let args = strings(&["-i", "in", "-filter_complex", "[0:0]null", "out"]);
    let (staged, graph) = stage_graph(args, "graph.txt");
    assert_eq!(staged, strings(&["-i", "in", "-/filter_complex", "graph.txt", "out"]));
    assert_eq!(graph.as_deref(), Some("[0:0]null"));
    let (plain, none) = stage_graph(strings(&["-i", "in"]), "graph.txt");
    assert_eq!(plain, strings(&["-i", "in"]));
    assert!(none.is_none());
    let export = strings(&["-loglevel", "error", "-i", "in", "-c:a", "aac", "out.wav"]);
    assert_eq!(
        analysis_arguments(export),
        strings(&["-loglevel", "info", "-i", "in", "-c:a", "pcm_f64le", "-f", "null", "-"])
    );
}

#[test]
fn progress_lines_and_diagnostic_tails() {
    assert_eq!(progress_micros("out_time_us=1500000"), Some(1_500_000));
    assert_eq!(progress_micros("out_time_us=N/A"), None);
    assert_eq!(progress_micros("frame=10"), None);
    let mut tail = vec![1u8; 16380];
    keep_tail(&mut tail, &[2; 10]);
    assert_eq!(tail.len(), 16384);
    assert_eq!(&tail[16374..], &[2; 10]);
    assert_eq!(tail[0], 1);
    let mut small = vec![7u8];
    keep_tail(&mut small, &[8]);
    assert_eq!(small, vec![7, 8]);
}

#[test]
fn matroska_durations_count_from_the_first_timestamp() {
    assert!(is_matroska("matroska,webm"));
    assert!(is_matroska("webm"));
    assert!(!is_matroska("mov,mp4,m4a,3gp,3g2,mj2"));
    assert!(!is_matroska("matroskax"));
    assert_eq!(source_duration(2_000_000, Some(500_000)).map(|t| t.as_nanoseconds()), Some(1_500_000_000));
    assert_eq!(source_duration(2_000_000, None).map(|t| t.as_nanoseconds()), Some(2_000_000_000));
    assert!(source_duration(0, None).is_none());
    assert!(source_duration(5, Some(5)).is_none());
    assert!(source_duration(i64::MAX, None).is_none());
    assert!(source_duration(i64::MIN, Some(1)).is_none());
}

#[test]
fn source_cannot_be_its_own_export_target() {
    assert!(matches!(preflight(MediaKind::Audio, &[], true), Err(ExportError::SameAsSource)));
}

#[test]
fn invalid_trim_is_rejected_before_preparing_output_or_starting_ffmpeg() {
    for operations in [
        vec![EditOperation::SetTrimEnd(MediaTime::from_nanoseconds(0))],
        vec![EditOperation::SetTrimStart(MediaTime::from_nanoseconds(-1))],
        vec![
            EditOperation::SetTrimStart(MediaTime::from_nanoseconds(2_000_000_000)),
            EditOperation::SetTrimEnd(MediaTime::from_nanoseconds(1_000_000_000)),
        ],
    ] {
        assert!(matches!(preflight(MediaKind::Video, &operations, false), Err(ExportError::InvalidTrim)));
    }
}

#[test]
fn current_frame_targets_are_png_files_other_than_the_source() {
    assert!(frame_target("still.png", false).is_ok());
    assert!(frame_target("STILL.PNG", false).is_ok());
    assert!(matches!(frame_target("still.png", true), Err(ExportError::SameAsSource)));
    for target in ["still.jpg", "still", "still.apng"] {
        match frame_target(target, false) {
            Err(ExportError::Failed(m)) => assert_eq!(m, "Current frame export requires a PNG target"),
            other => panic!("expected a refusal, got {other:?}"),
        }
    }
}
