use towavue_export::args::{
    codec_arguments, ffmpeg_arguments, hardware_encode_supported_target, trim_filter, visual_filters, EditState,
    ExportStreams, FactorTexts,
};
use towavue_export::edits::{
    EditOperation, Factor, ImageResize, ImageRotation, MediaKind, MediaTime, PixelCrop, Rational, ResampleFilter,
};

fn no_texts() -> FactorTexts {
    FactorTexts { rate: None, tempo: Vec::new(), volume: None }
}

fn no_streams() -> ExportStreams {
    ExportStreams { video: None, audio: None }
}

#[test]
fn image_export_preserves_operation_order() {
    let operations = vec![
        EditOperation::Crop(PixelCrop { x: 4, y: 6, width: 20, height: 18 }),
        EditOperation::RotateClockwise,
        EditOperation::FlipHorizontal,
    ];
    let arguments = ffmpeg_arguments("in.png", "out.png", MediaKind::Image, &operations, false, &no_streams(), &no_texts(), &None);
    let filter = arguments
        .windows(2)
        .find_map(|pair| (pair[0] == "-vf").then_some(pair[1].as_str()))
        .expect("video filter argument");
    assert_eq!(filter, "crop=20:18:4:6:exact=1,transpose=clock,hflip");
}

#[test]
fn trim_ticks_round_up_and_keep_implicit_source_start() {
    let end = Some(MediaTime::from_nanoseconds(1));
    assert_eq!(
        trim_filter("trim", None, end, Rational { numerator: 1, denominator: 1000 }).as_deref(),
        Some("trim=start_pts=0:end_pts=1")
    );
    let start = Some(MediaTime::from_nanoseconds(33_333_334));
    assert_eq!(
        trim_filter("trim", start, None, Rational { numerator: 1, denominator: 30 }).as_deref(),
        Some("trim=start_pts=2")
    );
    assert_eq!(
        trim_filter("atrim", start, None, Rational { numerator: 1, denominator: 48000 }).as_deref(),
        Some("atrim=start_pts=1601")
    );
}

#[test]
fn video_export_builds_trim_rate_and_volume_filters() {
    let operations = vec![
        EditOperation::SetTrimStart(MediaTime::from_nanoseconds(2_000_000_000)),
        EditOperation::SetTrimEnd(MediaTime::from_nanoseconds(5_000_000_000)),
        EditOperation::SetRate(Factor { bits: 4.0f32.to_bits() }),
        EditOperation::SetVolume(Factor { bits: 0.5f32.to_bits() }),
    ];
    let streams = ExportStreams {
        video: Some((0, Rational { numerator: 1, denominator: 1000 })),
        audio: Some((1, Rational { numerator: 1, denominator: 48000 })),
    };
    let texts = FactorTexts {
        rate: Some("4.0000".into()),
        tempo: vec!["atempo=2.0000".into(), "atempo=2.0000".into()],
        volume: Some("0.5000".into()),
    };
    let arguments = ffmpeg_arguments("in.mp4", "out.mp4", MediaKind::Video, &operations, false, &streams, &texts, &None).join(" ");
    assert!(arguments.contains("trim=start_pts=2000:end_pts=5000,setpts=(PTS-STARTPTS)/4.0000"));
    assert!(arguments.contains("atrim=start_pts=96000:end_pts=240000,asetpts=PTS-STARTPTS,atempo=2.0000,atempo=2.0000,volume=0.5000"));
    assert!(arguments.contains("-copyts -start_at_zero -map 0:0 -map 0:1"));
}

#[test]
fn hardware_request_forces_media_foundation_hardware_mode() {
    let arguments = ffmpeg_arguments("in.mp4", "out.mp4", MediaKind::Video, &[], true, &no_streams(), &no_texts(), &None).join(" ");
    assert!(arguments.contains("-c:v h264_mf -hw_encoding 1"));
}

#[test]
fn codecs_follow_kind_and_extension_case_insensitively() {
    assert_eq!(codec_arguments(MediaKind::Video, "clip.WEBM", false), vec!["-c:v", "libvpx-vp9", "-c:a", "libopus"]);
    assert_eq!(codec_arguments(MediaKind::Audio, "song.Opus", false), vec!["-c:a", "libopus"]);
    assert_eq!(codec_arguments(MediaKind::Image, "still.tiff", false), vec!["-c:v", "tiff"]);
    assert!(codec_arguments(MediaKind::Image, "still.xyz", false).is_empty());
    assert!(hardware_encode_supported_target(MediaKind::Video, "out.mp4"));
    assert!(!hardware_encode_supported_target(MediaKind::Video, "out.WebM"));
    assert!(!hardware_encode_supported_target(MediaKind::Audio, "out.mp4"));
}

#[test]
fn visual_filters_render_rotation_resize_and_skip_timing() {
    let operations = vec![
        EditOperation::RotateImage(ImageRotation { tenths: 317, width: 80, height: 60 }),
        EditOperation::RotateImage(ImageRotation { tenths: -900, width: 48, height: 64 }),
        EditOperation::Resize(ImageResize { width: 32, height: 24, filter: ResampleFilter::Nearest }),
        EditOperation::Resize(ImageResize { width: 16, height: 12, filter: ResampleFilter::Lanczos }),
        EditOperation::SetTrimStart(MediaTime::from_nanoseconds(5)),
        EditOperation::FlipVertical,
    ];
    assert_eq!(
        visual_filters(&operations),
        vec![
            "format=gbrap,premultiply=inplace=1,rotate=317*PI/1800:ow=80:oh=60:c=black@0:bilinear=1,unpremultiply=inplace=1,format=rgba".to_string(),
            "transpose=cclock".to_string(),
            "format=rgba,scale=32:24:flags=neighbor,format=rgba".to_string(),
            "format=gbrap16le,premultiply=inplace=1,scale=16:12:flags=lanczos,unpremultiply=inplace=1,format=rgba".to_string(),
            "vflip".to_string(),
        ]
    );
}

#[test]
fn trims_are_valid_only_from_zero_and_before_the_end() {
    let state = |ops: Vec<EditOperation>| EditState::from_operations(&ops);
    assert!(!state(vec![EditOperation::SetTrimEnd(MediaTime::from_nanoseconds(0))]).trim_is_valid());
    assert!(!state(vec![EditOperation::SetTrimStart(MediaTime::from_nanoseconds(-1))]).trim_is_valid());
    assert!(!state(vec![
        EditOperation::SetTrimStart(MediaTime::from_nanoseconds(2_000_000_000)),
        EditOperation::SetTrimEnd(MediaTime::from_nanoseconds(1_000_000_000)),
    ])
    .trim_is_valid());
    assert!(state(vec![EditOperation::SetTrimEnd(MediaTime::from_nanoseconds(1))]).trim_is_valid());
}

#[test]
fn a_timeline_graph_replaces_per_stream_filters() {
    let streams = ExportStreams {
        video: Some((0, Rational { numerator: 1, denominator: 1000 })),
        audio: Some((1, Rational { numerator: 1, denominator: 48000 })),
    };
    let graph = Some("[0:0]split=1[vs0]".to_string());
    let arguments = ffmpeg_arguments("in.mkv", "out.mkv", MediaKind::Video, &[], false, &streams, &no_texts(), &graph);
    let joined = arguments.join(" ");
    assert!(joined.contains("-copyts -start_at_zero -filter_complex [0:0]split=1[vs0] -map [outv] -map [outa] -c:v libopenh264 -c:a aac out.mkv"));
}

#[test]
fn negative_time_bases_divide_as_integer_division_does() {
    let start = Some(MediaTime::from_nanoseconds(1_500_000_000));
    assert_eq!(
        trim_filter("trim", start, None, Rational { numerator: -1, denominator: 1000 }).as_deref(),
        Some("trim=start_pts=-1498")
    );
}
