use towavue_export::edits::{EditOperation, MediaKind, PixelCrop};
use towavue_export::error::ExportError;
use towavue_export::high_depth::{ChromaLocation, ColorTags, DecodedVideo, HighDepth, HighDepthPixel};

const COLORS: ColorTags = ColorTags { range: 1, space: 9, primaries: 9, transfer: 16 };

fn message<T: std::fmt::Debug>(r: Result<T, ExportError>) -> String {
    match r {
        Err(ExportError::Failed(m)) => m,
        other => panic!("expected a failure, got {other:?}"),
    }
}

#[test]
fn high_depth_plans_keep_layout_and_choose_the_encoder() {
    let plan = HighDepth::plan(MediaKind::Video, "p010le", 10, (1920, 1080), COLORS, ChromaLocation::TopLeft, "out.MKV", &[])
        .expect("plan")
        .expect("high depth");
    assert_eq!(plan.pixel, HighDepthPixel::Yuv420p10);
    assert!(plan.svt);
    assert_eq!(plan.chroma, Some(ChromaLocation::TopLeft));
    let small = [EditOperation::Crop(PixelCrop { x: 0, y: 0, width: 63, height: 64 })];
    let cropped = HighDepth::plan(MediaKind::Video, "yuv420p10le", 10, (1920, 1080), COLORS, ChromaLocation::Center, "o.mp4", &small)
        .expect("plan")
        .expect("high depth");
    assert!(!cropped.svt);
    assert_eq!(cropped.chroma, None);
    assert!(HighDepth::plan(MediaKind::Video, "yuv420p", 8, (2, 2), COLORS, ChromaLocation::Left, "o.avi", &[]).expect("eight bits").is_none());
    assert!(HighDepth::plan(MediaKind::Audio, "x", 16, (2, 2), COLORS, ChromaLocation::Left, "o.avi", &[]).expect("audio").is_none());
    assert_eq!(
        message(HighDepth::plan(MediaKind::Video, "yuv420p16le", 16, (2, 2), COLORS, ChromaLocation::Left, "o.mp4", &[])),
        "This video sample format cannot yet be exported without reducing precision"
    );
    assert_eq!(
        message(HighDepth::plan(MediaKind::Video, "gray12be", 12, (2, 2), COLORS, ChromaLocation::Left, "o.mov", &[])),
        "High-depth video export requires MP4, MKV or WebM to preserve sample precision"
    );
}

#[test]
fn high_depth_arguments_and_output_check() {
    let plan = HighDepth { pixel: HighDepthPixel::Yuv420p12, svt: false, colors: COLORS, chroma: Some(ChromaLocation::Left) };
    let args = plan.arguments("out.webm");
    assert_eq!(args[..2], ["-c:v", "libaom-av1"]);
    assert_eq!(args[12..16], ["-pix_fmt", "yuv420p12le", "-c:a", "libopus"]);
    assert_eq!(args[16..18], ["-color_range", "1"]);
    assert_eq!(args[args.len() - 4..], ["-chroma_sample_location", "1", "-bsf:v", "av1_metadata=chroma_sample_position=vertical"]);
    let decoded = DecodedVideo { av1: true, format: "yuv420p12le", colors: COLORS, chroma: ChromaLocation::Left };
    assert!(plan.check_encoded(Some(decoded)).is_ok());
    let moved = DecodedVideo { chroma: ChromaLocation::Center, ..decoded };
    assert!(plan.check_encoded(Some(moved)).is_err());
    assert!(plan.check_encoded(None).is_err());
    let unspecified = HighDepth { colors: ColorTags { range: 0, space: 2, primaries: 2, transfer: 2 }, chroma: None, ..plan };
    let other = DecodedVideo { colors: ColorTags { range: 2, space: 1, primaries: 1, transfer: 1 }, ..decoded };
    assert!(unspecified.check_encoded(Some(other)).is_ok());
}
