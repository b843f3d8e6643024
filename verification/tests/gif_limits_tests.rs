use std::sync::atomic::AtomicBool;
use towavue_export::error::ExportError;
use towavue_export::gif::{palette_frame, GifAnimation, GifRepeat};

fn describe(error: ExportError) -> String {
    match error {
        ExportError::Failed(m) => m,
        ExportError::Cancelled => "The export was cancelled; existing files were not changed.".to_string(),
        other => format!("{other:?}"),
    }
}

fn regions(dispose: gif::DisposalMethod) -> Vec<u8> {
    let mut out = Vec::new();
    {
        let mut encoder = gif::Encoder::new(&mut out, 4, 3, &[255, 0, 0, 0, 255, 0, 0, 0, 255, 0, 0, 0]).expect("encoder");
        encoder.set_repeat(gif::Repeat::Finite(7)).expect("repeat");
        for index in 0..5 {
            let mut frame = gif::Frame { delay: index + 1, transparent: Some(3), dispose, ..Default::default() };
            if index == 0 {
                frame.width = 4;
                frame.height = 3;
                frame.buffer = vec![0, 1, 2, 3, 3, 3, 3, 3, 0, 1, 2, 3].into();
            } else {
                frame.width = 2;
                frame.height = 2;
                frame.left = 1;
                frame.top = 1;
                frame.buffer = vec![2, 3, 3, 1].into();
            }
            encoder.write_frame(&frame).expect("region");
        }
    }
    out
}

#[test]
fn gif_quantization_preserves_alpha_threshold_and_fully_transparent_frames() {
    let mut pixels: Vec<u8> = (0..4096)
        .flat_map(|i| [(i % 64 * 4) as u8, (i / 64 * 4) as u8, (i % 251) as u8, if i % 7 == 0 { 127 } else { 128 }])
        .collect();
    let alpha: Vec<_> = pixels.chunks_exact(4).map(|pixel| pixel[3] >= 128).collect();
    let frame = palette_frame(64, 64, &mut pixels);
    assert_eq!(frame.palette.as_ref().expect("palette").len(), 768);
    let transparent = frame.transparent.expect("transparent entry");
    for (index, opaque) in frame.buffer.iter().zip(alpha) {
        assert_eq!(*index != transparent, opaque, "quantization must not punch opaque holes");
    }
    let mut invisible: Vec<u8> = (0..256).flat_map(|i| [i as u8, 25, 73, 0]).collect();
    let frame = palette_frame(16, 16, &mut invisible);
    assert_eq!(frame.palette.as_ref().expect("palette").len(), 3);
    assert!(frame.buffer.iter().all(|index| Some(*index) == frame.transparent));
}

#[test]
fn gif_png_staging_rejects_corruption_dimensions_extra_data_and_cancellation() {
    fn png(width: u32, height: u32, color: png::ColorType) -> Vec<u8> {
        let mut bytes = Vec::new();
        let mut encoder = png::Encoder::new(&mut bytes, width, height);
        encoder.set_color(color);
        let mut writer = encoder.write_header().expect("header");
        // Invalid oversized headers must be rejected before any image allocation.
        if width <= 4 && height <= 4 {
            writer.write_image_data(&vec![42; width as usize * height as usize * color.samples()]).expect("pixels");
            writer.finish().expect("end");
        } else {
            writer.write_chunk(png::chunk::IDAT, &[]).expect("empty oversized image");
            drop(writer);
        }
        bytes
    }
    let first = png(2, 2, png::ColorType::Rgba);
    let mut corrupt = first.clone();
    corrupt[29] ^= 1; // IHDR checksum.
    for (bytes, frames, cancelled, error) in [
        (corrupt, 1, false, "CRC"),
        (first[..first.len() - 1].to_vec(), 1, false, "GIF export"),
        ([first.as_slice(), &[0]].concat(), 1, false, "added animation frames"),
        ([first.clone(), png(3, 2, png::ColorType::Rgba)].concat(), 2, false, "dimensions differ"),
        (png(2, 2, png::ColorType::Rgb), 1, false, "RGBA8"),
        (png(65536, 1, png::ColorType::Rgba), 1, false, "GIF export"),
        (png(16384, 8193, png::ColorType::Rgba), 1, false, "512 MiB"),
        (first, 1, true, "cancelled"),
    ] {
        let controls = GifAnimation { delays: vec![1; frames], repeat: GifRepeat::Infinite };
        let result = describe(controls.apply(&bytes, &AtomicBool::new(cancelled)).expect_err("reject invalid snapshot"));
        assert!(result.contains(error), "expected {error}: {result}");
    }
}

#[test]
fn gif_scan_enforces_frame_canvas_and_cancellation_limits() {
    let cancel = AtomicBool::new(false);
    let frame = gif::Frame { width: 1, height: 1, buffer: vec![0].into(), ..Default::default() };
    for count in [65536, 65537] {
        let mut source = Vec::new();
        {
            let mut encoder = gif::Encoder::new(&mut source, 1, 1, &[255, 0, 0, 0, 0, 0]).expect("encoder");
            for _ in 0..count {
                encoder.write_frame(&frame).expect("frame");
            }
        }
        let scanned = GifAnimation::read(&source, &cancel);
        if count == 65536 {
            assert_eq!(scanned.expect("maximum frame count").delays.len(), count);
        } else {
            assert!(describe(scanned.expect_err("frame limit")).contains("65536"));
        }
    }
    let mut last = Vec::new();
    for (width, height, allowed) in [(16384, 8192, true), (16384, 8193, false)] {
        let mut source = Vec::new();
        {
            let mut encoder = gif::Encoder::new(&mut source, width, height, &[255, 0, 0, 0, 0, 0]).expect("encoder");
            encoder.write_frame(&frame).expect("partial frame");
        }
        assert_eq!(GifAnimation::read(&source, &cancel).is_ok(), allowed);
        last = source;
    }
    assert!(matches!(GifAnimation::read(&last, &AtomicBool::new(true)), Err(ExportError::Cancelled)));
}

#[test]
fn gif_staging_validates_counts_and_single_frame_conversion_still_works() {
    let mut bytes = Vec::new();
    for _ in 0..3 {
        let mut encoder = png::Encoder::new(&mut bytes, 4, 3);
        encoder.set_color(png::ColorType::Rgba);
        encoder.set_depth(png::BitDepth::Eight);
        let mut writer = encoder.write_header().expect("PNG header");
        writer.write_image_data(&[255, 0, 0, 255].repeat(12)).expect("PNG frame");
        writer.finish().expect("PNG end");
    }
    let cancel = AtomicBool::new(false);
    for count in [2, 4] {
        let controls = GifAnimation { delays: vec![1; count], repeat: GifRepeat::Infinite };
        assert!(controls.apply(&bytes, &cancel).is_err());
    }
    let three = GifAnimation { delays: vec![1; 3], repeat: GifRepeat::Infinite };
    assert!(three.apply(&bytes, &cancel).is_ok());
    let partial = regions(gif::DisposalMethod::Keep);
    let controls = GifAnimation::read(&partial, &cancel).expect("partial controls");
    assert!(describe(controls.apply(&partial, &cancel).expect_err("only RGBA PNG snapshots may use normalized disposal"))
        .contains("GIF export"));
}
