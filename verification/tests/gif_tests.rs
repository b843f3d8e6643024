use std::sync::atomic::AtomicBool;
use towavue_export::error::ExportError;
use towavue_export::formats::{image_animated, refused_formats, Format};
use towavue_export::gif::{gif_path, palette_frame, threshold_alpha, GifAnimation, GifRepeat};

fn fixture(delays: &[u16], repeat: gif::Repeat) -> Vec<u8> {
    let mut out = Vec::new();
    {
        let mut encoder = gif::Encoder::new(&mut out, 2, 2, &[255, 0, 0, 0, 0, 255]).expect("encoder");
        encoder.set_repeat(repeat).expect("repeat");
        for delay in delays {
            let frame = gif::Frame { width: 2, height: 2, delay: *delay, buffer: vec![0, 1, 1, 0].into(), ..Default::default() };
            encoder.write_frame(&frame).expect("frame");
        }
    }
    out
}

fn snapshot(width: u32, height: u32, rgba: &[u8]) -> Vec<u8> {
    let mut out = Vec::new();
    {
        let mut encoder = png::Encoder::new(&mut out, width, height);
        encoder.set_color(png::ColorType::Rgba);
        encoder.set_depth(png::BitDepth::Eight);
        let mut writer = encoder.write_header().expect("header");
        writer.write_image_data(rgba).expect("pixels");
    }
    out
}

fn message<T: std::fmt::Debug>(r: Result<T, ExportError>) -> String {
    match r {
        Err(ExportError::Failed(m)) => m,
        other => panic!("expected a failure, got {other:?}"),
    }
}

#[test]
fn gif_controls_translate_to_other_formats() {
    let never = AtomicBool::new(false);
    let animation = GifAnimation::read(&fixture(&[3, 7], gif::Repeat::Finite(2)), &never).expect("GIF");
    assert_eq!(animation.delays, vec![3, 7]);
    assert_eq!(animation.repeat, GifRepeat::Finite(2));
    assert!(animation.is_animated());
    assert_eq!(animation.plays(), 3);
    assert_eq!(animation.webp_plays().expect("plays"), 3);
    assert_eq!(animation.webp_delays(), vec![30, 70]);
    let apng = animation.png_metadata().animation.expect("controls");
    assert_eq!(apng.plays, 3);
    assert_eq!(apng.delays, vec![0x0003_0064, 0x0007_0064]);
    let endless = GifAnimation { delays: vec![1], repeat: GifRepeat::Infinite };
    assert_eq!(endless.plays(), 0);
    let most = GifAnimation { delays: vec![1], repeat: GifRepeat::Finite(u16::MAX) };
    assert_eq!(
        message(most.webp_plays()),
        "GIF export: 65536 total plays exceed WebP's 65535-play limit; use GIF or APNG to retain repetition"
    );
    assert!(gif_path("a/B.GIF") && !gif_path("a/b.png"));
}

#[test]
fn gif_reading_refuses_damage_and_cancellation() {
    let never = AtomicBool::new(false);
    assert!(message(GifAnimation::read(b"not a gif", &never)).starts_with("GIF export: "));
    let no_frames = fixture(&[], gif::Repeat::Infinite);
    assert_eq!(message(GifAnimation::read(&no_frames, &never)), "GIF export: no image frames");
    let cancelled = AtomicBool::new(true);
    assert!(matches!(GifAnimation::read(&fixture(&[1], gif::Repeat::Infinite), &cancelled), Err(ExportError::Cancelled)));
}

#[test]
fn palette_frames_follow_the_alpha_threshold() {
    let mut pixels = vec![10, 20, 30, 127, 10, 20, 30, 128, 200, 0, 0, 0, 1, 2, 3, 255];
    threshold_alpha(&mut pixels.clone());
    let frame = palette_frame(2, 2, &mut pixels);
    assert_eq!(pixels, vec![0, 0, 0, 0, 10, 20, 30, 255, 0, 0, 0, 0, 1, 2, 3, 255]);
    let transparent = frame.transparent.expect("transparent entry");
    assert_eq!(frame.buffer[0], transparent);
    assert_eq!(frame.buffer[2], transparent);
    assert_ne!(frame.buffer[1], transparent);
    assert_ne!(frame.buffer[3], transparent);
    let palette = frame.palette.expect("palette");
    let color = frame.buffer[1] as usize * 3;
    assert_eq!(&palette[color..color + 3], &[10, 20, 30]);
}

#[test]
fn snapshots_are_written_as_gif_with_source_controls() {
    let never = AtomicBool::new(false);
    let animation = GifAnimation { delays: vec![4, 9], repeat: GifRepeat::Finite(1) };
    let red = [255, 0, 0, 255].repeat(4);
    let clear = [0, 0, 0, 0].repeat(4);
    let staged = [snapshot(2, 2, &red), snapshot(2, 2, &clear)].concat();
    let gif = animation.apply(&staged, &never).expect("GIF");
    let back = GifAnimation::read(&gif, &never).expect("read back");
    assert_eq!(back.delays, vec![4, 9]);
    assert_eq!(back.repeat, GifRepeat::Finite(1));
    let mut options = gif::DecodeOptions::new();
    options.set_color_output(gif::ColorOutput::RGBA);
    let mut decoder = options.read_info(gif.as_slice()).expect("decoder");
    let first = decoder.read_next_frame().expect("frame").expect("first").clone();
    assert_eq!(first.buffer.to_vec(), red);
    assert_eq!(first.dispose, gif::DisposalMethod::Background);
    let second = decoder.read_next_frame().expect("frame").expect("second").clone();
    assert!(second.buffer.chunks(4).all(|p| p[3] == 0));
    let extra = [staged.clone(), snapshot(2, 2, &red)].concat();
    assert_eq!(message(animation.apply(&extra, &never)), "GIF export: encoder added animation frames");
    let resized = [snapshot(2, 2, &red), snapshot(1, 4, &red)].concat();
    assert_eq!(message(animation.apply(&resized, &never)), "GIF export: encoded frame dimensions differ");
    let mut gray = Vec::new();
    {
        let mut encoder = png::Encoder::new(&mut gray, 1, 1);
        encoder.set_color(png::ColorType::Grayscale);
        encoder.write_header().expect("header").write_image_data(&[7]).expect("pixel");
    }
    assert_eq!(message(animation.apply(&gray, &never)), "GIF export: expected static RGBA8 PNG snapshot");
}

#[test]
fn only_webp_is_refused_by_a_gif_that_plays_too_often() {
    let endless = GifAnimation { delays: vec![1, 2], repeat: GifRepeat::Infinite };
    let most = GifAnimation { delays: vec![1, 2], repeat: GifRepeat::Finite(65534) };
    let beyond = GifAnimation { delays: vec![1, 2], repeat: GifRepeat::Finite(65535) };
    let still = GifAnimation { delays: vec![1], repeat: GifRepeat::Finite(65535) };
    assert!(beyond.refuses(Format::Webp));
    for format in [Format::Png, Format::Avif, Format::Gif, Format::Jpeg] {
        assert!(!beyond.refuses(format));
    }
    assert!(!endless.refuses(Format::Webp) && !most.refuses(Format::Webp) && !still.refuses(Format::Webp));
    let gif = Some(beyond);
    assert_eq!(refused_formats(false, &gif, &Vec::new()), vec![Format::Webp]);
    assert_eq!(
        refused_formats(true, &None, &vec![Format::Png, Format::Gif]),
        vec![Format::Jpeg, Format::Webp, Format::Avif, Format::Tiff, Format::Bmp]
    );
    assert_eq!(refused_formats(true, &gif, &vec![Format::Webp, Format::Gif]).contains(&Format::Webp), true);
}

#[test]
fn image_sources_are_animated_by_their_frames() {
    let still = Some(GifAnimation { delays: vec![5], repeat: GifRepeat::Infinite });
    let moving = Some(GifAnimation { delays: vec![5, 6], repeat: GifRepeat::Infinite });
    assert!(!image_animated(&None, &still, false));
    assert!(image_animated(&None, &moving, false));
    assert!(image_animated(&None, &None, true));
    let apng = Some(towavue_export::png::Animation { plays: 0, delays: vec![1], includes_default: true });
    assert!(image_animated(&apng, &None, false));
    assert!(!image_animated(&None, &None, false));
}
