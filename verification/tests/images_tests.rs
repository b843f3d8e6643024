use std::io::Cursor;
use towavue_export::error::ExportError;
use towavue_export::formats::Transparency;
use towavue_export::images::{has_alpha, image_transparency, wide_alpha, ImageColor};

fn png_rgba(alphas: &[u8]) -> Vec<u8> {
    let pixels = image::RgbaImage::from_fn(alphas.len() as u32, 1, |x, _| image::Rgba([10, 20, 30, alphas[x as usize]]));
    let mut out = Cursor::new(Vec::new());
    image::DynamicImage::ImageRgba8(pixels).write_to(&mut out, image::ImageFormat::Png).expect("PNG");
    out.into_inner()
}

fn png_rgb() -> Vec<u8> {
    let pixels = image::RgbImage::from_fn(2, 2, |_, _| image::Rgb([1, 2, 3]));
    let mut out = Cursor::new(Vec::new());
    image::DynamicImage::ImageRgb8(pixels).write_to(&mut out, image::ImageFormat::Png).expect("PNG");
    out.into_inner()
}

#[test]
fn decoders_report_whether_images_carry_alpha() {
    assert!(has_alpha(&png_rgba(&[255, 0])).expect("RGBA"));
    assert!(!has_alpha(&png_rgb()).expect("RGB"));
    match has_alpha(b"not an image") {
        Err(ExportError::Failed(m)) => assert!(m.starts_with("Could not inspect image transparency: ")),
        other => panic!("expected a refusal, got {other:?}"),
    }
}

#[test]
fn still_images_are_judged_by_their_alpha_samples() {
    assert_eq!(image_transparency("a.png", &png_rgba(&[255, 255]), false, true), Some(Transparency::Opaque));
    assert_eq!(image_transparency("a.png", &png_rgba(&[255, 0]), false, true), Some(Transparency::Binary));
    assert_eq!(image_transparency("a.png", &png_rgba(&[255, 128]), false, true), Some(Transparency::Full));
    assert_eq!(image_transparency("a.png", &png_rgb(), false, true), Some(Transparency::Opaque));
    assert_eq!(image_transparency("a.png", &png_rgba(&[0]), false, false), Some(Transparency::Opaque));
    assert_eq!(image_transparency("a.png", b"broken", false, true), Some(Transparency::Full));
}

#[test]
fn animations_are_judged_by_their_composed_frames() {
    let mut gif = Vec::new();
    {
        let mut encoder = gif::Encoder::new(&mut gif, 2, 1, &[255, 0, 0, 0, 255, 0]).expect("encoder");
        encoder.write_frame(&gif::Frame { width: 2, height: 1, buffer: vec![0, 1].into(), ..Default::default() }).expect("frame");
        encoder
            .write_frame(&gif::Frame { width: 2, height: 1, transparent: Some(1), buffer: vec![0, 1].into(), ..Default::default() })
            .expect("frame");
    }
    assert_eq!(image_transparency("a.gif", &gif, true, true), Some(Transparency::Opaque));
    assert_eq!(image_transparency("a.gif", b"GIF89a", true, true), Some(Transparency::Full));
}

#[test]
fn sixteen_bit_alpha_is_wide_and_other_colour_types_are_not() {
    assert!(wide_alpha(ImageColor::La16));
    assert!(wide_alpha(ImageColor::Rgba16));
    for c in [ImageColor::L8, ImageColor::La8, ImageColor::Rgb8, ImageColor::Rgba8, ImageColor::L16, ImageColor::Rgb16,
        ImageColor::Rgb32F, ImageColor::Rgba32F, ImageColor::Other] {
        assert!(!wide_alpha(c));
    }
}

#[test]
fn sixteen_bit_still_alpha_is_judged_by_its_samples() {
    let mut out = Cursor::new(Vec::new());
    let pixels = image::ImageBuffer::<image::LumaA<u16>, Vec<u16>>::from_fn(2, 1, |x, _| image::LumaA([9, if x == 0 { 65535 } else { 0 }]));
    image::DynamicImage::ImageLumaA16(pixels).write_to(&mut out, image::ImageFormat::Png).expect("PNG");
    assert_eq!(image_transparency("a.png", &out.into_inner(), false, true), Some(Transparency::Binary));
}
