use towavue_export::edits::{EditOperation, ImageResize, ImageRotation, MediaKind, ResampleFilter};
use towavue_export::error::ExportError;
use towavue_export::formats::{
    image_format_candidates, interpolated, transparency_formats, transparent_edit, ExportDialogRequest, ExportOptions,
    ExportOutput, Format, ImageMetadataFormat, MediaInput, Transparency,
};
use towavue_export::metadata::{MetadataExportOptions, MetadataField};

fn request(kind: MediaKind, output: ExportOutput, path: &str) -> ExportDialogRequest {
    let mut options = ExportOptions::default();
    options.output = output;
    ExportDialogRequest { input: MediaInput::new(path.to_string()), kind, operations: Vec::new(), options }
}

#[test]
fn video_frame_output_offers_frame_png_only() {
    let choices = request(MediaKind::Video, ExportOutput::VideoFrame, "clip.mp4").choices_from(true, false, vec![]).expect("choices");
    assert_eq!(choices.formats, vec![Format::FramePng]);
}

#[test]
fn audio_only_needs_an_audio_stream_and_starts_in_wav() {
    let dialog = request(MediaKind::Video, ExportOutput::AudioOnly, "clip.mp4");
    match dialog.choices_from(false, false, vec![]) {
        Err(ExportError::Failed(m)) => assert_eq!(m, "This media has no audio stream to export"),
        _ => panic!("expected a refusal"),
    }
    let choices = dialog.choices_from(true, false, vec![]).expect("choices");
    assert_eq!(choices.formats.len(), 7);
    assert_eq!(choices.formats[0], Format::Wav);
    assert_eq!(choices.initial, 0);
    assert_eq!(choices.default_extension, "wav");
    let image = request(MediaKind::Image, ExportOutput::AudioOnly, "picture.png");
    assert!(image.choices_from(true, false, vec![]).is_err());
}

#[test]
fn high_depth_video_offers_only_deep_containers() {
    let dialog = request(MediaKind::Video, ExportOutput::Media, "clip.mkv");
    let deep = dialog.choices_from(true, true, vec![]).expect("deep");
    assert_eq!(deep.formats, vec![Format::Mp4, Format::Mkv, Format::Webm]);
    assert_eq!(deep.initial, 1);
    let ordinary = dialog.choices_from(true, false, vec![]).expect("ordinary");
    assert_eq!(ordinary.formats.len(), 8);
}

#[test]
fn image_documents_offer_the_inspected_formats() {
    let dialog = request(MediaKind::Image, ExportOutput::Media, "picture.gif");
    let choices = dialog.choices_from(false, false, vec![Format::Png, Format::Gif]).expect("choices");
    assert_eq!(choices.formats, vec![Format::Png, Format::Gif]);
    assert_eq!(choices.initial, 1);
    assert!(dialog.choices_from(false, false, vec![]).is_err());
}

#[test]
fn text_edits_keep_only_containers_that_carry_them() {
    let mut metadata = MetadataExportOptions::default();
    metadata.set(MetadataField::Title, Some("Title".to_string())).expect("set");
    let none = MetadataExportOptions::default();
    assert_eq!(image_format_candidates("photo.png", &metadata, false, &vec![]), vec![Format::Png]);
    assert_eq!(image_format_candidates("photo.jpg", &metadata, false, &vec![]), vec![Format::Jpeg, Format::Webp]);
    assert!(image_format_candidates("photo.bmp", &metadata, false, &vec![]).is_empty());
    assert_eq!(image_format_candidates("photo.bmp", &none, false, &vec![]).len(), 7);
}

#[test]
fn animation_and_refused_conversions_narrow_image_formats() {
    let none = MetadataExportOptions::default();
    assert_eq!(
        image_format_candidates("anim.gif", &none, true, &vec![Format::Webp]),
        vec![Format::Png, Format::Avif, Format::Gif]
    );
}

#[test]
fn transparency_decides_jpeg_bitmap_and_gif() {
    let all = vec![Format::Png, Format::Jpeg, Format::Gif, Format::Bmp];
    assert_eq!(transparency_formats(all.clone(), Transparency::Opaque, false, false, false, false), all);
    assert_eq!(
        transparency_formats(all.clone(), Transparency::Binary, false, false, false, false),
        vec![Format::Png]
    );
    assert_eq!(
        transparency_formats(all.clone(), Transparency::Binary, false, false, true, false),
        vec![Format::Png, Format::Gif]
    );
    assert_eq!(
        transparency_formats(all.clone(), Transparency::Binary, false, true, true, false),
        vec![Format::Png]
    );
    assert_eq!(
        transparency_formats(all.clone(), Transparency::Opaque, true, false, false, true),
        vec![Format::Png]
    );
    let without = vec![Format::Png, Format::Bmp];
    assert_eq!(transparency_formats(without.clone(), Transparency::Full, false, false, false, false), without);
}

#[test]
fn free_rotation_and_smooth_resize_are_recognized() {
    let quarter = EditOperation::RotateImage(ImageRotation { tenths: 900, width: 4, height: 4 });
    let free = EditOperation::RotateImage(ImageRotation { tenths: 450, width: 4, height: 4 });
    assert!(!transparent_edit(&vec![quarter]));
    assert!(transparent_edit(&vec![EditOperation::FlipHorizontal, free]));
    let nearest = EditOperation::Resize(ImageResize { width: 2, height: 2, filter: ResampleFilter::Nearest });
    let smooth = EditOperation::Resize(ImageResize { width: 2, height: 2, filter: ResampleFilter::Lanczos });
    assert!(!interpolated(&vec![nearest]));
    assert!(interpolated(&vec![smooth]));
}

#[test]
fn export_formats_audio_metadata_excludes_unrepresentable_fields_and_normalized_track_values() {
    let mut export = request(MediaKind::Audio, ExportOutput::Media, "source.wav");
    for setting in [None, Some((MetadataField::AlbumArtist, "Album artist")), Some((MetadataField::Track, "003/012"))] {
        export.options.metadata = MetadataExportOptions::default();
        if let Some((field, value)) = setting {
            export.options.metadata.set(field, Some(value.into())).expect("metadata");
        }
        let offered = export.choices_from(true, false, vec![]).expect("audio choices");
        if setting.is_some() {
            assert!(!offered.formats.contains(&Format::Aac));
        }
        if setting.is_some_and(|(field, _)| field == MetadataField::AlbumArtist) {
            assert!(!offered.formats.contains(&Format::Wav));
        }
        if setting.is_some_and(|(field, _)| field == MetadataField::Track) {
            assert!(!offered.formats.contains(&Format::M4a));
        }
    }
}

fn metadata(field: MetadataField, text: &str) -> MetadataExportOptions {
    let mut metadata = MetadataExportOptions::default();
    metadata.set(field, Some(text.into())).expect("metadata");
    metadata
}

#[test]
fn jpeg_metadata_capability_and_xml_validation_match_export_contract() {
    for extension in ["jpg", "jpeg", "JPG", "JPEG"] {
        assert_eq!(ImageMetadataFormat::from_path(&format!("source.{extension}")), Some(ImageMetadataFormat::Jpeg));
    }
    assert_eq!(ImageMetadataFormat::from_path("source.PnG"), Some(ImageMetadataFormat::Png));
    for path in ["source", "source.tiff", "source.jpg.pngx"] {
        assert!(ImageMetadataFormat::from_path(path).is_none());
    }
    let jpeg_fields = [
        MetadataField::Title,
        MetadataField::Artist,
        MetadataField::Album,
        MetadataField::Composer,
        MetadataField::Genre,
        MetadataField::Date,
        MetadataField::Track,
        MetadataField::Comment,
        MetadataField::Copyright,
    ];
    for field in MetadataField::ALL {
        for text in ["", "日本語 & <text>\r\n\t"] {
            let metadata = metadata(field, text);
            assert!(ImageMetadataFormat::Png.validate_options(&metadata).is_ok());
            assert_eq!(
                ImageMetadataFormat::Jpeg.validate_options(&metadata).is_ok(),
                jpeg_fields.contains(&field) && (text.is_empty() || !matches!(field, MetadataField::Date | MetadataField::Track))
            );
        }
    }
    for text in ["bad\u{1}", "bad\u{b}", "bad\u{fffe}", "bad\u{ffff}"] {
        assert!(ImageMetadataFormat::Jpeg.validate_options(&metadata(MetadataField::Title, text)).is_err());
    }
}

#[test]
fn jpeg_refusals_name_the_field() {
    match ImageMetadataFormat::Jpeg.validate_options(&metadata(MetadataField::AlbumArtist, "x")) {
        Err(ExportError::Failed(m)) => assert!(m.ends_with(" cannot be written to JPEG metadata")),
        other => panic!("expected a refusal, got {other:?}"),
    }
    match ImageMetadataFormat::Jpeg.validate_options(&metadata(MetadataField::Title, "bad\u{1}")) {
        Err(ExportError::Failed(m)) => assert!(m.ends_with(" holds a character that XML cannot store")),
        other => panic!("expected a refusal, got {other:?}"),
    }
}
