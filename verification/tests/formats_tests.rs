use towavue_export::formats::{alpha16, alpha8, Choices, Format, Transparency};

#[test]
fn export_formats_retain_supported_aliases_replace_unsupported_defaults_and_reject_mismatches() {
    for (source, format, extension) in [
        ("image.JPEG", Format::Jpeg, "JPEG"),
        ("animation.apng", Format::Png, "apng"),
        ("video.m2ts", Format::TransportStream, "m2ts"),
    ] {
        let choices = Choices::new(vec![Format::Mp4, format], source).expect("choices");
        assert_eq!(choices.initial, 1);
        assert_eq!(choices.default_extension, extension);
        assert_eq!(choices.filename(source), source);
        assert!(choices.validate(2, source).is_ok());
        assert!(choices.validate(1, source).is_err());
        assert!(choices.validate(0, source).is_err());
        assert!(choices.validate(3, source).is_err());
        assert!(choices.validate(2, "missing-extension").is_err());
    }
    let choices = Choices::new(vec![Format::Mp4], "source.ogv").expect("fallback");
    assert_eq!(
        choices.filename("source.final-export.ogv"),
        "source.final-export.mp4"
    );
    assert!(Choices::new(vec![], "source.png").is_err());
    assert!(!Format::FramePng.accepts("frame.apng"));
}

#[test]
fn mismatched_file_type_names_the_expected_format() {
    let choices = Choices::new(vec![Format::Mp4, Format::Jpeg], "image.jpg").expect("choices");
    assert_eq!(
        choices.validate(1, "image.jpg"),
        Err(format!(
            "The filename extension does not match {}. Change the filename extension or select the matching file type.",
            Format::Mp4.label()
        ))
    );
    assert_eq!(choices.validate(9, "image.jpg"), Err("Choose a supported file type.".to_string()));
}

#[test]
fn alpha_samples_are_judged_in_sixteen_bit_scale() {
    assert_eq!(alpha8(&[9, 255, 9, 255], 2), Transparency::Opaque);
    assert_eq!(alpha8(&[9, 0, 9, 255], 2), Transparency::Binary);
    assert_eq!(alpha8(&[1, 2, 3, 128, 1, 2, 3, 0], 4), Transparency::Full);
    assert_eq!(alpha8(&[], 4), Transparency::Opaque);
    assert_eq!(alpha16(&[0, 65535, 0, 65534], 2), Transparency::Full);
    assert_eq!(alpha16(&[0, 0, 0, 0], 4), Transparency::Binary);
    assert!(towavue_export::jpeg::jpeg_path("a.JPEG") && towavue_export::jpeg::jpeg_path("b.jpg"));
    assert!(!towavue_export::jpeg::jpeg_path("c.jpe"));
}
