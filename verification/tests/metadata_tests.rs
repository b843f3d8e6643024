use towavue_export::metadata::{source_values, MetadataExportOptions, MetadataField};

fn edits(field: MetadataField, value: &str) -> MetadataExportOptions {
    let mut options = MetadataExportOptions::default();
    options.set(field, Some(value.into())).expect("valid text");
    options
}

#[test]
fn metadata_options_are_bounded_transactional_and_pass_literal_arguments() {
    let text = "日本語 = ; # \\\"\n-next-option";
    let mut options = edits(MetadataField::Title, text);
    assert_eq!(options.get(MetadataField::Title), Some(text));
    assert_eq!(
        options.arguments(),
        vec![
            "-metadata:g".to_string(),
            format!("title={text}"),
            "-metadata:s".to_string(),
            format!("title={text}")
        ]
    );
    for bad in ["x\0y".to_string(), "x".repeat(1025), "音".repeat(342)] {
        assert!(options.set(MetadataField::Title, Some(bad)).is_err());
        assert_eq!(options.get(MetadataField::Title), Some(text));
    }
    options
        .set(MetadataField::Title, Some(String::new()))
        .expect("remove");
    assert_eq!(options.get(MetadataField::Title), Some(""));
    options.set(MetadataField::Title, None).expect("keep");
    assert!(options.is_empty());
    for field in MetadataField::ALL.into_iter().take(4) {
        options
            .set(field, Some("x".repeat(1024)))
            .expect("bounded total");
    }
    let before = options.clone();
    assert!(options.set(MetadataField::Genre, Some("x".into())).is_err());
    assert_eq!(options, before);
    options
        .set(MetadataField::Title, None)
        .expect("restore keep frees space");
    options
        .set(MetadataField::Genre, Some("x".into()))
        .expect("space reused");
}

#[test]
fn field_keys_and_labels_follow_export_order() {
    let keys: Vec<&str> = MetadataField::ALL.iter().map(|f| f.key()).collect();
    assert_eq!(
        keys,
        vec!["title", "artist", "album", "album_artist", "composer", "genre", "date", "track", "comment", "copyright"]
    );
    assert_eq!(MetadataField::AlbumArtist.label(), "Album artist");
}

#[test]
fn a_written_value_reads_back_and_a_refused_one_changes_nothing() {
    let mut options = MetadataExportOptions::default();
    options.set(MetadataField::Comment, Some("first".into())).expect("set");
    assert_eq!(options.get(MetadataField::Comment), Some("first"));
    assert!(options.set(MetadataField::Comment, Some("a\0b".into())).is_err());
    assert_eq!(options.get(MetadataField::Comment), Some("first"));
    assert_eq!(options.get(MetadataField::Title), None);
}

#[test]
fn source_values_take_the_first_matching_tag_of_each_field() {
    let long = "é".repeat(600);
    let tags = vec![
        ("ARTIST".to_string(), "First".to_string()),
        ("title".to_string(), long.clone()),
        ("artist".to_string(), "Second".to_string()),
        ("encoder".to_string(), "x".to_string()),
    ];
    let values = source_values("File", &tags);
    assert_eq!(values.len(), 2);
    assert_eq!(values[0].field, MetadataField::Title);
    assert_eq!(values[0].value.len(), 1024);
    assert!(values[0].truncated);
    assert_eq!(values[1].field, MetadataField::Artist);
    assert_eq!(values[1].value, "First");
    assert_eq!(values[1].scope, "File");
    assert!(!values[1].truncated);
}
