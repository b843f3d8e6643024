use std::io::{Cursor, Write};
use std::sync::atomic::AtomicBool;
use towavue_export::error::ExportError;
use towavue_export::metadata::{MetadataExportOptions, MetadataField};
use towavue_export::png::{inspect, scan, scan_contents, Animation, PngMetadata, TextChunk, TEXT_COUNT_LIMIT, TEXT_LIMIT};

const SIGNATURE: &[u8] = b"\x89PNG\r\n\x1a\n";

fn fixture() -> Vec<u8> {
    let pixels = image::RgbaImage::from_fn(32, 24, |x, y| {
        image::Rgba([(x * 7) as u8, (y * 9) as u8, (x * y) as u8, (x * 5 + y * 3) as u8])
    });
    let mut encoded = Cursor::new(Vec::new());
    image::DynamicImage::ImageRgba8(pixels).write_to(&mut encoded, image::ImageFormat::Png).expect("PNG fixture");
    encoded.into_inner()
}

fn chunk(kind: &[u8; 4], data: &[u8]) -> Vec<u8> {
    let mut v = (data.len() as u32).to_be_bytes().to_vec();
    v.extend_from_slice(kind);
    v.extend_from_slice(data);
    let mut covered = kind.to_vec();
    covered.extend_from_slice(data);
    v.extend_from_slice(&crc32fast::hash(&covered).to_be_bytes());
    v
}

fn compressed(text: &[u8]) -> Vec<u8> {
    let mut encoder = flate2::write::ZlibEncoder::new(Vec::new(), flate2::Compression::default());
    encoder.write_all(text).expect("compress text");
    encoder.finish().expect("zlib end")
}

fn international(key: &str, text: &str, compress: bool) -> Vec<u8> {
    let mut data = key.as_bytes().to_vec();
    data.extend_from_slice(&[0, u8::from(compress), 0]);
    data.extend_from_slice("ja\0日本語\0".as_bytes());
    data.extend_from_slice(&if compress { compressed(text.as_bytes()) } else { text.as_bytes().to_vec() });
    chunk(b"iTXt", &data)
}

fn with_texts(texts: &[Vec<u8>]) -> Vec<u8> {
    let mut png = fixture();
    let end = png.len() - 12;
    png.splice(end..end, texts.iter().flatten().copied());
    png
}

fn scan_bytes(data: &[u8]) -> Result<Vec<TextChunk>, ExportError> {
    scan(data, &AtomicBool::new(false))
}

fn message(error: ExportError) -> String {
    match error {
        ExportError::Failed(m) => m,
        other => format!("{other:?}"),
    }
}

fn without_text(data: &[u8]) -> Vec<u8> {
    let mut result = data[..8].to_vec();
    let mut position = 8;
    while position < data.len() {
        let size = u32::from_be_bytes(data[position..position + 4].try_into().expect("length")) as usize;
        let end = position + size + 12;
        if !matches!(&data[position + 4..position + 8], b"tEXt" | b"zTXt" | b"iTXt") {
            result.extend_from_slice(&data[position..end]);
        }
        position = end;
    }
    result
}

fn map_chunks(bytes: &[u8], mut change: impl FnMut([u8; 4], &mut Vec<u8>) -> bool) -> Vec<u8> {
    let mut output = bytes[..8].to_vec();
    let mut position = 8;
    while position < bytes.len() {
        let length = u32::from_be_bytes(bytes[position..position + 4].try_into().expect("length")) as usize;
        let kind = bytes[position + 4..position + 8].try_into().expect("kind");
        let mut data = bytes[position + 8..position + 8 + length].to_vec();
        if change(kind, &mut data) {
            output.extend(chunk(&kind, &data));
        }
        position += length + 12;
    }
    output
}

fn animation_fixture(plays: u32, delays: &[[u8; 4]]) -> Vec<u8> {
    let mut result = SIGNATURE.to_vec();
    let mut sequence = 0u32;
    for (index, delay) in delays.iter().enumerate() {
        let pixels = image::RgbaImage::from_fn(32, 24, |x, y| image::Rgba([(x * 7) as u8, (y * 9) as u8, (index * 73) as u8, 128]));
        let mut encoded = Cursor::new(Vec::new());
        image::DynamicImage::ImageRgba8(pixels).write_to(&mut encoded, image::ImageFormat::Png).expect("frame PNG");
        let encoded = encoded.into_inner();
        if index == 0 {
            result.extend_from_slice(&encoded[8..33]);
            result.extend(chunk(b"acTL", &[&(delays.len() as u32).to_be_bytes()[..], &plays.to_be_bytes()].concat()));
        }
        let mut control = Vec::new();
        for number in [sequence, 32, 24, 0, 0] {
            control.extend_from_slice(&number.to_be_bytes());
        }
        sequence += 1;
        control.extend_from_slice(delay);
        control.extend_from_slice(&[0, 0]);
        result.extend(chunk(b"fcTL", &control));
        let mut offset = 33;
        while offset < encoded.len() {
            let length = u32::from_be_bytes(encoded[offset..offset + 4].try_into().expect("length")) as usize;
            if &encoded[offset + 4..offset + 8] == b"IDAT" {
                let data = &encoded[offset + 8..offset + 8 + length];
                if index == 0 {
                    result.extend(chunk(b"IDAT", data));
                } else {
                    result.extend(chunk(b"fdAT", &[&sequence.to_be_bytes()[..], data].concat()));
                    sequence += 1;
                }
            }
            offset += length + 12;
        }
    }
    result.extend(chunk(b"tEXt", b"Title\0Animated title"));
    result.extend(chunk(b"IEND", &[]));
    result
}

fn title(value: &str) -> MetadataExportOptions {
    let mut options = MetadataExportOptions::default();
    options.set(MetadataField::Title, Some(value.into())).expect("title option");
    options
}

fn parts(chunks: &[TextChunk]) -> Vec<(u32, Vec<u8>, MetadataField, String)> {
    chunks.iter().map(|c| (c.kind, c.data.clone(), c.field, c.text.clone())).collect()
}

#[test]
fn png_text_inspection_reads_all_encodings_variants_and_bounds_display_only() {
    let mut ztxt = b"Author\0\0".to_vec();
    ztxt.extend_from_slice(&compressed(b"Andr\xe9"));
    let bytes = with_texts(&[
        chunk(b"tEXt", b"Title\0Old title"),
        chunk(b"zTXt", &ztxt),
        international("TITLE", "題名\ntext", false),
        international("Comment", &"音".repeat(500), true),
        international("XML:com.adobe.xmp", "not one of the editable fields", false),
    ]);
    let values = inspect("source.PNG", &bytes).expect("PNG values");
    assert_eq!(values.len(), 4);
    assert!(values.iter().all(|value| value.scope == "PNG text"));
    assert_eq!(values[0].value, "Old title");
    assert_eq!(values[1].value, "André");
    assert_eq!(values[2].value, "題名\ntext");
    assert_eq!(values[3].value, "音".repeat(341));
    assert!(values[3].truncated);
    assert_eq!(scan_bytes(&bytes).expect("full Keep")[3].text, "音".repeat(500));
    assert!(inspect("source.jpg", &bytes).is_err());
}

#[test]
fn apng_scan_rejects_corrupt_controls_sequences_bounds_and_truncation() {
    let bytes = animation_fixture(2, &[[0, 1, 0, 10]; 3]);
    let cancel = AtomicBool::new(false);
    let parse = |bytes: &[u8]| scan_contents(bytes, false, &[], None, &cancel);
    for end in 0..bytes.len() {
        assert!(parse(&bytes[..end]).is_err(), "truncated at {end}");
    }
    for (kind, offset, value) in [
        (*b"acTL", 0, 0u32),
        (*b"acTL", 0, 2),
        (*b"acTL", 0, 65537),
        (*b"acTL", 4, u32::MAX),
        (*b"fcTL", 0, 9),
        (*b"fcTL", 4, 0),
        (*b"fcTL", 4, 33),
        (*b"fcTL", 12, u32::MAX),
        (*b"fdAT", 0, 0),
    ] {
        let bad = map_chunks(&bytes, |found, data| {
            if found == kind {
                data[offset..offset + 4].copy_from_slice(&value.to_be_bytes());
            }
            true
        });
        assert!(parse(&bad).is_err(), "{kind:?} offset={offset} value={value}");
    }
    for offset in [24, 25] {
        let bad = map_chunks(&bytes, |kind, data| {
            if &kind == b"fcTL" {
                data[offset] = 3;
            }
            true
        });
        assert!(parse(&bad).is_err());
    }
    for kind in [*b"acTL", *b"fcTL", *b"fdAT"] {
        let short = map_chunks(&bytes, |found, data| {
            if found == kind {
                data.truncate(3);
            }
            true
        });
        assert!(parse(&short).is_err());
        let absent = map_chunks(&bytes, |found, _| found != kind);
        assert!(parse(&absent).is_err());
    }
    let mut duplicate = bytes.clone();
    duplicate.splice(33..33, bytes[33..53].iter().copied());
    assert!(parse(&duplicate).is_err());
    let mut crc = bytes.clone();
    crc[52] ^= 1;
    assert!(parse(&crc).is_err());
    let extra = [&bytes[..], &[0]].concat();
    assert!(parse(&extra).is_err());
    let animation = parse(&bytes).expect("valid").animation.expect("animation");
    assert_eq!(animation.plays, 2);
    assert_eq!(animation.delays, vec![u32::from_be_bytes([0, 1, 0, 10]); 3]);
    assert!(animation.includes_default);
}

#[test]
fn apng_assembly_is_bounded_and_preserves_compressed_pixels_on_failure_and_success() {
    let bytes = animation_fixture(2, &[[0, 1, 0, 10]; 2]);
    let cancel = AtomicBool::new(false);
    let animation: Animation = scan_contents(&bytes, false, &[], None, &cancel).expect("source").animation.expect("animation");
    let png = fixture();
    let frames = [&png[..], &png[..]].concat();
    let output = animation.assemble(&frames, &cancel).expect("assemble");
    let read = scan_contents(&output, false, &[], None, &cancel).expect("result").animation.expect("animation");
    assert_eq!(read.plays, 2);
    assert_eq!(read.delays, vec![u32::from_be_bytes([0, 1, 0, 10]); 2]);
    assert!(read.includes_default);
    let compressed = |bytes: &[u8]| {
        let mut data = Vec::new();
        map_chunks(bytes, |kind, bytes| {
            if &kind == b"IDAT" {
                data.extend_from_slice(bytes);
            } else if &kind == b"fdAT" {
                data.extend_from_slice(&bytes[4..]);
            }
            true
        });
        data
    };
    assert_eq!(compressed(&output), compressed(&png).repeat(2));
    for end in 0..frames.len() {
        assert!(animation.assemble(&frames[..end], &cancel).is_err(), "truncated frames {end}");
    }
    assert!(animation.assemble(&[&frames[..], &png].concat(), &cancel).is_err());
    let changed_size = map_chunks(&png, |kind, data| {
        if &kind == b"IHDR" {
            data[3] += 1;
        }
        true
    });
    assert!(animation.assemble(&[&png[..], &changed_size].concat(), &cancel).is_err());
    let mut corrupt = frames.clone();
    corrupt[32] ^= 1;
    assert!(animation.assemble(&corrupt, &cancel).is_err());
    assert!(matches!(animation.assemble(&frames, &AtomicBool::new(true)), Err(ExportError::Cancelled)));
}

#[test]
fn png_text_rejects_corruption_truncation_invalid_text_and_bounded_expansion() {
    let original = with_texts(&[international("Title", "hello", true)]);
    for end in 0..original.len() {
        assert!(scan_bytes(&original[..end]).is_err(), "truncation at {end}");
    }
    let mut bad_crc = original.clone();
    bad_crc[20] ^= 1;
    assert!(message(scan_bytes(&bad_crc).expect_err("CRC")).contains("CRC"));
    let mut trailing = original.clone();
    trailing.push(0);
    assert!(scan_bytes(&trailing).is_err());
    for bad in [
        chunk(b"tEXt", b"\0no keyword"),
        chunk(b"tEXt", b"Title"),
        chunk(b"tEXt", b" Title\0bad"),
        chunk(b"tEXt", b"A  B\0bad"),
        chunk(b"tEXt", b"Title\0a\0b"),
        chunk(b"zTXt", b"Title\0\x01bad method"),
        chunk(b"iTXt", b"Title\0\x02\0\0\0bad flag"),
        chunk(b"iTXt", b"Title\0\0\0\xff\0\0bad language"),
        chunk(b"iTXt", b"Title\0\0\0\0\xff\0bad translation"),
        chunk(b"iTXt", b"Title\0\0\0\0\0\xff"),
    ] {
        assert!(scan_bytes(&with_texts(&[bad])).is_err());
    }
    let compressed = compressed(b"valid title");
    for end in 0..compressed.len() {
        let mut payload = b"Title\0\0".to_vec();
        payload.extend_from_slice(&compressed[..end]);
        assert!(scan_bytes(&with_texts(&[chunk(b"zTXt", &payload)])).is_err(), "zlib truncated {end}");
    }
    let mut extra = b"Title\0\0".to_vec();
    extra.extend_from_slice(&compressed);
    extra.push(0);
    assert!(scan_bytes(&with_texts(&[chunk(b"zTXt", &extra)])).is_err());
    let oversized = international("Comment", &"x".repeat(TEXT_LIMIT + 1), true);
    assert!(message(scan_bytes(&with_texts(&[oversized])).expect_err("zip bound")).contains("1 MiB"));
    let half = international("Comment", &"x".repeat(TEXT_LIMIT / 2 + 1), true);
    assert_eq!(
        scan_bytes(&with_texts(std::slice::from_ref(&half))).expect("valid multi-buffer inflation")[0].text.len(),
        TEXT_LIMIT / 2 + 1
    );
    assert!(scan_bytes(&with_texts(&[half.clone(), half])).is_err());
    let exact = international("Comment", &"x".repeat(TEXT_LIMIT), true);
    assert_eq!(scan_bytes(&with_texts(&[exact])).expect("exact expanded bound")[0].text.len(), TEXT_LIMIT);
    let raw = chunk(b"tEXt", &[b"Title\0".as_slice(), &vec![b'x'; TEXT_LIMIT]].concat());
    assert!(scan_bytes(&with_texts(&[raw])).is_err());
    let count = vec![chunk(b"tEXt", b"Title\0x"); TEXT_COUNT_LIMIT];
    assert_eq!(scan_bytes(&with_texts(&count)).expect("count limit").len(), TEXT_COUNT_LIMIT);
    let count = vec![chunk(b"tEXt", b"Title\0x"); TEXT_COUNT_LIMIT + 1];
    assert!(scan_bytes(&with_texts(&count)).is_err());
    assert!(matches!(scan(&original, &AtomicBool::new(true)), Err(ExportError::Cancelled)));
}

#[test]
fn png_metadata_splice_preserves_encoded_image_and_keep_chunks_exactly() {
    let mut artist = b"Author\0\0".to_vec();
    artist.extend_from_slice(&compressed(b"Original artist"));
    let original = with_texts(&[
        chunk(b"tEXt", b"title\0first"),
        international("Title", "二番", true),
        chunk(b"zTXt", &artist),
        international("Comment", &"音".repeat(500), true),
        international("XML:com.adobe.xmp", "do not copy source technical tags", false),
    ]);
    let mut encoded = with_texts(&[
        international("Title", "stale encoder title", false),
        chunk(b"tEXt", b"Software\0Encoded by fixture"),
    ]);
    // Ancillary technical bytes and IDAT must be copied, not interpreted or re-encoded.
    encoded.splice(33..33, chunk(b"pHYs", &[0, 0, 0, 72, 0, 0, 0, 72, 1]));
    let cancel = AtomicBool::new(false);
    let metadata = PngMetadata::prepare("source.png", "target.png", &original, &title("新しい\n= ; \" title"), &cancel)
        .expect("prepare");
    let actual = metadata.apply(&encoded, &cancel).expect("splice");
    assert_eq!(without_text(&actual), without_text(&encoded));
    assert_eq!(
        image::load_from_memory(&actual).expect("decode"),
        image::load_from_memory(&encoded).expect("baseline")
    );
    assert_eq!(parts(&scan_bytes(&actual).expect("read back")), parts(&metadata.chunks));
    let originals = scan_bytes(&original).expect("original tags");
    assert_eq!(parts(&metadata.chunks[0..1]), parts(&originals[2..3]));
    assert_eq!(parts(&metadata.chunks[1..2]), parts(&originals[3..4]));
    assert!(actual.windows(b"Software".len()).any(|bytes| bytes == b"Software"));
    assert!(!actual.windows(b"XML:com.adobe.xmp".len()).any(|bytes| bytes == b"XML:com.adobe.xmp"));
}

#[test]
fn applying_text_to_a_corrupt_stage_reports_the_scan_refusal() {
    let cancel = AtomicBool::new(false);
    let metadata = PngMetadata::prepare("source.png", "target.png", &fixture(), &title("new"), &cancel).expect("prepare");
    let mut corrupt = fixture();
    corrupt[20] ^= 1;
    assert_eq!(message(metadata.apply(&corrupt, &cancel).expect_err("corrupt stage")), "PNG metadata: chunk CRC mismatch");
    assert!(matches!(metadata.apply(&fixture(), &AtomicBool::new(true)), Err(ExportError::Cancelled)));
    let written = metadata.apply(&fixture(), &cancel).expect("valid stage");
    assert_eq!(scan_bytes(&written).expect("read back")[0].text, "new");
}
