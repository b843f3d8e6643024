use std::sync::atomic::AtomicBool;
use towavue_export::error::ExportError;
use towavue_export::metadata::{MetadataExportOptions, MetadataField};
use towavue_export::png::{inspect, require_static, scan, scan_contents, Animation, PngMetadata};

const SIGNATURE: &[u8] = b"\x89PNG\r\n\x1a\n";

fn chunk(kind: &[u8; 4], data: &[u8]) -> Vec<u8> {
    let mut v = (data.len() as u32).to_be_bytes().to_vec();
    v.extend_from_slice(kind);
    v.extend_from_slice(data);
    let mut covered = kind.to_vec();
    covered.extend_from_slice(data);
    v.extend_from_slice(&crc32fast::hash(&covered).to_be_bytes());
    v
}

fn header() -> Vec<u8> {
    let mut data = 2u32.to_be_bytes().to_vec();
    data.extend_from_slice(&2u32.to_be_bytes());
    data.extend_from_slice(&[8, 6, 0, 0, 0]);
    chunk(b"IHDR", &data)
}

fn png(middle: &[Vec<u8>], image: &[u8]) -> Vec<u8> {
    let mut v = SIGNATURE.to_vec();
    v.extend(header());
    for c in middle {
        v.extend_from_slice(c);
    }
    v.extend(chunk(b"IDAT", image));
    v.extend(chunk(b"IEND", &[]));
    v
}

fn refusal<T: std::fmt::Debug>(result: Result<T, ExportError>) -> String {
    match result {
        Err(ExportError::Failed(message)) => message,
        other => panic!("expected a refusal, got {other:?}"),
    }
}

#[test]
fn text_chunks_name_fields_by_keyword_or_tag_and_others_are_ignored() {
    let never = AtomicBool::new(false);
    let input = png(
        &[
            chunk(b"tEXt", b"Title\0Original title"),
            chunk(b"tEXt", b"Software\0Encoder"),
            chunk(b"iTXt", "AUTHOR\0\0\0en\0\0名前".as_bytes()),
        ],
        b"pixels",
    );
    let texts = scan(&input, &never).expect("valid PNG");
    assert_eq!(texts.len(), 2);
    assert_eq!(texts[0].field, MetadataField::Title);
    assert_eq!(texts[0].text, "Original title");
    assert_eq!(texts[1].field, MetadataField::Artist);
    assert_eq!(texts[1].text, "名前");
    let shown = inspect("source.PNG", &input).expect("inspect");
    assert_eq!(shown.len(), 2);
    assert_eq!(shown[1].value, "名前");
    assert_eq!(refusal(inspect("source.jpg", &input)), "PNG metadata: image text inspection currently requires PNG input");
}

#[test]
fn written_text_reads_back_and_overrides_replace_source_fields() {
    let never = AtomicBool::new(false);
    let source = png(&[chunk(b"tEXt", b"Title\0Kept"), chunk(b"tEXt", b"Author\0Replaced")], b"a");
    let mut options = MetadataExportOptions::default();
    options.set(MetadataField::Artist, Some("新しい".into())).expect("set");
    let metadata = PngMetadata::prepare("in.png", "out.png", &source, &options, &never).expect("prepare");
    assert_eq!(metadata.chunks.len(), 2);
    let staged = png(&[chunk(b"tEXt", b"Comment\0stale encoder text"), chunk(b"pHYs", &[0; 9])], b"encoded");
    let written = metadata.apply(&staged, &never).expect("apply");
    let texts = scan(&written, &never).expect("written PNG");
    let fields: Vec<(MetadataField, String)> = texts.iter().map(|t| (t.field, t.text.clone())).collect();
    assert_eq!(fields, vec![(MetadataField::Title, "Kept".to_string()), (MetadataField::Artist, "新しい".to_string())]);
    assert!(written.windows(4).any(|w| w == b"pHYs"));
    assert!(!written.windows(5).any(|w| w == b"stale"));
    assert_eq!(
        refusal(PngMetadata::prepare("in.jpg", "out.png", &source, &options, &never)),
        "PNG metadata: image text export currently requires PNG input and PNG output"
    );
}

#[test]
fn corrupt_chunks_and_boundaries_are_refused() {
    let never = AtomicBool::new(false);
    let mut input = png(&[], b"x");
    let last = input.len() - 13;
    input[last] ^= 1;
    assert_eq!(refusal(scan(&input, &never)), "PNG metadata: chunk CRC mismatch");
    assert_eq!(refusal(scan(b"GIF89a..", &never)), "PNG metadata: input is not PNG");
    let mut trailing = png(&[], b"x");
    trailing.push(0);
    assert_eq!(refusal(scan(&trailing, &never)), "PNG metadata: trailing bytes after IEND");
    let lower = png(&[chunk(b"texT", b"x")], b"x");
    assert_eq!(refusal(scan(&lower, &never)), "PNG metadata: invalid chunk header or image boundaries");
    assert_eq!(refusal(scan(&png(&[chunk(b"tEXt", b" bad\0x")], b"x"), &never)), "PNG metadata: invalid text keyword");
    assert!(matches!(scan(&png(&[], b"x"), &AtomicBool::new(true)), Err(ExportError::Cancelled)));
    assert!(matches!(scan(&png(&[], b"x")[..20], &never), Err(ExportError::Output(_))));
}

#[test]
fn encoded_frames_join_into_an_animation_that_reads_back() {
    let never = AtomicBool::new(false);
    let mut frames = png(&[], b"first");
    frames.extend(png(&[], b"second"));
    let animation = Animation { plays: 3, delays: vec![0x0001_000a, 0x0002_000a], includes_default: true };
    let joined = animation.assemble(&frames, &never).expect("assemble");
    let contents = scan_contents(&joined, false, &[], Some(&animation), &never).expect("APNG");
    let found = contents.animation.expect("animated");
    assert_eq!(found.plays, 3);
    assert_eq!(found.delays, vec![0x0001_000a, 0x0002_000a]);
    assert!(found.includes_default);
    assert_eq!(refusal(require_static(&joined, &never)), "PNG metadata: animation export requires PNG or APNG output");
    assert!(require_static(&png(&[], b"x"), &never).is_ok());
    assert!(matches!(animation.assemble(&png(&[], b"only"), &never), Err(ExportError::Output(_))));
    let mut extra = frames.clone();
    extra.extend(png(&[], b"third"));
    assert_eq!(refusal(animation.assemble(&extra, &never)), "PNG metadata: extra encoded animation frames");
}

#[test]
fn rewrite_without_recognized_text_copies_every_chunk() {
    let never = AtomicBool::new(false);
    let input = png(
        &[chunk(b"tEXt", b"Software\0Encoder"), chunk(b"pHYs", &[0, 0, 11, 19, 0, 0, 11, 19, 1])],
        b"compressed pixels",
    );
    let contents = scan_contents(&input, true, &[], None, &never).expect("valid PNG");
    assert!(contents.texts.is_empty());
    assert_eq!(contents.output, input);
}

#[test]
fn rewrite_and_scan_accept_and_refuse_the_same_streams() {
    let never = AtomicBool::new(false);
    let source = png(&[chunk(b"tEXt", b"Title\0Kept")], b"a");
    let texts = scan(&source, &never).expect("source");
    let input = png(&[chunk(b"tEXt", b"Author\0Someone"), chunk(b"pHYs", &[0; 9])], b"pixels");
    let written = scan_contents(&input, true, &texts, None, &never).expect("rewrite");
    let read = scan_contents(&input, false, &texts, None, &never).expect("scan");
    assert_eq!(written.texts.len(), 1);
    assert_eq!(read.texts.len(), 1);
    assert_eq!(written.texts[0].text, read.texts[0].text);
    assert_eq!(written.texts[0].field, MetadataField::Artist);
    assert!(read.output.is_empty());
    let mut corrupt = input.clone();
    let last = corrupt.len() - 13;
    corrupt[last] ^= 1;
    assert_eq!(refusal(scan_contents(&corrupt, true, &texts, None, &never)), "PNG metadata: chunk CRC mismatch");
    assert_eq!(refusal(scan_contents(&corrupt, false, &texts, None, &never)), "PNG metadata: chunk CRC mismatch");
}

fn holds(bytes: &[u8], piece: &[u8]) -> bool {
    bytes.windows(piece.len()).any(|w| w == piece)
}

#[test]
fn assembled_apng_holds_its_animation_and_frame_controls() {
    let never = AtomicBool::new(false);
    let frames = [png(&[], b"first"), png(&[], b"second"), png(&[], b"third")].concat();
    let animation = Animation { plays: 5, delays: vec![0x0001_0019, 0x0003_0064, 0x0000_0001], includes_default: true };
    let joined = animation.assemble(&frames, &never).expect("assemble");
    assert!(holds(&joined, &chunk(b"acTL", &[0, 0, 0, 3, 0, 0, 0, 5])));
    let controls: Vec<&[u8]> = joined.windows(4).enumerate().filter(|(_, w)| *w == b"fcTL").map(|(i, _)| &joined[i + 4..i + 30]).collect();
    assert_eq!(controls.len(), 3);
    for (control, delay) in controls.iter().zip(&animation.delays) {
        assert_eq!(&control[20..24], &delay.to_be_bytes());
    }
}
