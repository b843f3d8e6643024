use std::sync::atomic::AtomicBool;
use towavue_export::error::ExportError;
use towavue_export::jpeg::scan;

const XMP: &[u8] = b"http://ns.adobe.com/xap/1.0/\0";

fn segment(code: u8, data: &[u8]) -> Vec<u8> {
    let mut v = vec![0xff, code];
    v.extend_from_slice(&((data.len() + 2) as u16).to_be_bytes());
    v.extend_from_slice(data);
    v
}

fn jpeg(extra: &[Vec<u8>]) -> Vec<u8> {
    let mut v = vec![0xff, 0xd8];
    v.extend(segment(0xe0, b"JFIF\0\x01\x02\0\0\x01\0\x01\0\0"));
    for s in extra {
        v.extend_from_slice(s);
    }
    v.extend(segment(0xdb, &[0; 5]));
    v.extend(segment(0xda, &[1, 2, 3, 4, 5, 6]));
    v.extend_from_slice(&[0x12, 0x34, 0xff, 0x00, 0x56, 0xff, 0xd0, 0x78]);
    v.extend_from_slice(&[0xff, 0xd9]);
    v
}

fn failure(result: Result<towavue_export::jpeg::JpegScan, ExportError>) -> String {
    match result {
        Err(ExportError::Failed(message)) => message,
        other => panic!("expected a refusal, got {other:?}"),
    }
}

#[test]
fn scanning_finds_no_packet_and_rewriting_without_one_copies_the_stream() {
    let input = jpeg(&[]);
    let never = AtomicBool::new(false);
    let read = scan(&input, false, &[], &never).expect("valid JPEG");
    assert!(read.packet.is_none());
    assert!(read.output.is_empty());
    let copied = scan(&input, true, &[], &never).expect("rewrite");
    assert_eq!(copied.output, input);
}

#[test]
fn a_written_packet_is_read_back_and_replaces_the_old_one() {
    let never = AtomicBool::new(false);
    let mut old = XMP.to_vec();
    old.extend_from_slice(b"<old/>");
    let input = jpeg(&[segment(0xe1, &old)]);
    let read = scan(&input, false, &[], &never).expect("valid JPEG");
    assert_eq!(read.packet.as_deref(), Some(&b"<old/>"[..]));
    let written = scan(&input, true, b"<new/>", &never).expect("rewrite");
    let reread = scan(&written.output, false, &[], &never).expect("rewritten JPEG");
    assert_eq!(reread.packet.as_deref(), Some(&b"<new/>"[..]));
    let mut expected = vec![0xff, 0xd8];
    expected.extend(segment(0xe0, b"JFIF\0\x01\x02\0\0\x01\0\x01\0\0"));
    let mut packet = XMP.to_vec();
    packet.extend_from_slice(b"<new/>");
    expected.extend(segment(0xe1, &packet));
    assert!(written.output.starts_with(&expected));
}

#[test]
fn malformed_streams_are_refused_with_their_reason() {
    let never = AtomicBool::new(false);
    assert_eq!(failure(scan(b"\x89PNG", false, &[], &never)), "JPEG metadata: input is not JPEG");
    let mut extended = b"http://ns.adobe.com/xmp/extension/\0".to_vec();
    extended.extend_from_slice(b"part");
    assert_eq!(
        failure(scan(&jpeg(&[segment(0xe1, &extended)]), false, &[], &never)),
        "JPEG metadata: Extended XMP is not supported yet"
    );
    let mut two = XMP.to_vec();
    two.extend_from_slice(b"<a/>");
    assert_eq!(
        failure(scan(&jpeg(&[segment(0xe1, &two), segment(0xe1, &two)]), false, &[], &never)),
        "JPEG metadata: multiple standard XMP packets"
    );
    let mut trailing = jpeg(&[]);
    trailing.push(0);
    assert_eq!(failure(scan(&trailing, false, &[], &never)), "JPEG metadata: trailing data after JPEG image");
    let no_scan = [0xff, 0xd8, 0xff, 0xd9];
    assert_eq!(failure(scan(&no_scan, false, &[], &never)), "JPEG metadata: JPEG has no image scan");
    let truncated = &jpeg(&[])[..20];
    assert!(matches!(scan(truncated, false, &[], &never), Err(ExportError::Output(_)) | Err(ExportError::Failed(_))));
    assert!(matches!(scan(&jpeg(&[]), false, &[], &AtomicBool::new(true)), Err(ExportError::Cancelled)));
}

#[test]
fn rewriting_without_a_packet_cuts_out_only_the_xmp_segment() {
    let never = AtomicBool::new(false);
    let mut old = XMP.to_vec();
    old.extend_from_slice(b"<old/>");
    let xmp = segment(0xe1, &old);
    let comment = segment(0xfe, b"kept comment");
    let input = jpeg(&[comment.clone(), xmp.clone()]);
    let rewritten = scan(&input, true, &[], &never).expect("rewrite");
    assert_eq!(rewritten.packet.as_deref(), Some(&b"<old/>"[..]));
    let at = input.windows(xmp.len()).position(|w| w == xmp.as_slice()).expect("segment");
    let mut expected = input[..at].to_vec();
    expected.extend_from_slice(&input[at + xmp.len()..]);
    assert_eq!(rewritten.output, expected);
}

#[test]
fn a_new_packet_is_spliced_into_the_packetless_rewrite() {
    let never = AtomicBool::new(false);
    let mut old = XMP.to_vec();
    old.extend_from_slice(b"<old/>");
    let input = jpeg(&[segment(0xe1, &old), segment(0xfe, b"kept comment")]);
    let without = scan(&input, true, &[], &never).expect("rewrite without packet");
    let with = scan(&input, true, b"<new/>", &never).expect("rewrite with packet");
    assert_eq!(with.packet, without.packet);
    let mut packet = XMP.to_vec();
    packet.extend_from_slice(b"<new/>");
    let inserted = segment(0xe1, &packet);
    let at = with.output.windows(inserted.len()).position(|w| w == inserted.as_slice()).expect("inserted segment");
    let mut rest = with.output[..at].to_vec();
    rest.extend_from_slice(&with.output[at + inserted.len()..]);
    assert_eq!(rest, without.output);
    let mut truncated = input.clone();
    truncated.truncate(input.len() - 3);
    assert_eq!(failure(scan(&truncated, true, b"<new/>", &never)), failure(scan(&truncated, true, &[], &never)));
}

#[test]
fn short_or_foreign_input_is_refused_even_when_cancelled() {
    let cancelled = AtomicBool::new(true);
    assert!(matches!(scan(b"\xff", false, &[], &cancelled), Err(ExportError::Output(_))));
    match scan(b"\x89PNG", false, &[], &cancelled) {
        Err(ExportError::Failed(m)) => assert_eq!(m, "JPEG metadata: input is not JPEG"),
        other => panic!("expected a refusal, got {other:?}"),
    }
}
