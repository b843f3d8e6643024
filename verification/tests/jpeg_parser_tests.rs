use std::io::Cursor;
use std::sync::atomic::AtomicBool;
use towavue_export::jpeg::scan;

const PACKET: &str = r#"<x:xmpmeta xmlns:x="adobe:ns:meta/"><r:RDF xmlns:r="http://www.w3.org/1999/02/22-rdf-syntax-ns#"><r:Description xmlns:d="http://purl.org/dc/elements/1.1/" xmlns:m="http://ns.adobe.com/xmp/1.0/DynamicMedia/" xmlns:t="http://ns.adobe.com/tiff/1.0/" r:about="" t:Orientation="6"><d:title><r:Alt><r:li xml:lang="x-default">Original &amp; title</r:li><r:li xml:lang="ja">日本語の題名</r:li></r:Alt></d:title><d:creator><r:Seq><r:li>First author</r:li><r:li><![CDATA[Second <author>]]></r:li></r:Seq></d:creator><d:description><r:Alt><r:li xml:lang="x-default">Original comment</r:li></r:Alt></d:description><d:rights><r:Alt><r:li xml:lang="x-default">Original rights</r:li></r:Alt></d:rights><m:album>Original album</m:album><m:composer>Original composer</m:composer><m:genre>Original genre</m:genre></r:Description></r:RDF></x:xmpmeta>"#;
const XMP: &[u8] = b"http://ns.adobe.com/xap/1.0/\0";
const EXTENDED: &[u8] = b"http://ns.adobe.com/xmp/extension/\0";

fn fixture() -> Vec<u8> {
    let pixels = image::RgbImage::from_fn(32, 24, |x, y| image::Rgb([(x * 7) as u8, (y * 9) as u8, (x * y) as u8]));
    let mut output = Cursor::new(Vec::new());
    image::DynamicImage::ImageRgb8(pixels).write_to(&mut output, image::ImageFormat::Jpeg).expect("JPEG fixture");
    output.into_inner()
}

fn segment(code: u8, bytes: &[u8]) -> Vec<u8> {
    [&[0xff, code][..], &((bytes.len() + 2) as u16).to_be_bytes(), bytes].concat()
}

fn tagged(packet: &[u8]) -> Vec<u8> {
    scan(&fixture(), true, packet, &AtomicBool::new(false)).expect("fixture packet").output
}

#[test]
fn jpeg_marker_parser_preserves_stuffed_bytes_restarts_and_multiple_synthetic_scans() {
    let mut synthetic = vec![0xff, 0xd8];
    synthetic.extend(segment(0xe0, b"JFIF\0"));
    synthetic.extend(segment(0xda, b"scan1"));
    synthetic.extend([1, 2, 0xff, 0, 3, 0xff, 0xd0, 4, 0xff, 0xff, 0xd7, 5]);
    synthetic.extend(segment(0xda, b"scan2"));
    synthetic.extend([6, 7, 0xff, 0, 8, 0xff, 0xd9]);
    let output = scan(&synthetic, true, &[], &AtomicBool::new(false)).expect("synthetic multi-scan traversal").output;
    assert_eq!(output, synthetic);
    for end in 0..synthetic.len() {
        assert!(scan(&synthetic[..end], false, &[], &AtomicBool::new(false)).is_err());
    }
    for prefix in [XMP, EXTENDED] {
        let mut bad = tagged(PACKET.as_bytes());
        bad.splice(2..2, segment(0xe1, &[prefix, PACKET.as_bytes()].concat()));
        assert!(scan(&bad, false, &[], &AtomicBool::new(false)).is_err());
    }
    let mut trailing = fixture();
    trailing.push(0);
    assert!(scan(&trailing, false, &[], &AtomicBool::new(false)).is_err());
}
