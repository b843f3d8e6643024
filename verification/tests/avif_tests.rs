use std::sync::atomic::AtomicBool;
use towavue_export::avif::{boxes, one, same_timing, Samples, FREE};
use towavue_export::edits::Rational;

#[test]
fn avif_box_scan_checks_bounds_sizes_duplicates_and_cancellation() {
    let cancel = AtomicBool::new(false);
    for bytes in [
        [8u32.to_be_bytes().as_slice(), b"free"].concat(),
        [0u32.to_be_bytes().as_slice(), b"free", &[0; 7]].concat(),
        [1u32.to_be_bytes().as_slice(), b"free", &16u64.to_be_bytes()].concat(),
    ] {
        let parsed = boxes(&bytes, 0, bytes.len() as u64, &cancel).expect("fixture operation");
        assert_eq!(parsed.len(), 1);
        assert_eq!(parsed[0].end, bytes.len() as u64);
        assert!(one(&[parsed[0], parsed[0]], FREE).is_err());
        assert!(boxes(&bytes, 0, bytes.len() as u64, &AtomicBool::new(true)).is_err());
    }
    for bytes in [
        vec![0; 7],
        [7u32.to_be_bytes().as_slice(), b"free"].concat(),
        [9u32.to_be_bytes().as_slice(), b"free"].concat(),
        [1u32.to_be_bytes().as_slice(), b"free"].concat(),
        [1u32.to_be_bytes().as_slice(), b"free", &15u64.to_be_bytes()].concat(),
        [1u32.to_be_bytes().as_slice(), b"free", &u64::MAX.to_be_bytes()].concat(),
    ] {
        assert!(boxes(&bytes, 0, bytes.len() as u64, &cancel).is_err());
    }
    let item = [8u32.to_be_bytes().as_slice(), b"free"].concat();
    for count in [65536, 65537] {
        let bytes = item.repeat(count);
        assert_eq!(boxes(&bytes, 0, (count * 8) as u64, &cancel).is_ok(), count == 65536);
    }
}

#[test]
fn duplicate_boxes_are_named_in_the_refusal() {
    let bytes = [8u32.to_be_bytes().as_slice(), b"free"].concat().repeat(2);
    let parsed = boxes(&bytes, 0, 16, &AtomicBool::new(false)).expect("two boxes");
    match one(&parsed, FREE) {
        Err(towavue_export::error::ExportError::Failed(message)) => assert_eq!(message, "AVIF export: duplicate free box"),
        other => panic!("unexpected {other:?}"),
    }
}

#[test]
fn sample_timing_compares_offsets_and_durations_across_time_bases() {
    let left = Samples {
        index: 0,
        id: 1,
        size: (1, 1),
        time_base: Rational { numerator: 1, denominator: 1000 },
        times: vec![(i64::MIN + 1, 500), (i64::MAX, 500)],
    };
    let same = Samples { index: 0, id: 1, size: (1, 1), time_base: left.time_base, times: left.times.clone() };
    assert!(same_timing(&left, &same));
    let right = Samples { index: 0, id: 1, size: (1, 1), time_base: left.time_base, times: vec![(0, 1), (1, 1)] };
    assert!(!same_timing(&left, &right));
    let fine = Samples {
        index: 1,
        id: 2,
        size: (1, 1),
        time_base: Rational { numerator: 1, denominator: 2000 },
        times: vec![(10, 1000), (1010, 1000)],
    };
    let coarse = Samples {
        index: 0,
        id: 1,
        size: (1, 1),
        time_base: Rational { numerator: 1, denominator: 1000 },
        times: vec![(0, 500), (500, 500)],
    };
    assert!(same_timing(&coarse, &fine));
}

#[test]
fn an_empty_box_range_holds_no_boxes_even_when_cancelled() {
    let cancelled = AtomicBool::new(true);
    assert!(boxes(&[1, 2, 3], 2, 2, &cancelled).expect("empty range").is_empty());
}
