use towavue_export::error::{cancellation, ExportError};
use towavue_export::stamp::{frame_export_check, lease_holds, FileStamp, SourceStamp};

fn source(length: u64, seconds: u64) -> SourceStamp {
    SourceStamp { length, before_epoch: false, seconds, nanoseconds: 250 }
}

fn file(id: u128, written: i64) -> FileStamp {
    FileStamp { volume: 7, id, length: 4096, created: 1, written, changed: written }
}

fn failure(r: Result<(), ExportError>) -> String {
    match r {
        Err(ExportError::Failed(m)) => m,
        _ => panic!("expected a failure message"),
    }
}

#[test]
fn unchanged_source_passes_verification() {
    assert!(source(10, 100).verify(&source(10, 100)).is_ok());
}

#[test]
fn changed_length_or_time_refuses_publication() {
    let expected = "The source changed during export; nothing was published";
    assert_eq!(failure(source(10, 100).verify(&source(11, 100))), expected);
    assert_eq!(failure(source(10, 100).verify(&source(10, 101))), expected);
    let mut earlier = source(10, 100);
    earlier.before_epoch = true;
    assert_eq!(failure(source(10, 100).verify(&earlier)), expected);
}

#[test]
fn same_file_ignores_times_and_length() {
    let a = file(5, 10);
    let mut b = file(5, 99);
    b.length = 1;
    assert!(a.same_file(&b));
    assert!(!a.same_file(&file(6, 10)));
    let mut other_volume = file(5, 10);
    other_volume.volume = 8;
    assert!(!a.same_file(&other_volume));
}

#[test]
fn frame_export_refuses_same_path_first() {
    let s = file(1, 1);
    assert!(matches!(frame_export_check(true, "out.jpg", &s, &file(2, 2), None), Err(ExportError::SameAsSource)));
}

#[test]
fn frame_export_requires_png_target() {
    let s = file(1, 1);
    assert_eq!(failure(frame_export_check(false, "out.jpg", &s, &s, None)), "Current frame export requires a PNG target");
    assert_eq!(failure(frame_export_check(false, "out", &s, &s, None)), "Current frame export requires a PNG target");
    assert_eq!(failure(frame_export_check(false, "out.apng", &s, &s, None)), "Current frame export requires a PNG target");
    assert!(frame_export_check(false, "OUT.PNG", &s, &s, None).is_ok());
}

#[test]
fn frame_export_notices_a_changed_source() {
    assert_eq!(
        failure(frame_export_check(false, "out.png", &file(1, 2), &file(1, 1), None)),
        "The frame source changed; reopen it before exporting"
    );
}

#[test]
fn frame_export_refuses_a_target_that_is_the_source_file() {
    let s = file(1, 1);
    let hard_link = file(1, 50);
    assert!(matches!(frame_export_check(false, "copy.png", &s, &s, Some(&hard_link)), Err(ExportError::SameAsSource)));
    assert!(frame_export_check(false, "copy.png", &s, &s, Some(&file(2, 1))).is_ok());
}

#[test]
fn lease_holds_only_while_both_readings_match() {
    let s = file(3, 3);
    assert!(lease_holds(&s, &s, &s));
    assert!(!lease_holds(&file(3, 4), &s, &s));
    assert!(!lease_holds(&s, &file(3, 4), &s));
}

#[test]
fn cancellation_follows_the_flag() {
    assert!(matches!(cancellation(true), Err(ExportError::Cancelled)));
    assert!(cancellation(false).is_ok());
}
