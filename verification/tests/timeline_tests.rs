use towavue_export::args::ExportStreams;
use towavue_export::edits::{EditOperation, MediaKind, MediaTime, Rational, TimeRange};
use towavue_export::error::ExportError;
use towavue_export::timeline::{check_timeline, timeline_filters, TimelineSpan};

fn span(start: i64, end: i64, duration: i64, samples: u64) -> TimelineSpan {
    TimelineSpan {
        source: TimeRange { start: MediaTime::from_nanoseconds(start), end: MediaTime::from_nanoseconds(end) },
        duration,
        tempo: Vec::new(),
        volume: None,
        samples,
    }
}

#[test]
fn timeline_graph_splits_trims_and_joins_every_span() {
    let streams = ExportStreams {
        video: Some((0, Rational { numerator: 1, denominator: 30 })),
        audio: Some((1, Rational { numerator: 1, denominator: 48000 })),
    };
    let mut second = span(2_000_000_000, 3_000_000_000, 500_000_000, 24000);
    second.tempo = vec!["atempo=2.000000000".to_string()];
    second.volume = Some("volume=0.500000000".to_string());
    let spans = [span(0, 1_000_000_000, 1_000_000_000, 48000), second];
    let graph = timeline_filters(&[EditOperation::FlipVertical], MediaKind::Video, "out.mp4", false, &streams, &spans, "1.000000000");
    let parts: Vec<&str> = graph.split(';').collect();
    assert_eq!(parts[0], "[0:0]split=2[vs0][vs1]");
    assert_eq!(parts[1], "[0:1]asplit=2[as0][as1]");
    assert_eq!(parts[2], "[vs0]trim=start_pts=0:end_pts=30,setpts=(PTS-STARTPTS)*1000000000/1000000000/1.000000000[v0]");
    assert_eq!(
        parts[3],
        "[as0]atrim=start_pts=0:end_pts=48000,asetpts=PTS-STARTPTS,aformat=sample_fmts=flt,apad=whole_len=48000,atrim=end_sample=48000[a0]"
    );
    assert_eq!(
        parts[5],
        "[as1]atrim=start_pts=96000:end_pts=144000,asetpts=PTS-STARTPTS,aformat=sample_fmts=flt,atempo=2.000000000,volume=0.500000000,apad=whole_len=24000,atrim=end_sample=24000[a1]"
    );
    assert_eq!(parts[6], "[v0][a0][v1][a1]concat=n=2:v=1:a=1[joinedv][outa]");
    assert_eq!(parts[7], "[joinedv]vflip,copy[outv]");
    let audio_only = ExportStreams { video: None, audio: streams.audio };
    let graph = timeline_filters(&[], MediaKind::Audio, "out.wav", false, &audio_only, &spans[..1], "1.000000000");
    assert!(graph.ends_with(";[a0]concat=n=1:v=0:a=1[outa]"));
}

#[test]
fn empty_timelines_are_refused_and_spans_are_checked() {
    assert!(matches!(check_timeline(&[]), Err(ExportError::InvalidTimeline)));
    assert_eq!(check_timeline(&[span(0, 10, 10, 0), span(20, 30, 10, 0)]).expect("spans"), true);
    assert_eq!(check_timeline(&[span(0, 10, 10, 0), span(30, 30, 0, 0)]).expect("spans"), false);
}
