use towavue_export::audio_options::{sample_count_from_statistics, AudioChannels, AudioExportOptions, AudioNormalization};

#[test]
fn sample_count_requires_one_positive_integer_from_its_own_filter() {
    let stats = |count: &str| format!("[astats@towavue_count @ 1234] Number of samples: {count}\n");
    assert_eq!(
        sample_count_from_statistics(&stats("480")).expect("positive count"),
        480
    );
    assert_eq!(
        sample_count_from_statistics(&stats("9007199254740993")).expect("exact large count"),
        9007199254740993,
        "do not round sample counts through f64"
    );
    for invalid in ["0", "-1", "1.5", "nan", "inf", "18446744073709551616"] {
        assert!(sample_count_from_statistics(&stats(invalid)).is_err());
    }
    for invalid in [
        String::new(),
        stats("480").repeat(2),
        stats("480").replace("towavue_count", "foreign"),
    ] {
        assert!(sample_count_from_statistics(&invalid).is_err());
    }
}

fn channel_options(normalize_peak: bool, channels: AudioChannels) -> AudioExportOptions {
    AudioExportOptions {
        normalization: if normalize_peak { AudioNormalization::Peak } else { AudioNormalization::Off },
        channels,
    }
}

#[test]
fn audio_options_have_explicit_channel_rules_and_reject_unreliable_statistics() {
    assert!(AudioExportOptions::default().filters(None).expect("disabled").is_empty());
    for channels in [None, Some(0), Some(6)] {
        assert!(channel_options(false, AudioChannels::Mono).filters(channels).is_err());
        assert!(channel_options(false, AudioChannels::Stereo).filters(channels).is_err());
    }
    assert!(channel_options(true, AudioChannels::Keep).filters(Some(6)).is_ok());
}

#[test]
fn loudness_targets_name_the_accepted_ranges() {
    use_target(towavue_export::audio_options::LoudnessTarget { integrated_tenths: -140, true_peak_tenths: -10 }, true);
    use_target(towavue_export::audio_options::LoudnessTarget { integrated_tenths: -700, true_peak_tenths: -90 }, true);
    use_target(towavue_export::audio_options::LoudnessTarget { integrated_tenths: -49, true_peak_tenths: 0 }, false);
}

fn use_target(target: towavue_export::audio_options::LoudnessTarget, ok: bool) {
    match target.validate() {
        Ok(()) => assert!(ok),
        Err(towavue_export::error::ExportError::Failed(m)) => {
            assert!(!ok);
            assert_eq!(m, "Loudness target must be -70 to -5 LUFS and maximum true peak -9 to 0 dBTP");
        },
        Err(other) => panic!("unexpected {other:?}"),
    }
}

#[test]
fn loudness_targets_outside_the_ranges_are_refused() {
    let too_quiet = towavue_export::audio_options::LoudnessTarget { integrated_tenths: -701, ..Default::default() };
    let above_full_scale = towavue_export::audio_options::LoudnessTarget { true_peak_tenths: 1, ..Default::default() };
    for target in [too_quiet, above_full_scale] {
        assert!(target.validate().is_err());
        use_target(target, false);
    }
}
