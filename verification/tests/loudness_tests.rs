use towavue_export::audio_options::statistic_values;
use towavue_export::loudness::{measured_values, measurement_texts, single_block, single_statistic, single_value};

const LOG: &str = "[astats@towavue_loudness_samples @ 0x1] Number of samples: 48000\r\n\
[loudnorm@towavue_loudness @ 0x2] \n{\n\t\"input_i\" : \"-23.00\",\n\t\"input_tp\" : \"-1.50\",\n\t\"target_offset\" : \"0.10\"\n}\n";

#[test]
fn measurement_block_and_values_are_read_as_text() {
    let blocks = measurement_texts(LOG);
    assert_eq!(blocks.len(), 1);
    assert_eq!(measured_values(&blocks[0], "input_i"), vec!["-23.00".to_string()]);
    assert_eq!(measured_values(&blocks[0], "target_offset"), vec!["0.10".to_string()]);
    assert!(measured_values(&blocks[0], "input_lra").is_empty());
    let samples = statistic_values(LOG, "[astats@towavue_loudness_samples @ ", "Number of samples: ");
    assert_eq!(samples, vec!["48000".to_string()]);
}

#[test]
fn blocks_need_a_brace_and_repeated_keys_are_all_reported() {
    assert!(measurement_texts("no analysis here").is_empty());
    assert!(measurement_texts("[loudnorm@towavue_loudness @ 0x1] no block").is_empty());
    let twice = format!("{LOG}{LOG}");
    assert_eq!(measurement_texts(&twice).len(), 2);
    let repeated = "\"input_i\": \"-1\",\n \"input_i\" : -2,,\n\"other\": 3";
    assert_eq!(measured_values(repeated, "input_i"), vec!["-1".to_string(), "-2".to_string()]);
}

#[test]
fn ambiguous_measurements_have_no_single_value() {
    let block = single_block(LOG).expect("one block");
    assert_eq!(single_value(&block, "input_i"), Some("-23.00".to_string()));
    assert_eq!(single_value(&block, "input_lra"), None);
    assert_eq!(single_value("\"input_i\": \"-1\",\n \"input_i\" : -2,", "input_i"), None);
    assert_eq!(single_block(&format!("{LOG}{LOG}")), None);
    assert_eq!(single_block("no analysis here"), None);
    assert_eq!(single_statistic(LOG, "[astats@towavue_loudness_samples @ ", "Number of samples: "), Some("48000".to_string()));
    assert_eq!(single_statistic(&format!("{LOG}{LOG}"), "[astats@towavue_loudness_samples @ ", "Number of samples: "), None);
}
