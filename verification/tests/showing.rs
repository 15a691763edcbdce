use exposure_bracketing::info::{sequence_from_infos, ExposureInfo};
use exposure_bracketing::options::{exposure_mode_to_string, Action, BracketOrder, EvMode};
use exposure_bracketing::scan::RawExposure;
use exposure_bracketing::sequence::parse_exposure_sequence;

fn info(name: &str, bias: Option<(i32, i32)>, mode: Option<u16>) -> ExposureInfo {
    ExposureInfo::from_metadata(
        name.to_string(),
        Some(RawExposure { exposure_bias: bias, exposure_mode: mode }),
    )
}

#[test]
fn names_of_the_exposure_modes() {
    assert_eq!(exposure_mode_to_string(0), "Auto exposure");
    assert_eq!(exposure_mode_to_string(1), "Manual exposure");
    assert_eq!(exposure_mode_to_string(2), "Auto bracket");
    assert_eq!(exposure_mode_to_string(3), "Unknown");
    assert_eq!(exposure_mode_to_string(u16::MAX), "Unknown");
}

#[test]
fn labels_of_the_options() {
    assert_eq!(BracketOrder::ZeroMinusPlus.label(), "ZeroMinusPlus");
    assert_eq!(BracketOrder::MinusZeroPlus.label(), "MinusZeroPlus");
    assert_eq!(EvMode::Absolute.label(), "Absolute EV Value");
    assert_eq!(EvMode::Delta.label(), "Delta EV Change");
    assert_eq!(Action::MoveToFolder.label(), "Move to Folder");
    assert_eq!(Action::SaveSequencesToTextfile.label(), "Save Sequences to Textfile");
}

#[test]
fn info_of_a_file_with_bias() {
    let shown = info("a.cr2", Some((-20, 30)), Some(2));
    let expected = ExposureInfo {
        filename: "a.cr2".to_string(),
        exposure_bias_n: Some(-2),
        exposure_bias_d: Some(3),
        exposure_mode: Some(2),
        error_message: None,
    };
    assert_eq!(shown, expected);
    assert_eq!(shown.bias_text(), "-2/3");
    assert_eq!(shown.mode_text(), "Auto bracket");
}

#[test]
fn info_of_a_file_without_bias() {
    let shown = info("a.cr2", None, None);
    let expected = ExposureInfo {
        filename: "a.cr2".to_string(),
        exposure_bias_n: None,
        exposure_bias_d: None,
        exposure_mode: None,
        error_message: Some("No exposure bias found".to_string()),
    };
    assert_eq!(shown, expected);
    assert_eq!(shown.bias_text(), "No exposure bias found");
    assert_eq!(shown.mode_text(), "-");
    let shown = info("a.cr2", Some((1, 0)), Some(1));
    assert_eq!(shown.error_message, Some("No exposure bias found".to_string()));
    assert_eq!(shown.exposure_bias_n, None);
    assert_eq!(shown.mode_text(), "Manual exposure");
}

#[test]
fn info_of_a_file_that_could_not_be_read() {
    let shown = ExposureInfo::from_metadata("a.cr2".to_string(), None);
    let expected = ExposureInfo {
        filename: "a.cr2".to_string(),
        exposure_bias_n: None,
        exposure_bias_d: None,
        exposure_mode: None,
        error_message: Some("Could not read metadata".to_string()),
    };
    assert_eq!(shown, expected);
    assert_eq!(shown.bias_text(), "Could not read metadata");
}

#[test]
fn info_without_message_and_bias_shows_a_dash() {
    let shown = ExposureInfo {
        filename: "a.cr2".to_string(),
        exposure_bias_n: Some(1),
        exposure_bias_d: None,
        exposure_mode: Some(7),
        error_message: None,
    };
    assert_eq!(shown.bias_text(), "-");
    assert_eq!(shown.mode_text(), "Unknown");
}

#[test]
fn sequence_of_the_files_that_have_a_bias() {
    let infos = vec![
        info("a.cr2", Some((0, 10)), Some(2)),
        info("b.cr2", None, Some(2)),
        ExposureInfo::from_metadata("c.cr2".to_string(), None),
        info("d.cr2", Some((-10, 10)), Some(2)),
        info("e.cr2", Some((7, 10)), None),
    ];
    let text = sequence_from_infos(&infos);
    assert_eq!(text, "0/1, -1/1, 7/10");
    assert_eq!(parse_exposure_sequence(&text).len(), 3);
    assert_eq!(sequence_from_infos(&Vec::new()), "");
    assert_eq!(sequence_from_infos(&infos[1..3].to_vec()), "");
}
