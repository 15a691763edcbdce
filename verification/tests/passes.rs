use exposure_bracketing::engine::{prepare_sequence, process_directory, StartError};
use exposure_bracketing::executor::ActionPlan;
use exposure_bracketing::options::{Action, EvMode};
use exposure_bracketing::rational::ExposureValue;
use exposure_bracketing::scan::{DirectoryEntry, RawExposure};

fn ev(n: i32, d: i32) -> ExposureValue {
    ExposureValue::new(n, d).unwrap()
}

fn entry(name: &str, bias: Option<(i32, i32)>, mode: Option<u16>) -> DirectoryEntry {
    DirectoryEntry {
        path: format!("/photos/{}", name),
        file_name: name.to_string(),
        is_file: true,
        metadata: Some(RawExposure { exposure_bias: bias, exposure_mode: mode }),
    }
}

fn listing() -> Vec<DirectoryEntry> {
    vec![
        entry("a1.cr2", Some((0, 10)), Some(2)),
        entry("a2.cr2", Some((-10, 10)), Some(2)),
        entry("skip.jpg", Some((10, 10)), Some(2)),
        entry("a3.cr2", Some((10, 10)), Some(2)),
        entry("single.cr2", Some((0, 10)), Some(0)),
        entry("b1.cr2", Some((3, 10)), Some(2)),
        entry("b2.cr2", Some((-7, 10)), Some(2)),
        entry("b3.cr2", Some((13, 10)), Some(2)),
    ]
}

#[test]
fn a_sequence_of_fewer_than_two_values_is_rejected() {
    assert_eq!(prepare_sequence(""), Err(StartError::InvalidSequence));
    assert_eq!(prepare_sequence("0/10"), Err(StartError::InvalidSequence));
    assert_eq!(prepare_sequence("x, 1/0, 5"), Err(StartError::InvalidSequence));
    assert_eq!(prepare_sequence(" , "), Err(StartError::InvalidSequence));
    assert_eq!(
        StartError::InvalidSequence.message(),
        "Invalid or single-value exposure bias sequence."
    );
}

#[test]
fn a_sequence_of_two_values_starts_a_pass() {
    assert_eq!(prepare_sequence("0/10, 10/10"), Ok(vec![ev(0, 1), ev(1, 1)]));
    assert_eq!(prepare_sequence("x, 0, -1, 1"), Ok(vec![ev(0, 1), ev(-1, 1), ev(1, 1)]));
}

#[test]
fn a_pass_in_absolute_mode_plans_each_run() {
    let sequence = prepare_sequence("0/10, -10/10, 10/10").unwrap();
    let outcome = process_directory(
        &listing(),
        &vec!["cr2".to_string()],
        &sequence,
        Action::MoveToFolder,
        EvMode::Absolute,
        true,
    );
    assert_eq!(outcome.processed_files, 7);
    assert_eq!(outcome.files.len(), 6);
    assert_eq!(outcome.brackets_found, 1);
    assert_eq!(outcome.plans.len(), 1);
    match &outcome.plans[0] {
        ActionPlan::MoveToFolder { folder, moves } => {
            assert_eq!(folder, "a1");
            let sources: Vec<&str> = moves.iter().map(|m| m.source.as_str()).collect();
            assert_eq!(sources, vec!["/photos/a1.cr2", "/photos/a2.cr2", "/photos/a3.cr2"]);
        }
        other => panic!("unexpected plan {:?}", other),
    }
}

#[test]
fn a_pass_in_delta_mode_finds_shifted_brackets() {
    let sequence = prepare_sequence("0/10, -10/10, 10/10").unwrap();
    let outcome = process_directory(
        &listing(),
        &vec!["cr2".to_string()],
        &sequence,
        Action::SaveSequencesToTextfile,
        EvMode::Delta,
        true,
    );
    assert_eq!(outcome.processed_files, 7);
    assert_eq!(outcome.brackets_found, 2);
    let texts: Vec<String> = outcome
        .plans
        .iter()
        .map(|plan| match plan {
            ActionPlan::AppendToManifest { text, .. } => text.clone(),
            other => panic!("unexpected plan {:?}", other),
        })
        .collect();
    assert_eq!(
        texts,
        vec![
            "/photos/a1.cr2\n/photos/a2.cr2\n/photos/a3.cr2\n\n",
            "/photos/b1.cr2\n/photos/b2.cr2\n/photos/b3.cr2\n\n"
        ]
    );
}

#[test]
fn without_the_filter_other_modes_take_part() {
    let sequence = prepare_sequence("10/10, 0/10").unwrap();
    let outcome = process_directory(
        &listing(),
        &vec!["CR2".to_string()],
        &sequence,
        Action::MoveToFolder,
        EvMode::Absolute,
        false,
    );
    assert_eq!(outcome.files.len(), 7);
    assert_eq!(outcome.brackets_found, 1);
    match &outcome.plans[0] {
        ActionPlan::MoveToFolder { folder, .. } => assert_eq!(folder, "a3"),
        other => panic!("unexpected plan {:?}", other),
    }
    let filtered = process_directory(
        &listing(),
        &vec!["CR2".to_string()],
        &sequence,
        Action::MoveToFolder,
        EvMode::Absolute,
        true,
    );
    assert_eq!(filtered.brackets_found, 0);
    assert!(filtered.plans.is_empty());
}

#[test]
fn an_empty_listing_gives_an_empty_outcome() {
    let sequence = prepare_sequence("0, 1").unwrap();
    let outcome = process_directory(
        &Vec::new(),
        &vec!["cr2".to_string()],
        &sequence,
        Action::MoveToFolder,
        EvMode::Delta,
        true,
    );
    assert_eq!(outcome.processed_files, 0);
    assert_eq!(outcome.brackets_found, 0);
    assert!(outcome.files.is_empty());
    assert!(outcome.plans.is_empty());
}
