use exposure_bracketing::matcher::{find_matching_sequences, zero_anchor};
use exposure_bracketing::options::EvMode;
use exposure_bracketing::rational::ExposureValue;
use exposure_bracketing::scan::FileRecord;

fn ev(n: i32, d: i32) -> ExposureValue {
    ExposureValue::new(n, d).unwrap()
}

fn file(name: &str, bias: Option<(i32, i32)>) -> FileRecord {
    FileRecord {
        path: format!("/photos/{}", name),
        file_name: name.to_string(),
        exposure_bias: bias.map(|(n, d)| ev(n, d)),
        exposure_mode: Some(2),
    }
}

fn files(biases: &[Option<(i32, i32)>]) -> Vec<FileRecord> {
    biases
        .iter()
        .enumerate()
        .map(|(i, b)| file(&format!("img{}.raw", i), *b))
        .collect()
}

fn names(runs: &[&[FileRecord]]) -> Vec<Vec<String>> {
    runs.iter()
        .map(|run| run.iter().map(|f| f.file_name.clone()).collect())
        .collect()
}

fn target() -> Vec<ExposureValue> {
    vec![ev(0, 10), ev(-10, 10), ev(10, 10)]
}

#[test]
fn absolute_mode_matches_the_exact_window() {
    let list = files(&[Some((0, 10)), Some((-10, 10)), Some((10, 10))]);
    let runs = find_matching_sequences(&list, &target(), EvMode::Absolute);
    assert_eq!(names(&runs), vec![vec!["img0.raw", "img1.raw", "img2.raw"]]);
    assert_eq!(runs[0], &list[0..3]);
}

#[test]
fn absolute_mode_matches_no_other_permutation() {
    let a = Some((0, 10));
    let b = Some((-10, 10));
    let c = Some((10, 10));
    for window in [[a, c, b], [b, a, c], [b, c, a], [c, a, b], [c, b, a]] {
        let list = files(&window);
        let runs = find_matching_sequences(&list, &target(), EvMode::Absolute);
        assert!(runs.is_empty());
    }
}

#[test]
fn absolute_mode_compares_numbers_not_spellings() {
    let list = files(&[Some((0, 1)), Some((-1, 1)), Some((3, 3))]);
    let runs = find_matching_sequences(&list, &target(), EvMode::Absolute);
    assert_eq!(runs.len(), 1);
}

#[test]
fn delta_mode_matches_a_shifted_bracket() {
    let list = files(&[Some((5, 10)), Some((-5, 10)), Some((15, 10))]);
    let runs = find_matching_sequences(&list, &target(), EvMode::Delta);
    assert_eq!(names(&runs), vec![vec!["img0.raw", "img1.raw", "img2.raw"]]);
    let runs = find_matching_sequences(&list, &target(), EvMode::Absolute);
    assert!(runs.is_empty());
}

#[test]
fn delta_mode_takes_the_base_at_the_zero_entry() {
    let sequence = vec![ev(-10, 10), ev(0, 10), ev(10, 10)];
    let list = files(&[Some((-7, 10)), Some((3, 10)), Some((13, 10))]);
    let runs = find_matching_sequences(&list, &sequence, EvMode::Delta);
    assert_eq!(runs.len(), 1);
    let list = files(&[Some((-7, 10)), Some((3, 10)), Some((14, 10))]);
    let runs = find_matching_sequences(&list, &sequence, EvMode::Delta);
    assert!(runs.is_empty());
}

#[test]
fn delta_mode_without_zero_finds_nothing() {
    let sequence = vec![ev(-10, 10), ev(10, 10)];
    let list = files(&[Some((-10, 10)), Some((10, 10)), Some((0, 10)), Some((20, 10))]);
    let runs = find_matching_sequences(&list, &sequence, EvMode::Delta);
    assert!(runs.is_empty());
    assert_eq!(zero_anchor(&sequence), None);
    let runs = find_matching_sequences(&list, &sequence, EvMode::Absolute);
    assert_eq!(runs.len(), 1);
}

#[test]
fn zero_anchor_is_the_first_zero() {
    assert_eq!(zero_anchor(&target()), Some(0));
    assert_eq!(zero_anchor(&[ev(1, 2), ev(0, 5), ev(0, 1)]), Some(1));
    assert_eq!(zero_anchor(&[]), None);
}

#[test]
fn delta_mode_fails_where_the_base_has_no_bias() {
    let list = files(&[None, Some((-10, 10)), Some((10, 10))]);
    let runs = find_matching_sequences(&list, &target(), EvMode::Delta);
    assert!(runs.is_empty());
    let list = files(&[Some((0, 10)), None, Some((10, 10))]);
    let runs = find_matching_sequences(&list, &target(), EvMode::Delta);
    assert!(runs.is_empty());
}

#[test]
fn absent_bias_never_matches_in_absolute_mode() {
    let sequence = vec![ev(0, 1), ev(0, 1)];
    let list = files(&[None, None, Some((0, 1)), None, Some((0, 1)), Some((0, 1))]);
    let runs = find_matching_sequences(&list, &sequence, EvMode::Absolute);
    assert_eq!(names(&runs), vec![vec!["img4.raw", "img5.raw"]]);
}

#[test]
fn overlapping_runs_are_both_found() {
    let sequence = vec![ev(0, 1), ev(1, 1), ev(0, 1), ev(1, 1), ev(0, 1)];
    let list = files(&[
        Some((0, 1)),
        Some((1, 1)),
        Some((0, 1)),
        Some((1, 1)),
        Some((0, 1)),
        Some((1, 1)),
    ]);
    let runs = find_matching_sequences(&list, &sequence, EvMode::Absolute);
    assert_eq!(runs.len(), 1);
    let sequence = vec![ev(0, 1), ev(0, 1), ev(0, 1), ev(0, 1), ev(0, 1)];
    let list = files(&[Some((2, 1)); 6]);
    let runs = find_matching_sequences(&list, &sequence, EvMode::Delta);
    assert_eq!(runs.len(), 2);
    assert_eq!(runs[0], &list[0..5]);
    assert_eq!(runs[1], &list[1..6]);
    assert_eq!(runs[0][1].path, runs[1][0].path);
    assert_eq!(runs[0][4].path, runs[1][3].path);
}

#[test]
fn runs_come_in_window_order() {
    let sequence = vec![ev(0, 1), ev(1, 1)];
    let list = files(&[
        Some((0, 1)),
        Some((1, 1)),
        Some((5, 1)),
        Some((0, 1)),
        Some((1, 1)),
        Some((2, 1)),
        Some((3, 1)),
    ]);
    let runs = find_matching_sequences(&list, &sequence, EvMode::Absolute);
    assert_eq!(
        names(&runs),
        vec![vec!["img0.raw", "img1.raw"], vec!["img3.raw", "img4.raw"]]
    );
    let runs = find_matching_sequences(&list, &sequence, EvMode::Delta);
    assert_eq!(
        names(&runs),
        vec![
            vec!["img0.raw", "img1.raw"],
            vec!["img3.raw", "img4.raw"],
            vec!["img4.raw", "img5.raw"],
            vec!["img5.raw", "img6.raw"]
        ]
    );
}

#[test]
fn no_window_for_an_empty_sequence_or_too_few_files() {
    let list = files(&[Some((0, 10)), Some((-10, 10))]);
    assert!(find_matching_sequences(&list, &[], EvMode::Absolute).is_empty());
    assert!(find_matching_sequences(&list, &[], EvMode::Delta).is_empty());
    assert!(find_matching_sequences(&list, &target(), EvMode::Absolute).is_empty());
    assert!(find_matching_sequences(&[], &target(), EvMode::Delta).is_empty());
}

#[test]
fn the_last_window_is_tested() {
    let list = files(&[Some((9, 1)), Some((0, 10)), Some((-10, 10)), Some((10, 10))]);
    let runs = find_matching_sequences(&list, &target(), EvMode::Absolute);
    assert_eq!(names(&runs), vec![vec!["img1.raw", "img2.raw", "img3.raw"]]);
}
