use exposure_bracketing::scan::{
    collect_files_with_metadata, count_files_in_directory, has_accepted_extension, DirectoryEntry,
    FileRecord, RawExposure,
};

fn extensions() -> Vec<String> {
    vec!["cr2".to_string(), "NEF".to_string(), "dng".to_string()]
}

fn raw(bias: Option<(i32, i32)>, mode: Option<u16>) -> RawExposure {
    RawExposure { exposure_bias: bias, exposure_mode: mode }
}

fn entry(name: &str, is_file: bool, metadata: Option<RawExposure>) -> DirectoryEntry {
    DirectoryEntry {
        path: format!("/photos/{}", name),
        file_name: name.to_string(),
        is_file,
        metadata,
    }
}

fn names(files: &[FileRecord]) -> Vec<String> {
    files.iter().map(|f| f.file_name.clone()).collect()
}

#[test]
fn extension_is_compared_without_case() {
    let exts = extensions();
    assert!(has_accepted_extension("a.cr2", &exts));
    assert!(has_accepted_extension("a.CR2", &exts));
    assert!(has_accepted_extension("a.Cr2", &exts));
    assert!(has_accepted_extension("a.nef", &exts));
    assert!(has_accepted_extension("a.NEF", &exts));
    assert!(!has_accepted_extension("a.jpg", &exts));
    assert!(!has_accepted_extension("a.cr", &exts));
    assert!(!has_accepted_extension("a.cr22", &exts));
}

#[test]
fn extension_is_what_follows_the_last_dot() {
    let exts = extensions();
    assert!(has_accepted_extension("a.b.dng", &exts));
    assert!(!has_accepted_extension("a.dng.bak", &exts));
    assert!(!has_accepted_extension("dng", &exts));
    assert!(!has_accepted_extension(".dng", &exts));
    assert!(has_accepted_extension("..dng", &exts));
    assert!(!has_accepted_extension("a.dng.", &exts));
    assert!(!has_accepted_extension("", &exts));
    assert!(!has_accepted_extension("..", &exts));
    assert!(has_accepted_extension("a.", &vec!["".to_string()]));
}

#[test]
fn only_ascii_letters_lose_their_case() {
    let exts = vec!["\u{e4}x".to_string(), "k".to_string()];
    assert!(has_accepted_extension("a.\u{e4}X", &exts));
    assert!(!has_accepted_extension("a.\u{c4}x", &exts));
    assert!(!has_accepted_extension("a.\u{212a}", &exts));
    assert!(!has_accepted_extension("a.[", &vec!["{".to_string()]));
    assert!(!has_accepted_extension("a.@", &vec!["`".to_string()]));
}

#[test]
fn no_extension_is_accepted_from_an_empty_list() {
    assert!(!has_accepted_extension("a.cr2", &Vec::new()));
}

#[test]
fn candidates_are_regular_files_with_accepted_extension() {
    let exts = extensions();
    assert!(entry("a.cr2", true, None).is_candidate(&exts));
    assert!(!entry("a.cr2", false, None).is_candidate(&exts));
    assert!(!entry("a.txt", true, None).is_candidate(&exts));
}

#[test]
fn counts_the_candidates() {
    let entries = vec![
        entry("a.cr2", true, None),
        entry("b.CR2", true, Some(raw(None, None))),
        entry("sub.cr2", false, None),
        entry("notes.txt", true, None),
        entry("c.nef", true, None),
        entry("d", true, None),
    ];
    assert_eq!(count_files_in_directory(&entries, &extensions()), 3);
    assert_eq!(count_files_in_directory(&Vec::new(), &extensions()), 0);
    assert_eq!(count_files_in_directory(&entries, &Vec::new()), 0);
}

#[test]
fn collects_decoded_candidates_in_listing_order() {
    let entries = vec![
        entry("z.cr2", true, Some(raw(Some((10, 10)), Some(2)))),
        entry("broken.cr2", true, None),
        entry("a.nef", true, Some(raw(None, Some(0)))),
        entry("folder.dng", false, Some(raw(Some((0, 1)), Some(2)))),
        entry("readme.txt", true, Some(raw(Some((0, 1)), Some(2)))),
        entry("m.DNG", true, Some(raw(Some((-2, 6)), None))),
    ];
    let collected = collect_files_with_metadata(&entries, &extensions(), false);
    assert_eq!(collected.processed, 4);
    assert_eq!(names(&collected.files), vec!["z.cr2", "a.nef", "m.DNG"]);
    let first = &collected.files[0];
    assert_eq!(first.path, "/photos/z.cr2");
    assert_eq!(first.exposure_mode, Some(2));
    let bias = first.exposure_bias.unwrap();
    assert_eq!((bias.numer(), bias.denom()), (1, 1));
    assert!(collected.files[1].exposure_bias.is_none());
    assert_eq!(collected.files[1].exposure_mode, Some(0));
    let bias = collected.files[2].exposure_bias.unwrap();
    assert_eq!((bias.numer(), bias.denom()), (-1, 3));
    assert_eq!(collected.files[2].exposure_mode, None);
}

#[test]
fn bracket_filter_keeps_only_auto_bracket_files() {
    let entries = vec![
        entry("a.cr2", true, Some(raw(Some((0, 1)), Some(2)))),
        entry("b.cr2", true, Some(raw(Some((0, 1)), Some(0)))),
        entry("c.cr2", true, Some(raw(Some((0, 1)), Some(1)))),
        entry("d.cr2", true, Some(raw(Some((0, 1)), None))),
        entry("e.cr2", true, Some(raw(None, Some(2)))),
        entry("f.cr2", true, None),
        entry("g.cr2", true, Some(raw(Some((0, 1)), Some(3)))),
    ];
    let collected = collect_files_with_metadata(&entries, &extensions(), true);
    assert_eq!(collected.processed, 7);
    assert_eq!(names(&collected.files), vec!["a.cr2", "e.cr2"]);
    let collected = collect_files_with_metadata(&entries, &extensions(), false);
    assert_eq!(collected.processed, 7);
    assert_eq!(names(&collected.files).len(), 6);
}

#[test]
fn a_bias_without_value_counts_as_absent() {
    let entries = vec![
        entry("a.cr2", true, Some(raw(Some((1, 0)), Some(2)))),
        entry("b.cr2", true, Some(raw(Some((i32::MIN, -1)), Some(2)))),
    ];
    let collected = collect_files_with_metadata(&entries, &extensions(), true);
    assert_eq!(collected.files.len(), 2);
    assert!(collected.files[0].exposure_bias.is_none());
    assert!(collected.files[1].exposure_bias.is_none());
}

#[test]
fn record_holds_the_metadata() {
    let record = FileRecord::new(
        "/p/a.cr2".to_string(),
        "a.cr2".to_string(),
        &raw(Some((20, -30)), Some(1)),
    );
    assert_eq!(record.path, "/p/a.cr2");
    assert_eq!(record.file_name, "a.cr2");
    assert_eq!(record.exposure_mode, Some(1));
    let bias = record.exposure_bias.unwrap();
    assert_eq!((bias.numer(), bias.denom()), (-2, 3));
}
