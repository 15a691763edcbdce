//! The files of a scanned directory and the filter that keeps the
//! candidates for matching.
//!
//! The caller lists the directory and decodes the files; what it found is
//! handed over as plain values, one `DirectoryEntry` for each entry, in the
//! order of the listing. Which entries count, and which of them become
//! files to match, is decided here.

use crate::rational::{reduces_in_range, ExposureValue, Rational};
use crate::text::chars_of;
use vstd::prelude::*;

verus! {

/// The exposure-mode code of a camera-driven bracket.
pub const AUTO_BRACKET: u16 = 2;

/// What the decoder reports of one file.
#[derive(Debug, Clone, Copy, PartialEq, Eq)]
pub struct RawExposure {
    /// Numerator and denominator of the exposure bias, where one is set.
    pub exposure_bias: Option<(i32, i32)>,
    /// The exposure-mode code, where one is set.
    pub exposure_mode: Option<u16>,
}

/// One entry of a directory listing.
#[derive(Debug, Clone, PartialEq, Eq)]
pub struct DirectoryEntry {
    /// The path of the entry.
    pub path: String,
    /// The last component of the path.
    pub file_name: String,
    /// Whether the entry is a regular file.
    pub is_file: bool,
    /// What decoding the file gave; `None` where it failed or was not tried.
    pub metadata: Option<RawExposure>,
}

/// One file considered for matching.
#[derive(Debug, Clone, PartialEq)]
pub struct FileRecord {
    /// The path of the file.
    pub path: String,
    /// The last component of the path.
    pub file_name: String,
    /// The exposure bias, where the metadata holds a usable one.
    pub exposure_bias: Option<ExposureValue>,
    /// The exposure-mode code, where the metadata holds one.
    pub exposure_mode: Option<u16>,
}

/// The files to match and the number of files examined for them.
#[derive(Debug)]
pub struct Collected {
    /// The files that passed every filter, in the order of the listing.
    pub files: Vec<FileRecord>,
    /// The number of regular files with an accepted extension.
    pub processed: usize,
}

/// The index of the last `c` in `s`, or -1 where it holds none.
pub open spec fn last_index_of(s: Seq<char>, c: char) -> int
    decreases s.len(),
{
    if s.len() == 0 {
        -1
    } else if s.last() == c {
        s.len() - 1
    } else {
        last_index_of(s.drop_last(), c)
    }
}

/// The name has a last dot that is not its first character, and is not `..`.
pub open spec fn has_extension(name: Seq<char>) -> bool {
    last_index_of(name, '.') > 0 && name != seq!['.', '.']
}

/// The extension of a file name: what follows its last dot. A name without
/// a dot has none, nor has one whose only dot comes first.
pub open spec fn extension_of(name: Seq<char>) -> Option<Seq<char>> {
    if has_extension(name) {
        Some(name.skip(last_index_of(name, '.') + 1))
    } else {
        None
    }
}

/// The stem of a file name: what precedes its last dot, or the whole name
/// where it has no extension.
pub open spec fn stem_of(name: Seq<char>) -> Seq<char> {
    if has_extension(name) {
        name.take(last_index_of(name, '.'))
    } else {
        name
    }
}

/// The code of `c`, with the ASCII capitals mapped to their small letters.
pub open spec fn lower_code(c: char) -> int {
    if 65 <= c as u32 <= 90 {
        c as u32 + 32
    } else {
        c as u32 as int
    }
}

/// Equality of two texts up to the case of ASCII letters.
pub open spec fn same_ignoring_case(a: Seq<char>, b: Seq<char>) -> bool {
    &&& a.len() == b.len()
    &&& forall|i: int| 0 <= i < a.len() ==> lower_code(#[trigger] a[i]) == lower_code(b[i])
}

/// The texts of a list of strings.
pub open spec fn texts(strings: Seq<String>) -> Seq<Seq<char>> {
    strings.map_values(|s: String| s@)
}

/// One of `extensions` is `extension`, up to the case of ASCII letters.
pub open spec fn extension_accepted(extension: Seq<char>, extensions: Seq<Seq<char>>) -> bool {
    exists|i: int|
        0 <= i < extensions.len() && same_ignoring_case(#[trigger] extensions[i], extension)
}

/// The entry is a regular file whose extension is accepted.
pub open spec fn is_candidate(entry: DirectoryEntry, extensions: Seq<Seq<char>>) -> bool {
    &&& entry.is_file
    &&& has_extension(entry.file_name@)
    &&& extension_accepted(extension_of(entry.file_name@)->0, extensions)
}

/// The mode passes the filter: the filter is off, or the mode is the code of
/// a camera-driven bracket.
pub open spec fn passes_mode_filter(mode: Option<u16>, only_auto_bracket: bool) -> bool {
    !only_auto_bracket || mode == Some(AUTO_BRACKET)
}

/// The entry becomes a file to match: it is a candidate, its metadata was
/// decoded, and its exposure mode passes the filter.
pub open spec fn is_kept(
    entry: DirectoryEntry,
    extensions: Seq<Seq<char>>,
    only_auto_bracket: bool,
) -> bool {
    &&& is_candidate(entry, extensions)
    &&& entry.metadata is Some
    &&& passes_mode_filter(entry.metadata->0.exposure_mode, only_auto_bracket)
}

/// The predicate `is_candidate` for given extensions.
pub open spec fn candidate_filter(extensions: Seq<Seq<char>>) -> spec_fn(DirectoryEntry) -> bool {
    |entry: DirectoryEntry| is_candidate(entry, extensions)
}

/// The predicate `is_kept` for given extensions and filter.
pub open spec fn kept_filter(extensions: Seq<Seq<char>>, only_auto_bracket: bool) -> spec_fn(
    DirectoryEntry,
) -> bool {
    |entry: DirectoryEntry| is_kept(entry, extensions, only_auto_bracket)
}

/// The bias of a record is that of the metadata: the same number in lowest
/// terms, and none where the metadata holds none or one that no exposure
/// value can hold (a zero denominator, or lowest terms beyond 32 bits).
pub open spec fn bias_recorded(raw: Option<(i32, i32)>, bias: Option<ExposureValue>) -> bool {
    match raw {
        Some(pair) => if reduces_in_range(pair.0 as int, pair.1 as int) {
            match bias {
                Some(v) => v.wf() && v@.same(Rational { num: pair.0 as int, den: pair.1 as int }),
                None => false,
            }
        } else {
            bias is None
        },
        None => bias is None,
    }
}

/// The record holds what the entry and its metadata hold.
pub open spec fn is_record_of(record: FileRecord, entry: DirectoryEntry) -> bool {
    &&& entry.metadata is Some
    &&& record.path@ == entry.path@
    &&& record.file_name@ == entry.file_name@
    &&& record.exposure_mode == entry.metadata->0.exposure_mode
    &&& bias_recorded(entry.metadata->0.exposure_bias, record.exposure_bias)
}

/// The records are those of the entries, one for one.
pub open spec fn are_records_of(records: Seq<FileRecord>, entries: Seq<DirectoryEntry>) -> bool {
    &&& records.len() == entries.len()
    &&& forall|i: int| 0 <= i < records.len() ==> is_record_of(#[trigger] records[i], entries[i])
}

/// Where the extension of `name` starts.
pub fn extension_start(name: &Vec<char>) -> (r: Option<usize>)
    ensures
        match r {
            Some(k) => has_extension(name@) && k == last_index_of(name@, '.') + 1 && k
                <= name@.len(),
            None => !has_extension(name@),
        },
{
    let mut i: usize = name.len();
    proof {
        assert(name@.take(i as int) =~= name@);
    }
    while i > 0 && name[i - 1] != '.'
        invariant
            i <= name.len(),
            last_index_of(name@, '.') == last_index_of(name@.take(i as int), '.'),
        decreases i,
    {
        proof {
            assert(name@.take(i as int).drop_last() =~= name@.take(i - 1));
        }
        i -= 1;
    }
    if i <= 1 {
        return None;
    }
    if name.len() == 2 && name[0] == '.' {
        proof {
            assert(name@ =~= seq!['.', '.']);
        }
        return None;
    }
    proof {
        if name@ == seq!['.', '.'] {
            assert(name@.len() == 2);
            assert(name@[0] == '.');
        }
    }
    Some(i)
}

/// The code of `c` with ASCII capitals made small.
fn lower_code_of(c: char) -> (n: u32)
    ensures
        n == lower_code(c),
{
    let n: u32 = c as u32;
    if 65 <= n && n <= 90 {
        n + 32
    } else {
        n
    }
}

/// Whether `pattern` is the text of `name` from `from` on, up to the case of
/// ASCII letters.
fn tail_is(name: &Vec<char>, from: usize, pattern: &Vec<char>) -> (b: bool)
    requires
        from <= name.len(),
    ensures
        b == same_ignoring_case(pattern@, name@.skip(from as int)),
{
    if name.len() - from != pattern.len() {
        return false;
    }
    let mut i: usize = 0;
    while i < pattern.len()
        invariant
            i <= pattern.len(),
            from <= name.len(),
            name.len() - from == pattern.len(),
            forall|j: int|
                0 <= j < i ==> lower_code(#[trigger] pattern@[j]) == lower_code(
                    name@.skip(from as int)[j],
                ),
        decreases pattern.len() - i,
    {
        if lower_code_of(pattern[i]) != lower_code_of(name[from + i]) {
            assert(name@.skip(from as int)[i as int] == name@[from + i]);
            return false;
        }
        i += 1;
    }
    true
}

/// Whether a file of this name has one of the accepted extensions.
pub fn has_accepted_extension(file_name: &str, extensions: &Vec<String>) -> (b: bool)
    ensures
        b == (has_extension(file_name@) && extension_accepted(
            extension_of(file_name@)->0,
            texts(extensions@),
        )),
{
    let name = chars_of(file_name);
    let start = match extension_start(&name) {
        Some(k) => k,
        None => {
            return false;
        },
    };
    let ghost extension = name@.skip(start as int);
    let ghost accepted = texts(extensions@);
    let mut i: usize = 0;
    while i < extensions.len()
        invariant
            i <= extensions.len(),
            start <= name.len(),
            name@ == file_name@,
            has_extension(name@),
            extension == name@.skip(start as int),
            extension == extension_of(name@)->0,
            accepted == texts(extensions@),
            forall|j: int| 0 <= j < i ==> !same_ignoring_case(#[trigger] accepted[j], extension),
        decreases extensions.len() - i,
    {
        let pattern = chars_of(extensions[i].as_str());
        assert(accepted[i as int] == pattern@);
        if tail_is(&name, start, &pattern) {
            return true;
        }
        i += 1;
    }
    false
}

impl DirectoryEntry {
    /// Whether the entry counts as a file to examine: a regular file with
    /// an accepted extension. Only such a file needs decoding.
    pub fn is_candidate(&self, extensions: &Vec<String>) -> (b: bool)
        ensures
            b == is_candidate(*self, texts(extensions@)),
    {
        self.is_file && has_accepted_extension(self.file_name.as_str(), extensions)
    }
}

impl FileRecord {
    /// The record of a file with the given metadata.
    pub fn new(path: String, file_name: String, metadata: &RawExposure) -> (record: FileRecord)
        ensures
            record.path@ == path@,
            record.file_name@ == file_name@,
            record.exposure_mode == metadata.exposure_mode,
            bias_recorded(metadata.exposure_bias, record.exposure_bias),
    {
        let exposure_bias = match metadata.exposure_bias {
            Some(pair) => ExposureValue::new(pair.0, pair.1),
            None => None,
        };
        FileRecord { path, file_name, exposure_bias, exposure_mode: metadata.exposure_mode }
    }
}

/// The number of regular files with an accepted extension among `entries`.
pub fn count_files_in_directory(entries: &Vec<DirectoryEntry>, extensions: &Vec<String>) -> (count:
    usize)
    ensures
        count == entries@.filter(candidate_filter(texts(extensions@))).len(),
{
    let ghost pred = candidate_filter(texts(extensions@));
    let mut count: usize = 0;
    let mut i: usize = 0;
    proof {
        reveal(Seq::filter);
        assert(entries@.take(0).filter(pred).len() == 0);
    }
    while i < entries.len()
        invariant
            i <= entries.len(),
            pred == candidate_filter(texts(extensions@)),
            count == entries@.take(i as int).filter(pred).len(),
            count <= i,
        decreases entries.len() - i,
    {
        proof {
            assert(entries@.take(i + 1) =~= entries@.take(i as int).push(entries@[i as int]));
            entries@.take(i as int).lemma_filter_push(entries@[i as int], pred);
        }
        if entries[i].is_candidate(extensions) {
            count += 1;
        }
        i += 1;
    }
    proof {
        assert(entries@.take(i as int) =~= entries@);
    }
    count
}

/// Keeps the files to match.
///
/// An entry is kept where it is a regular file with an accepted extension,
/// its metadata was decoded and, with `filter_by_auto_bracket`, its exposure
/// mode is that of a camera-driven bracket. The files come out in the order
/// of the listing. Every regular file with an accepted extension counts as
/// processed, kept or not.
pub fn collect_files_with_metadata(
    entries: &Vec<DirectoryEntry>,
    extensions: &Vec<String>,
    filter_by_auto_bracket: bool,
) -> (collected: Collected)
    ensures
        collected.processed == entries@.filter(candidate_filter(texts(extensions@))).len(),
        are_records_of(
            collected.files@,
            entries@.filter(kept_filter(texts(extensions@), filter_by_auto_bracket)),
        ),
        collected.files@.len() <= collected.processed <= entries@.len(),
{
    let ghost candidate = candidate_filter(texts(extensions@));
    let ghost kept = kept_filter(texts(extensions@), filter_by_auto_bracket);
    let mut files: Vec<FileRecord> = Vec::new();
    let mut processed: usize = 0;
    let mut i: usize = 0;
    proof {
        reveal(Seq::filter);
        assert(entries@.take(0).filter(candidate).len() == 0);
        assert(entries@.take(0).filter(kept).len() == 0);
    }
    while i < entries.len()
        invariant
            i <= entries.len(),
            candidate == candidate_filter(texts(extensions@)),
            kept == kept_filter(texts(extensions@), filter_by_auto_bracket),
            processed == entries@.take(i as int).filter(candidate).len(),
            files@.len() <= processed <= i,
            are_records_of(files@, entries@.take(i as int).filter(kept)),
        decreases entries.len() - i,
    {
        let entry = &entries[i];
        proof {
            assert(entries@.take(i + 1) =~= entries@.take(i as int).push(*entry));
            entries@.take(i as int).lemma_filter_push(*entry, candidate);
            entries@.take(i as int).lemma_filter_push(*entry, kept);
        }
        if entry.is_candidate(extensions) {
            processed += 1;
            match &entry.metadata {
                Some(metadata) => {
                    let passes = !filter_by_auto_bracket || match metadata.exposure_mode {
                        Some(mode) => mode == AUTO_BRACKET,
                        None => false,
                    };
                    if passes {
                        let record = FileRecord::new(
                            entry.path.clone(),
                            entry.file_name.clone(),
                            metadata,
                        );
                        files.push(record);
                    }
                },
                None => {},
            }
        }
        i += 1;
    }
    proof {
        assert(entries@.take(i as int) =~= entries@);
    }
    Collected { files, processed }
}

} // verus!
