//! One pass over a scanned directory: keep the files, find the runs, plan
//! the action for each run.

use crate::executor::{is_plan_for, plan_action_on_sequence, ActionPlan};
use crate::matcher::{find_matching_sequences, matched_runs, run_views};
use crate::options::{Action, EvMode};
use crate::rational::ExposureValue;
use crate::scan::{
    are_records_of, candidate_filter, collect_files_with_metadata, kept_filter, texts,
    DirectoryEntry, FileRecord,
};
use crate::sequence::{parse_exposure_sequence, parse_sequence, represents, views};
use vstd::prelude::*;

verus! {

/// Why a pass cannot start.
#[derive(Debug, Clone, Copy, PartialEq, Eq, Structural)]
pub enum StartError {
    /// The exposure sequence holds fewer than two values.
    InvalidSequence,
}

impl StartError {
    /// The message shown to the user.
    pub fn message(&self) -> (text: &'static str)
        ensures
            text@ == "Invalid or single-value exposure bias sequence."@,
    {
        "Invalid or single-value exposure bias sequence."
    }
}

/// What one pass found and what is to be done.
#[derive(Debug)]
pub struct PassOutcome {
    /// The files that were matched against the sequence, in order.
    pub files: Vec<FileRecord>,
    /// The number of files examined.
    pub processed_files: usize,
    /// The number of runs found.
    pub brackets_found: usize,
    /// The steps to take for each run, in the order of the runs.
    pub plans: Vec<ActionPlan>,
}

/// Reads the target sequence of a pass and rejects one that holds fewer than
/// two values: with such a sequence no pass starts.
pub fn prepare_sequence(sequence_text: &str) -> (r: Result<Vec<ExposureValue>, StartError>)
    ensures
        match r {
            Ok(values) => parse_sequence(sequence_text@).len() >= 2 && represents(
                values@,
                parse_sequence(sequence_text@),
            ),
            Err(error) => parse_sequence(sequence_text@).len() < 2,
        },
{
    let values = parse_exposure_sequence(sequence_text);
    if values.len() < 2 {
        Err(StartError::InvalidSequence)
    } else {
        Ok(values)
    }
}

/// One pass: the files kept of `entries` are matched against `sequence`, and
/// for each run found the steps of `selected_action` are planned.
pub fn process_directory(
    entries: &Vec<DirectoryEntry>,
    extensions: &Vec<String>,
    sequence: &Vec<ExposureValue>,
    selected_action: Action,
    ev_mode: EvMode,
    filter_by_auto_bracket: bool,
) -> (outcome: PassOutcome)
    ensures
        outcome.processed_files == entries@.filter(candidate_filter(texts(extensions@))).len(),
        are_records_of(
            outcome.files@,
            entries@.filter(kept_filter(texts(extensions@), filter_by_auto_bracket)),
        ),
        outcome.files@.len() <= outcome.processed_files <= entries@.len(),
        outcome.brackets_found == matched_runs(outcome.files@, views(sequence@), ev_mode).len(),
        outcome.plans@.len() == outcome.brackets_found,
        forall|k: int|
            0 <= k < outcome.plans@.len() ==> is_plan_for(
                #[trigger] outcome.plans@[k],
                matched_runs(outcome.files@, views(sequence@), ev_mode)[k],
                selected_action,
            ),
{
    let collected = collect_files_with_metadata(entries, extensions, filter_by_auto_bracket);
    let files = collected.files;
    let mut plans: Vec<ActionPlan> = Vec::new();
    let runs = find_matching_sequences(files.as_slice(), sequence.as_slice(), ev_mode);
    let ghost found = matched_runs(files@, views(sequence@), ev_mode);
    let brackets_found = runs.len();
    let mut k: usize = 0;
    while k < runs.len()
        invariant
            k <= runs.len(),
            run_views(runs@) == found,
            plans@.len() == k,
            forall|j: int| 0 <= j < k ==> is_plan_for(#[trigger] plans@[j], found[j], selected_action),
        decreases runs.len() - k,
    {
        assert(run_views(runs@)[k as int] == runs@[k as int]@);
        let plan = plan_action_on_sequence(runs[k], selected_action);
        plans.push(plan);
        k += 1;
    }
    PassOutcome { files, processed_files: collected.processed, brackets_found, plans }
}

} // verus!
