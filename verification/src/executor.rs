//! What is done with a matched run.
//!
//! The file system is the caller's. For each run this module says which
//! steps are to be taken: a folder to create and the files to move into it,
//! or the text to append to the manifest file.

use crate::options::Action;
use crate::scan::{extension_start, stem_of, FileRecord};
use crate::text::{chars_of, push_str};
use vstd::prelude::*;

verus! {

/// The name of the manifest file, in the scanned directory.
pub const MANIFEST_NAME: &'static str = "sequences.txt";

/// One file to move into the folder of its run.
#[derive(Debug, Clone, PartialEq, Eq)]
pub struct FileMove {
    /// The path at which the file is now.
    pub source: String,
    /// The name that the file gets inside the folder: the one it has.
    pub file_name: String,
}

/// The steps to take for one matched run.
#[derive(Debug, Clone, PartialEq, Eq)]
pub enum ActionPlan {
    /// No step: the run holds no file.
    Nothing,
    /// Create the folder `folder` in the scanned directory, then move each
    /// file into it. Where the folder cannot be created, nothing is moved. A
    /// file that cannot be moved does not stop the others.
    MoveToFolder { folder: String, moves: Vec<FileMove> },
    /// Append `text` to the file `manifest` in the scanned directory, which
    /// is created where it does not exist. What it holds already stays.
    AppendToManifest { manifest: String, text: String },
}

/// The paths of the files, each followed by a line feed.
pub open spec fn path_lines(run: Seq<FileRecord>) -> Seq<char>
    decreases run.len(),
{
    if run.len() == 0 {
        Seq::empty()
    } else {
        path_lines(run.drop_last()) + run.last().path@ + seq!['\n']
    }
}

/// The block that a run adds to the manifest: its paths, one on each line,
/// and an empty line after them.
pub open spec fn manifest_block(run: Seq<FileRecord>) -> Seq<char> {
    path_lines(run) + seq!['\n']
}

/// The moves are those of the files of the run, one for one: from the path
/// of the file, under its own name.
pub open spec fn moves_of(moves: Seq<FileMove>, run: Seq<FileRecord>) -> bool {
    &&& moves.len() == run.len()
    &&& forall|i: int|
        0 <= i < moves.len() ==> (#[trigger] moves[i]).source@ == run[i].path@ && moves[i].file_name@
            == run[i].file_name@
}

/// The plan is the one that the action asks for on this run.
///
/// To move a run is to create a folder named after the stem of its first
/// file and to move every file of the run into it. To save a run is to
/// append its block to the manifest file.
pub open spec fn is_plan_for(plan: ActionPlan, run: Seq<FileRecord>, action: Action) -> bool {
    match action {
        Action::MoveToFolder => if run.len() == 0 {
            plan is Nothing
        } else {
            match plan {
                ActionPlan::MoveToFolder { folder, moves } => folder@ == stem_of(
                    run[0].file_name@,
                ) && moves_of(moves@, run),
                _ => false,
            }
        },
        Action::SaveSequencesToTextfile => match plan {
            ActionPlan::AppendToManifest { manifest, text } => manifest@ == MANIFEST_NAME@ && text@
                == manifest_block(run),
            _ => false,
        },
    }
}

/// The stem of a file name: the name without its extension.
pub fn file_stem(file_name: &str) -> (stem: String)
    ensures
        stem@ == stem_of(file_name@),
{
    let name = chars_of(file_name);
    let end: usize = match extension_start(&name) {
        Some(k) => k - 1,
        None => name.len(),
    };
    let mut stem = String::new();
    let mut i: usize = 0;
    while i < end
        invariant
            i <= end <= name.len(),
            stem@ == name@.take(i as int),
        decreases end - i,
    {
        stem.push(name[i]);
        assert(name@.take(i + 1) =~= name@.take(i as int).push(name@[i as int]));
        i += 1;
    }
    proof {
        assert(name@.take(name.len() as int) =~= name@);
    }
    stem
}

/// The moves of the files of a run.
fn moves_for(run: &[FileRecord]) -> (moves: Vec<FileMove>)
    ensures
        moves_of(moves@, run@),
{
    let mut moves: Vec<FileMove> = Vec::new();
    let mut i: usize = 0;
    while i < run.len()
        invariant
            i <= run.len(),
            moves_of(moves@, run@.take(i as int)),
        decreases run.len() - i,
    {
        let item = FileMove { source: run[i].path.clone(), file_name: run[i].file_name.clone() };
        moves.push(item);
        i += 1;
    }
    proof {
        assert(run@.take(i as int) =~= run@);
    }
    moves
}

/// The block of a run for the manifest.
pub fn manifest_text(run: &[FileRecord]) -> (text: String)
    ensures
        text@ == manifest_block(run@),
{
    let mut text = String::new();
    let mut i: usize = 0;
    while i < run.len()
        invariant
            i <= run.len(),
            text@ == path_lines(run@.take(i as int)),
        decreases run.len() - i,
    {
        push_str(&mut text, run[i].path.as_str());
        text.push('\n');
        proof {
            let next = run@.take(i + 1);
            assert(next.drop_last() =~= run@.take(i as int));
            assert(next.last() == run@[i as int]);
            assert(text@ =~= path_lines(next));
        }
        i += 1;
    }
    text.push('\n');
    proof {
        assert(run@.take(i as int) =~= run@);
    }
    text
}

/// The steps that `action` asks for on the matched run `sequence`.
pub fn plan_action_on_sequence(sequence: &[FileRecord], action: Action) -> (plan: ActionPlan)
    ensures
        is_plan_for(plan, sequence@, action),
{
    match action {
        Action::MoveToFolder => {
            if sequence.len() == 0 {
                ActionPlan::Nothing
            } else {
                let folder = file_stem(sequence[0].file_name.as_str());
                let moves = moves_for(sequence);
                ActionPlan::MoveToFolder { folder, moves }
            }
        },
        Action::SaveSequencesToTextfile => {
            let mut manifest = String::new();
            push_str(&mut manifest, MANIFEST_NAME);
            let text = manifest_text(sequence);
            ActionPlan::AppendToManifest { manifest, text }
        },
    }
}

impl ActionPlan {
    /// The moves that remain once the folder of the plan has been tried:
    /// all of them where it was created, none where it was not or where the
    /// plan moves nothing.
    pub fn moves_after_folder(&self, created: bool) -> (moves: &[FileMove])
        ensures
            moves@ == match *self {
                ActionPlan::MoveToFolder { folder, moves } => if created {
                    moves@
                } else {
                    Seq::empty()
                },
                _ => Seq::empty(),
            },
    {
        match self {
            ActionPlan::MoveToFolder { folder, moves } => {
                if created {
                    moves.as_slice()
                } else {
                    vstd::slice::slice_subrange(moves.as_slice(), 0, 0)
                }
            },
            _ => &[],
        }
    }
}

} // verus!
