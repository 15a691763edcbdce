//! What the user chooses for a pass: the action on each matched run, the
//! way exposure values are compared, and the order of a generated sequence.

use vstd::prelude::*;

verus! {

/// What is done with a matched run.
#[derive(Debug, Clone, Copy, PartialEq, Eq, Structural)]
pub enum Action {
    /// The files of the run are moved into a new folder.
    MoveToFolder,
    /// The paths of the run are appended to the manifest file.
    SaveSequencesToTextfile,
}

/// How the exposure bias of a file is compared with the target sequence.
#[derive(Debug, Clone, Copy, PartialEq, Eq, Structural)]
pub enum EvMode {
    /// The bias itself must be the target value.
    Absolute,
    /// The bias minus the bias of the file at the zero entry of the target
    /// must be the target value.
    Delta,
}

/// The order in which a generated sequence lists its offsets.
#[derive(Debug, Clone, Copy, PartialEq, Eq, Structural)]
pub enum BracketOrder {
    /// Zero first, then each step as a negative and a positive offset.
    ZeroMinusPlus,
    /// All offsets in ascending order.
    MinusZeroPlus,
}

impl Action {
    /// The name shown for the action.
    pub fn label(&self) -> (s: &'static str)
        ensures
            s@ == match *self {
                Action::MoveToFolder => "Move to Folder"@,
                Action::SaveSequencesToTextfile => "Save Sequences to Textfile"@,
            },
    {
        match self {
            Action::MoveToFolder => "Move to Folder",
            Action::SaveSequencesToTextfile => "Save Sequences to Textfile",
        }
    }
}

impl EvMode {
    /// The name shown for the mode.
    pub fn label(&self) -> (s: &'static str)
        ensures
            s@ == match *self {
                EvMode::Absolute => "Absolute EV Value"@,
                EvMode::Delta => "Delta EV Change"@,
            },
    {
        match self {
            EvMode::Absolute => "Absolute EV Value",
            EvMode::Delta => "Delta EV Change",
        }
    }
}

impl BracketOrder {
    /// The name shown for the order.
    pub fn label(&self) -> (s: &'static str)
        ensures
            s@ == match *self {
                BracketOrder::ZeroMinusPlus => "ZeroMinusPlus"@,
                BracketOrder::MinusZeroPlus => "MinusZeroPlus"@,
            },
    {
        match self {
            BracketOrder::ZeroMinusPlus => "ZeroMinusPlus",
            BracketOrder::MinusZeroPlus => "MinusZeroPlus",
        }
    }
}

/// The name of an exposure-mode code as cameras record it.
pub fn exposure_mode_to_string(mode: u16) -> (s: &'static str)
    ensures
        s@ == if mode == 0 {
            "Auto exposure"@
        } else if mode == 1 {
            "Manual exposure"@
        } else if mode == 2 {
            "Auto bracket"@
        } else {
            "Unknown"@
        },
{
    match mode {
        0 => "Auto exposure",
        1 => "Manual exposure",
        2 => "Auto bracket",
        _ => "Unknown",
    }
}

} // verus!
