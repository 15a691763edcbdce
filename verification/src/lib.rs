//! Detection of exposure brackets in a series of camera RAW files.
//!
//! The crate holds the bracket-detection engine:
//!
//! - `rational`: exact exposure values, fractions in lowest terms;
//! - `text`: characters, whitespace and decimal integers in text;
//! - `sequence`: the textual exposure sequence, its parser and its writer;
//! - `generator`: the default sequence for a step, a count and an order;
//! - `options`: the choices of a pass and their names;
//! - `scan`: the entries of a directory listing and the filter that keeps
//!   the files to match;
//! - `matcher`: the windowed matcher in absolute and delta mode;
//! - `executor`: the steps to take for a matched run;
//! - `engine`: one pass from listing to plans, and the check before it;
//! - `info`: what is shown of the metadata of single files.
//!
//! Reading directories, decoding RAW files and touching the file system are
//! left to the caller, which hands over plain values and carries out the
//! plans.

pub mod engine;
pub mod executor;
pub mod generator;
pub mod info;
pub mod matcher;
pub mod options;
pub mod rational;
pub mod scan;
pub mod sequence;
pub mod text;
