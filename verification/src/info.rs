//! What is shown of the exposure metadata of single files.

use crate::options::exposure_mode_to_string;
use crate::rational::{reduces_in_range, ExposureValue, Rational};
use crate::scan::RawExposure;
use crate::sequence::{join, render_sequence, render_value};
use crate::text::{push_int, push_str};
use vstd::prelude::*;

verus! {

/// The exposure metadata of one file, as shown to the user.
#[derive(Debug, Clone, PartialEq, Eq)]
pub struct ExposureInfo {
    /// The name of the file.
    pub filename: String,
    /// The numerator of the exposure bias in lowest terms.
    pub exposure_bias_n: Option<i32>,
    /// The denominator of the exposure bias in lowest terms.
    pub exposure_bias_d: Option<i32>,
    /// The exposure-mode code.
    pub exposure_mode: Option<u16>,
    /// Why no exposure bias is shown.
    pub error_message: Option<String>,
}

/// The metadata holds an exposure bias that an exposure value can hold.
pub open spec fn has_usable_bias(raw: RawExposure) -> bool {
    match raw.exposure_bias {
        Some(pair) => reduces_in_range(pair.0 as int, pair.1 as int),
        None => false,
    }
}

/// The exposure bias of the metadata as a fraction.
pub open spec fn raw_bias(raw: RawExposure) -> Rational {
    let pair = raw.exposure_bias.unwrap();
    Rational { num: pair.0 as int, den: pair.1 as int }
}

/// The info shows two parts of a bias.
pub open spec fn shows_bias(info: ExposureInfo) -> bool {
    info.exposure_bias_n is Some && info.exposure_bias_d is Some
}

/// The bias that the info shows.
pub open spec fn shown_bias(info: ExposureInfo) -> Rational {
    Rational { num: info.exposure_bias_n->0 as int, den: info.exposure_bias_d->0 as int }
}

/// The info is the one for a file of this name with this decoding result.
///
/// Without metadata it holds the message that none could be read. With
/// metadata it holds the exposure mode and the bias in lowest terms, or the
/// message that no bias was found.
pub open spec fn describes(
    info: ExposureInfo,
    filename: Seq<char>,
    metadata: Option<RawExposure>,
) -> bool {
    &&& info.filename@ == filename
    &&& match metadata {
        None => {
            &&& info.exposure_bias_n is None
            &&& info.exposure_bias_d is None
            &&& info.exposure_mode is None
            &&& info.error_message matches Some(message)
            &&& message@ == "Could not read metadata"@
        },
        Some(raw) => {
            &&& info.exposure_mode == raw.exposure_mode
            &&& if has_usable_bias(raw) {
                &&& shows_bias(info)
                &&& shown_bias(info).lowest_terms()
                &&& shown_bias(info).same(raw_bias(raw))
                &&& info.error_message is None
            } else {
                &&& info.exposure_bias_n is None
                &&& info.exposure_bias_d is None
                &&& info.error_message matches Some(message)
                &&& message@ == "No exposure bias found"@
            }
        },
    }
}

/// The biases that the infos show, in order.
pub open spec fn shown_biases(infos: Seq<ExposureInfo>) -> Seq<Rational>
    decreases infos.len(),
{
    if infos.len() == 0 {
        Seq::empty()
    } else if shows_bias(infos.last()) {
        shown_biases(infos.drop_last()).push(shown_bias(infos.last()))
    } else {
        shown_biases(infos.drop_last())
    }
}

/// A new string with the text of `text`.
fn string_of(text: &str) -> (s: String)
    ensures
        s@ == text@,
{
    let mut s = String::new();
    push_str(&mut s, text);
    s
}

impl ExposureInfo {
    /// The info for the file `filename`, of which decoding gave `metadata`.
    pub fn from_metadata(filename: String, metadata: Option<RawExposure>) -> (info: ExposureInfo)
        ensures
            describes(info, filename@, metadata),
    {
        match metadata {
            Some(raw) => {
                let bias = match raw.exposure_bias {
                    Some(pair) => ExposureValue::new(pair.0, pair.1),
                    None => None,
                };
                match bias {
                    Some(value) => {
                        let n = value.numer();
                        let d = value.denom();
                        ExposureInfo {
                            filename,
                            exposure_bias_n: Some(n),
                            exposure_bias_d: Some(d),
                            exposure_mode: raw.exposure_mode,
                            error_message: None,
                        }
                    },
                    None => ExposureInfo {
                        filename,
                        exposure_bias_n: None,
                        exposure_bias_d: None,
                        exposure_mode: raw.exposure_mode,
                        error_message: Some(string_of("No exposure bias found")),
                    },
                }
            },
            None => ExposureInfo {
                filename,
                exposure_bias_n: None,
                exposure_bias_d: None,
                exposure_mode: None,
                error_message: Some(string_of("Could not read metadata")),
            },
        }
    }

    /// The text shown for the bias: the message where there is one, else the
    /// bias as numerator, slash and denominator, else a dash.
    pub fn bias_text(&self) -> (text: String)
        ensures
            text@ == match self.error_message {
                Some(message) => message@,
                None => if shows_bias(*self) {
                    render_value(shown_bias(*self))
                } else {
                    "-"@
                },
            },
    {
        match &self.error_message {
            Some(message) => message.clone(),
            None => match (self.exposure_bias_n, self.exposure_bias_d) {
                (Some(n), Some(d)) => {
                    let mut text = String::new();
                    push_int(&mut text, n);
                    text.push('/');
                    push_int(&mut text, d);
                    proof {
                        assert(text@ =~= render_value(shown_bias(*self)));
                    }
                    text
                },
                _ => string_of("-"),
            },
        }
    }

    /// The text shown for the exposure mode: its name, or a dash where the
    /// file records none.
    pub fn mode_text(&self) -> (text: &'static str)
        ensures
            text@ == match self.exposure_mode {
                Some(mode) => if mode == 0 {
                    "Auto exposure"@
                } else if mode == 1 {
                    "Manual exposure"@
                } else if mode == 2 {
                    "Auto bracket"@
                } else {
                    "Unknown"@
                },
                None => "-"@,
            },
    {
        match self.exposure_mode {
            Some(mode) => exposure_mode_to_string(mode),
            None => "-",
        }
    }
}

/// The exposure sequence that the infos show: the bias of each file that
/// has one, in order, written as a sequence.
pub fn sequence_from_infos(infos: &Vec<ExposureInfo>) -> (text: String)
    ensures
        text@ == render_sequence(shown_biases(infos@)),
{
    let mut text = String::new();
    let mut empty = true;
    let mut i: usize = 0;
    while i < infos.len()
        invariant
            i <= infos.len(),
            empty == (shown_biases(infos@.take(i as int)).len() == 0),
            text@ == render_sequence(shown_biases(infos@.take(i as int))),
        decreases infos.len() - i,
    {
        let ghost before = shown_biases(infos@.take(i as int));
        proof {
            assert(infos@.take(i + 1).drop_last() =~= infos@.take(i as int));
            assert(infos@.take(i + 1).last() == infos@[i as int]);
        }
        match (infos[i].exposure_bias_n, infos[i].exposure_bias_d) {
            (Some(n), Some(d)) => {
                if !empty {
                    text.push(',');
                    text.push(' ');
                }
                push_int(&mut text, n);
                text.push('/');
                push_int(&mut text, d);
                empty = false;
                proof {
                    let value = shown_bias(infos@[i as int]);
                    let after = before.push(value);
                    let parts = after.map_values(|v: Rational| render_value(v));
                    assert(parts.drop_last() =~= before.map_values(|v: Rational| render_value(v)));
                    assert(parts.last() == render_value(value));
                    assert(text@ =~= join(parts));
                }
            },
            _ => {},
        }
        i += 1;
    }
    proof {
        assert(infos@.take(i as int) =~= infos@);
    }
    text
}

} // verus!
