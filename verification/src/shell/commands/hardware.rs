//! The hardware commands: the options of `lspci` and the arguments of `beep`.
use vstd::prelude::*;
use crate::shell::parser::{command_arguments, command_name, split_command};
use crate::text::{parse_usize, parsed_usize, str_equal, trim, trim_str};
use vstd::string::StrSliceExecFns;

verus! {

/// Number of base address registers of a PCI device.
pub const BAR_COUNT: u8 = 6;
/// Lowest frequency accepted by `beep`, in hertz.
pub const MIN_FREQUENCY: usize = 20;
/// Highest frequency accepted by `beep`, in hertz.
pub const MAX_FREQUENCY: usize = 20000;
/// Longest tone accepted by `beep`, in milliseconds.
pub const MAX_BEEP_MS: usize = 5000;

/// What `lspci` shows.
#[derive(Clone, Copy, Debug, PartialEq, Eq, Structural)]
pub enum LspciMode {
    /// One line per device.
    List,
    /// A block of details per device (`-v`).
    Verbose,
    /// The options are not understood: show the usage.
    Usage,
}

/// The mode selected by the options of `lspci`.
pub open spec fn lspci_mode(options: Seq<char>) -> LspciMode {
    if trim(options).len() == 0 {
        LspciMode::List
    } else if trim(options) == seq!['-', 'v'] {
        LspciMode::Verbose
    } else {
        LspciMode::Usage
    }
}

/// What `lspci` shows for the given options: nothing means the list, `-v`
/// the details; anything else gets the usage.
pub fn lspci(options: &str) -> (r: LspciMode)
    ensures
        r == lspci_mode(options@),
{
    let t = trim_str(options);
    proof {
        reveal_strlit("-v");
        assert("-v"@ =~= seq!['-', 'v']);
    }
    if t.unicode_len() == 0 {
        LspciMode::List
    } else if str_equal(t, "-v") {
        LspciMode::Verbose
    } else {
        LspciMode::Usage
    }
}

/// Why a numeric argument was refused.
#[derive(Clone, Copy, Debug, PartialEq, Eq, Structural)]
pub enum NumberError {
    /// The text is not a number.
    Invalid,
    /// The number lies outside the accepted range.
    OutOfRange,
}

/// The result of reading a number in `minimum..=maximum` from `text`.
pub open spec fn number_in_range(text: Seq<char>, minimum: usize, maximum: usize) -> Result<usize, NumberError> {
    match parsed_usize(text) {
        None => Err(NumberError::Invalid),
        Some(v) => if v < minimum || v > maximum {
            Err(NumberError::OutOfRange)
        } else {
            Ok(v)
        },
    }
}

/// Read a number and check that it lies in `minimum..=maximum`.
pub fn parse_number(text: &str, minimum: usize, maximum: usize) -> (r: Result<usize, NumberError>)
    ensures
        r == number_in_range(text@, minimum, maximum),
{
    match parse_usize(text) {
        None => Err(NumberError::Invalid),
        Some(v) => if v < minimum || v > maximum {
            Err(NumberError::OutOfRange)
        } else {
            Ok(v)
        },
    }
}

/// Why the arguments of `beep` were refused.
#[derive(Clone, Copy, Debug, PartialEq, Eq, Structural)]
pub enum BeepError {
    /// Not exactly two arguments: show the usage.
    Usage,
    /// The frequency is not a number in `MIN_FREQUENCY..=MAX_FREQUENCY`.
    Frequency(NumberError),
    /// The duration is not a number in `1..=MAX_BEEP_MS`.
    Duration(NumberError),
}

/// The tone `beep` plays for its arguments: exactly two whitespace-separated
/// words, a frequency and a duration, each in its range.
pub open spec fn beep_request(arguments: Seq<char>) -> Result<(usize, usize), BeepError> {
    let t = trim(arguments);
    let first = command_name(t);
    let rest = command_arguments(t);
    let second = command_name(rest);
    if t.len() == 0 || rest.len() == 0 || command_arguments(rest).len() > 0 {
        Err(BeepError::Usage)
    } else {
        match number_in_range(first, MIN_FREQUENCY, MAX_FREQUENCY) {
            Err(e) => Err(BeepError::Frequency(e)),
            Ok(f) => match number_in_range(second, 1, MAX_BEEP_MS) {
                Err(e) => Err(BeepError::Duration(e)),
                Ok(d) => Ok((f, d)),
            },
        }
    }
}

/// Validate the arguments of `beep`: the frequency in hertz and the duration
/// in milliseconds of the tone to play.
pub fn beep(arguments: &str) -> (r: Result<(usize, usize), BeepError>)
    ensures
        r == beep_request(arguments@),
{
    let t = trim_str(arguments);
    if t.unicode_len() == 0 {
        return Err(BeepError::Usage);
    }
    let (first, rest) = split_command(t);
    if rest.unicode_len() == 0 {
        return Err(BeepError::Usage);
    }
    let (second, more) = split_command(rest);
    if more.unicode_len() > 0 {
        return Err(BeepError::Usage);
    }
    let frequency = match parse_number(first, MIN_FREQUENCY, MAX_FREQUENCY) {
        Ok(f) => f,
        Err(e) => return Err(BeepError::Frequency(e)),
    };
    let duration = match parse_number(second, 1, MAX_BEEP_MS) {
        Ok(d) => d,
        Err(e) => return Err(BeepError::Duration(e)),
    };
    Ok((frequency, duration))
}

} // verus!
