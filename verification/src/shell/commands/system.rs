//! The system commands: the uptime, the framebuffer size and `sleep`.
use vstd::prelude::*;
use crate::device::terminal::Terminal;
use crate::text::{parse_usize, parsed_usize, push_char, push_decimal, push_zero_padded, trim, trim_str, zero_padded};
use vstd::string::StrSliceExecFns;

verus! {

/// Longest duration accepted by `sleep`; the shell reads no input while sleeping.
pub const MAX_SLEEP_MS: usize = 10000;

/// Size of the framebuffer and of the terminal drawn on it.
#[derive(Clone, Copy, Debug, PartialEq, Eq, Structural)]
pub struct FramebufferInfo {
    /// Width of the framebuffer in pixels.
    pub width: usize,
    /// Height of the framebuffer in pixels.
    pub height: usize,
    /// Number of text columns that fit into the framebuffer.
    pub columns: usize,
    /// Number of text rows that fit into the framebuffer.
    pub rows: usize,
}

/// The size of the framebuffer the terminal draws on, and of the terminal.
pub fn framebuffer_info(terminal: &Terminal) -> (r: FramebufferInfo)
    ensures
        r == (FramebufferInfo {
            width: terminal@.framebuffer.width,
            height: terminal@.framebuffer.height,
            columns: terminal@.cols,
            rows: terminal@.rows,
        }),
{
    let display = terminal.framebuffer();
    let (columns, rows) = terminal.size();
    FramebufferInfo { width: display.width, height: display.height, columns, rows }
}

/// A duration in milliseconds as hours, minutes, seconds and milliseconds.
pub fn split_uptime(total_milliseconds: usize) -> (r: (usize, usize, usize, usize))
    ensures
        r.0 == total_milliseconds / 1000 / 3600,
        r.1 == (total_milliseconds / 1000 / 60) % 60,
        r.2 == (total_milliseconds / 1000) % 60,
        r.3 == total_milliseconds % 1000,
        r.3 + 1000 * (r.2 + 60 * r.1 + 3600 * r.0) == total_milliseconds,
{
    let milliseconds = total_milliseconds % 1000;
    let total_seconds = total_milliseconds / 1000;
    (total_seconds / 3600, (total_seconds / 60) % 60, total_seconds % 60, milliseconds)
}

/// The uptime as `HH:MM:SS.mmm`; the hours take more digits if needed.
pub open spec fn uptime_text_spec(ms: nat) -> Seq<char> {
    zero_padded(ms / 1000 / 3600, 2) + seq![':'] + zero_padded((ms / 1000 / 60) % 60, 2) + seq![':']
        + zero_padded((ms / 1000) % 60, 2) + seq!['.'] + zero_padded(ms % 1000, 3)
}

/// The uptime `total_milliseconds` as `HH:MM:SS.mmm`.
pub fn uptime_text(total_milliseconds: usize) -> (r: String)
    ensures
        r@ == uptime_text_spec(total_milliseconds as nat),
{
    let (hours, minutes, seconds, milliseconds) = split_uptime(total_milliseconds);
    let mut s = String::new();
    push_zero_padded(&mut s, hours, 2);
    push_char(&mut s, ':');
    push_zero_padded(&mut s, minutes, 2);
    push_char(&mut s, ':');
    push_zero_padded(&mut s, seconds, 2);
    push_char(&mut s, '.');
    push_zero_padded(&mut s, milliseconds, 3);
    proof {
        assert(s@ =~= uptime_text_spec(total_milliseconds as nat));
    }
    s
}

/// Why the argument of `sleep` was refused.
#[derive(Clone, Copy, Debug, PartialEq, Eq, Structural)]
pub enum SleepError {
    /// No argument: show the usage.
    Usage,
    /// The argument is not a number.
    Invalid,
    /// The duration is zero or longer than `MAX_SLEEP_MS`.
    OutOfRange,
}

/// The duration `sleep` waits for its argument.
pub open spec fn sleep_request(argument: Seq<char>) -> Result<usize, SleepError> {
    let t = trim(argument);
    if t.len() == 0 {
        Err(SleepError::Usage)
    } else {
        match parsed_usize(t) {
            None => Err(SleepError::Invalid),
            Some(d) => if d == 0 || d > MAX_SLEEP_MS {
                Err(SleepError::OutOfRange)
            } else {
                Ok(d)
            },
        }
    }
}

/// Validate the argument of `sleep`: a duration of 1 to `MAX_SLEEP_MS`
/// milliseconds.
pub fn sleep(argument: &str) -> (r: Result<usize, SleepError>)
    ensures
        r == sleep_request(argument@),
{
    let t = trim_str(argument);
    if t.unicode_len() == 0 {
        return Err(SleepError::Usage);
    }
    match parse_usize(t) {
        None => Err(SleepError::Invalid),
        Some(d) => if d == 0 || d > MAX_SLEEP_MS {
            Err(SleepError::OutOfRange)
        } else {
            Ok(d)
        },
    }
}

} // verus!
