//! Log message formatting: the severity levels, their three-letter
//! abbreviations, and the prefix written in front of every message.
use vstd::prelude::*;
use crate::text::{decimal, push_char, push_decimal, push_str, push_zero_padded, str_equal, zero_padded};

verus! {

/// The severity of a log message, from the most to the least severe.
#[derive(Clone, Copy, Debug, PartialEq, Eq, Structural)]
pub enum Level {
    /// Errors.
    Error,
    /// Warnings.
    Warn,
    /// Informational messages.
    Info,
    /// Debugging messages.
    Debug,
    /// Very detailed tracing messages.
    Trace,
}

/// The three-letter abbreviation of a level, in capitals.
pub open spec fn abbreviation(level: Level) -> Seq<char> {
    match level {
        Level::Trace => seq!['T', 'R', 'C'],
        Level::Debug => seq!['D', 'B', 'G'],
        Level::Info => seq!['I', 'N', 'F'],
        Level::Warn => seq!['W', 'R', 'N'],
        Level::Error => seq!['E', 'R', 'R'],
    }
}

/// The three-letter abbreviation of a level, in small letters.
pub open spec fn abbreviation_lower(level: Level) -> Seq<char> {
    match level {
        Level::Trace => seq!['t', 'r', 'c'],
        Level::Debug => seq!['d', 'b', 'g'],
        Level::Info => seq!['i', 'n', 'f'],
        Level::Warn => seq!['w', 'r', 'n'],
        Level::Error => seq!['e', 'r', 'r'],
    }
}

/// The level an abbreviation names, in capitals or in small letters.
pub open spec fn level_named(abbr: Seq<char>) -> Option<Level> {
    if abbr == abbreviation(Level::Trace) || abbr == abbreviation_lower(Level::Trace) {
        Some(Level::Trace)
    } else if abbr == abbreviation(Level::Debug) || abbr == abbreviation_lower(Level::Debug) {
        Some(Level::Debug)
    } else if abbr == abbreviation(Level::Info) || abbr == abbreviation_lower(Level::Info) {
        Some(Level::Info)
    } else if abbr == abbreviation(Level::Warn) || abbr == abbreviation_lower(Level::Warn) {
        Some(Level::Warn)
    } else if abbr == abbreviation(Level::Error) || abbr == abbreviation_lower(Level::Error) {
        Some(Level::Error)
    } else {
        None
    }
}

/// The level named by a three-letter abbreviation ("TRC", "DBG", "INF",
/// "WRN", "ERR", in capitals or in small letters); `None` for anything else.
pub fn level_from_abbreviation(abbr: &str) -> (r: Option<Level>)
    ensures
        r == level_named(abbr@),
{
    proof {
        reveal_strlit("TRC");
        reveal_strlit("trc");
        reveal_strlit("DBG");
        reveal_strlit("dbg");
        reveal_strlit("INF");
        reveal_strlit("inf");
        reveal_strlit("WRN");
        reveal_strlit("wrn");
        reveal_strlit("ERR");
        reveal_strlit("err");
        assert("TRC"@ =~= abbreviation(Level::Trace));
        assert("trc"@ =~= abbreviation_lower(Level::Trace));
        assert("DBG"@ =~= abbreviation(Level::Debug));
        assert("dbg"@ =~= abbreviation_lower(Level::Debug));
        assert("INF"@ =~= abbreviation(Level::Info));
        assert("inf"@ =~= abbreviation_lower(Level::Info));
        assert("WRN"@ =~= abbreviation(Level::Warn));
        assert("wrn"@ =~= abbreviation_lower(Level::Warn));
        assert("ERR"@ =~= abbreviation(Level::Error));
        assert("err"@ =~= abbreviation_lower(Level::Error));
    }
    if str_equal(abbr, "TRC") || str_equal(abbr, "trc") {
        Some(Level::Trace)
    } else if str_equal(abbr, "DBG") || str_equal(abbr, "dbg") {
        Some(Level::Debug)
    } else if str_equal(abbr, "INF") || str_equal(abbr, "inf") {
        Some(Level::Info)
    } else if str_equal(abbr, "WRN") || str_equal(abbr, "wrn") {
        Some(Level::Warn)
    } else if str_equal(abbr, "ERR") || str_equal(abbr, "err") {
        Some(Level::Error)
    } else {
        None
    }
}

/// The three-letter abbreviation of a level, in capitals.
pub fn level_abbreviation(level: Level) -> (r: &'static str)
    ensures
        r@ == abbreviation(level),
{
    proof {
        reveal_strlit("TRC");
        reveal_strlit("DBG");
        reveal_strlit("INF");
        reveal_strlit("WRN");
        reveal_strlit("ERR");
        assert("TRC"@ =~= abbreviation(Level::Trace));
        assert("DBG"@ =~= abbreviation(Level::Debug));
        assert("INF"@ =~= abbreviation(Level::Info));
        assert("WRN"@ =~= abbreviation(Level::Warn));
        assert("ERR"@ =~= abbreviation(Level::Error));
    }
    match level {
        Level::Trace => "TRC",
        Level::Debug => "DBG",
        Level::Info => "INF",
        Level::Warn => "WRN",
        Level::Error => "ERR",
    }
}

/// The text in front of a log message: the time as seconds and milliseconds,
/// the level, and the source location.
pub open spec fn log_prefix_text(time_ms: nat, level: Level, file: Seq<char>, line: nat) -> Seq<char> {
    seq!['['] + decimal(time_ms / 1000) + seq!['.'] + zero_padded(time_ms % 1000, 3) + seq![']', ' ', '[']
        + abbreviation(level) + seq![']', ' ', '['] + file + seq!['@'] + decimal(line) + seq![
        ']',
        ' ',
        ':',
        ' ',
    ]
}

/// The prefix `[seconds.millis] [LVL] [file@line] : ` of a log message
/// written at `time_ms` milliseconds of uptime.
pub fn log_prefix(time_ms: usize, level: Level, file: &str, line: u32) -> (r: String)
    ensures
        r@ == log_prefix_text(time_ms as nat, level, file@, line as nat),
{
    let mut s = String::new();
    push_char(&mut s, '[');
    push_decimal(&mut s, time_ms / 1000);
    push_char(&mut s, '.');
    push_zero_padded(&mut s, time_ms % 1000, 3);
    push_char(&mut s, ']');
    push_char(&mut s, ' ');
    push_char(&mut s, '[');
    push_str(&mut s, level_abbreviation(level));
    push_char(&mut s, ']');
    push_char(&mut s, ' ');
    push_char(&mut s, '[');
    push_str(&mut s, file);
    push_char(&mut s, '@');
    push_decimal(&mut s, line as usize);
    push_char(&mut s, ']');
    push_char(&mut s, ' ');
    push_char(&mut s, ':');
    push_char(&mut s, ' ');
    proof {
        assert(s@ =~= log_prefix_text(time_ms as nat, level, file@, line as nat));
    }
    s
}

/// The logger's settings: whether messages are mirrored to the terminal.
pub struct Logger {
    terminal_logging: bool,
}

impl Logger {
    /// A logger that writes to the serial port only.
    pub fn new() -> (r: Logger)
        ensures
            !r.terminal_logging_spec(),
    {
        Logger { terminal_logging: false }
    }

    /// Whether messages are mirrored to the terminal.
    pub closed spec fn terminal_logging_spec(&self) -> bool {
        self.terminal_logging
    }

    /// Enable or disable mirroring log messages to the terminal.
    pub fn enable_terminal_logging(&mut self, enabled: bool)
        ensures
            final(self).terminal_logging_spec() == enabled,
    {
        self.terminal_logging = enabled;
    }

    /// Whether messages are mirrored to the terminal.
    pub fn terminal_logging(&self) -> (r: bool)
        ensures
            r == self.terminal_logging_spec(),
    {
        self.terminal_logging
    }
}

} // verus!
