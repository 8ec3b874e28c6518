//! What is logged and how: the level, the lines, the limit on the size of the log and the report
//! of a panic.
use crate::text;
use crate::text::decimal;
use vstd::prelude::*;
use vstd::string::*;

verus! {

/// The log may not grow beyond this.
pub const MAX_LOG_FILE_SIZE: u64 = 52_428_800;

/// How important a record is, from the most important.
#[derive(Debug, Clone, Copy, PartialEq, Eq, Structural)]
pub enum LogLevel {
    Error,
    Warn,
    Info,
    Debug,
    Trace,
}

/// A character in upper case, where it is an ASCII letter.
pub open spec fn ascii_upper(c: char) -> char {
    if 'a' <= c <= 'z' {
        (c as u32 - 32) as char
    } else {
        c
    }
}

/// Two texts are the same but for the case of ASCII letters.
pub open spec fn same_letters(a: Seq<char>, b: Seq<char>) -> bool {
    a.map_values(|c: char| ascii_upper(c)) == b.map_values(|c: char| ascii_upper(c))
}

/// The level that a text names, whatever the case of its letters.
pub open spec fn level_named(s: Seq<char>) -> Option<LogLevel> {
    if same_letters(s, "ERROR"@) {
        Some(LogLevel::Error)
    } else if same_letters(s, "WARN"@) {
        Some(LogLevel::Warn)
    } else if same_letters(s, "INFO"@) {
        Some(LogLevel::Info)
    } else if same_letters(s, "DEBUG"@) {
        Some(LogLevel::Debug)
    } else if same_letters(s, "TRACE"@) {
        Some(LogLevel::Trace)
    } else {
        None
    }
}

/// `log::Level::from_str`: the level that a text names, whatever the case of its letters; any
/// other text is an error.
#[verifier::external_body]
fn parse_level(s: &str) -> (r: Option<LogLevel>)
    ensures
        r == level_named(s@),
{
    match s.parse::<log::Level>() {
        Ok(log::Level::Error) => Some(LogLevel::Error),
        Ok(log::Level::Warn) => Some(LogLevel::Warn),
        Ok(log::Level::Info) => Some(LogLevel::Info),
        Ok(log::Level::Debug) => Some(LogLevel::Debug),
        Ok(log::Level::Trace) => Some(LogLevel::Trace),
        Err(_) => None,
    }
}

/// The level up to which is logged: what the environment names, or else the default of the
/// build. A name that is no level is an error.
pub fn level_filter(is_debug: bool, wanted: Option<&str>) -> (r: Option<LogLevel>)
    ensures
        r == (match wanted {
            Some(s) => level_named(s@),
            None => Some(
                if is_debug {
                    LogLevel::Debug
                } else {
                    LogLevel::Info
                },
            ),
        }),
{
    match wanted {
        Some(s) => parse_level(s),
        None => Some(
            if is_debug {
                LogLevel::Debug
            } else {
                LogLevel::Info
            },
        ),
    }
}

/// How large the log is.
#[derive(Debug, Clone, Copy, PartialEq, Eq, Structural)]
pub struct LogBudget {
    pub current_size: u64,
}

impl LogBudget {
    /// Whether `len` more bytes fit.
    pub fn fits(&self, len: u64) -> (r: bool)
        ensures
            r == (self.current_size + len <= MAX_LOG_FILE_SIZE),
    {
        self.current_size <= MAX_LOG_FILE_SIZE && len <= MAX_LOG_FILE_SIZE - self.current_size
    }

    /// `len` more bytes have been written.
    pub fn written(&mut self, len: u64)
        requires
            old(self).current_size + len <= MAX_LOG_FILE_SIZE,
        ensures
            final(self).current_size == old(self).current_size + len,
            final(self).current_size <= MAX_LOG_FILE_SIZE,
    {
        self.current_size = self.current_size + len;
    }
}

/// What is written when the log would grow too large.
pub fn overflow_message(timestamp: &str) -> (s: String)
    ensures
        s@ == "\n"@ + timestamp@
            + ":FATAL -- Log file size would exceed the maximum allowed size of "@
            + text::decimal_digits(MAX_LOG_FILE_SIZE as nat) + " bytes\n"@,
{
    let mut s: String = "\n".to_owned();
    s.append(timestamp);
    s.append(":FATAL -- Log file size would exceed the maximum allowed size of ");
    s.append(decimal(MAX_LOG_FILE_SIZE).as_str());
    s.append(" bytes\n");
    s
}

/// The line of a record that ends the program.
pub fn fatal_line(timestamp: &str, message: &str) -> (s: String)
    ensures
        s@ == timestamp@ + ":FATAL -- "@ + message@,
{
    let mut s: String = timestamp.to_owned();
    s.append(":FATAL -- ");
    s.append(message);
    s
}

/// Where a panic happened.
#[derive(Debug, Clone)]
pub struct PanicLocation {
    pub file: String,
    pub line: u32,
    pub column: u32,
}

/// The place of a panic as it is reported.
pub open spec fn location_text(location: Option<PanicLocation>) -> Seq<char> {
    match location {
        Some(l) => l.file@ + ":"@ + text::decimal_digits(l.line as nat) + ":"@
            + text::decimal_digits(l.column as nat),
        None => "unknown location"@,
    }
}

/// The report of a panic.
pub fn format_panic_report(
    thread: Option<&str>,
    location: &Option<PanicLocation>,
    payload: Option<&str>,
    backtrace: &str,
) -> (s: String)
    ensures
        s@ == "panic in thread '"@ + (match thread {
            Some(t) => t@,
            None => "unnamed"@,
        }) + "' at "@ + location_text(*location) + ": "@ + (match payload {
            Some(p) => p@,
            None => "non-string panic payload"@,
        }) + "\nBacktrace:\n"@ + backtrace@,
{
    let mut s: String = "panic in thread '".to_owned();
    match thread {
        Some(t) => {
            s.append(t);
        },
        None => {
            s.append("unnamed");
        },
    }
    s.append("' at ");
    let ghost before = s@;
    match location {
        Some(l) => {
            s.append(l.file.as_str());
            s.append(":");
            s.append(decimal(l.line as u64).as_str());
            s.append(":");
            s.append(decimal(l.column as u64).as_str());
        },
        None => {
            s.append("unknown location");
        },
    }
    assert(s@ =~= before + location_text(*location));
    s.append(": ");
    match payload {
        Some(p) => {
            s.append(p);
        },
        None => {
            s.append("non-string panic payload");
        },
    }
    s.append("\nBacktrace:\n");
    s.append(backtrace);
    s
}

} // verus!
