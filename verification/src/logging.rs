//! The observability collaborator: structured events and the sink
//! contract.
//!
//! The scheduler's callers emit one event per admission decision,
//! completion, rejection and failure.  The core never destines output
//! itself: a [`Logger`] is any sink accepting such records, and the line
//! a record formats to is fixed here as a verified pure function, so a
//! printing sink only has to write it out.

use vstd::prelude::*;

verus! {

/// Severity of a structured event.
#[derive(Clone, Copy, Debug, PartialEq, Eq, Structural)]
pub enum LogLevel {
    Info,
    Warn,
    Error,
    Debug,
}

/// The label a level formats to.
pub open spec fn spec_label(level: LogLevel) -> Seq<char> {
    match level {
        LogLevel::Info => "INFO"@,
        LogLevel::Warn => "WARN"@,
        LogLevel::Error => "ERROR"@,
        LogLevel::Debug => "DEBUG"@,
    }
}

impl LogLevel {
    /// The level's fixed label.
    pub fn label(&self) -> (r: &'static str)
        ensures
            r@ == spec_label(*self),
    {
        match self {
            LogLevel::Info => "INFO",
            LogLevel::Warn => "WARN",
            LogLevel::Error => "ERROR",
            LogLevel::Debug => "DEBUG",
        }
    }
}

/// One structured event: severity, message, and the target it concerns,
/// if any.
#[derive(Debug)]
pub struct LogEvent {
    pub level: LogLevel,
    pub message: String,
    pub target_id: Option<String>,
}

/// Any sink accepting structured events is a valid collaborator; the
/// scheduler's surroundings implement this for whatever output channel
/// they own.
pub trait Logger: Send + Sync {
    /// Takes one structured event.
    fn log_event(&self, level: LogLevel, message: &str, target_id: Option<&str>);

    /// Takes one message for the alternate, stealth-specific channel.
    fn log_stealth(&self, message: &str);
}

/// The view of an optional target name.
pub open spec fn target_view(target_id: Option<&str>) -> Option<Seq<char>> {
    match target_id {
        Some(s) => Some(s@),
        None => None,
    }
}

/// The line an event formats to: the fixed prefix, the level's label, a
/// bracketed target where one is named, then the message.
pub open spec fn spec_format_event(
    level: LogLevel,
    message: Seq<char>,
    target_id: Option<Seq<char>>,
) -> Seq<char> {
    "[STUB LOG] "@ + spec_label(level) + " "@ + (match target_id {
        Some(id) => "["@ + id + "] "@,
        None => Seq::empty(),
    }) + message
}

/// Formats one event to its output line.
pub fn format_event(level: LogLevel, message: &str, target_id: Option<&str>) -> (r: String)
    ensures
        r@ == spec_format_event(level, message@, target_view(target_id)),
{
    let mut out: String = String::from_str("[STUB LOG] ");
    out.append(level.label());
    out.append(" ");
    match target_id {
        Some(id) => {
            out.append("[");
            out.append(id);
            out.append("] ");
        },
        None => {},
    }
    out.append(message);
    proof {
        assert(out@ =~= spec_format_event(level, message@, target_view(target_id)));
    }
    out
}

/// A sink that accepts every record and keeps none: verified code cannot
/// write to an output channel, so the printing counterpart lives with
/// the application, formatting its lines through [`format_event`].
pub struct StubLogger;

impl Logger for StubLogger {
    fn log_event(&self, _level: LogLevel, _message: &str, _target_id: Option<&str>) {
    }

    fn log_stealth(&self, _message: &str) {
    }
}

} // verus!
