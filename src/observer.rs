//! Log levels and the observers that decide what gets logged.

use vstd::prelude::*;
use crate::text::{lower_of, lowercase, str_eq};

verus! {

broadcast use vstd::string::group_string_axioms;

/// Severity of a log line, least severe first.
#[derive(Debug, Clone, Copy, PartialEq, Eq, Structural)]
pub enum LogLevel {
    Trace,
    Debug,
    Info,
    Warn,
    Error,
}

impl LogLevel {
    /// Place of the level in the order of severity.
    pub open spec fn rank(self) -> int {
        match self {
            LogLevel::Trace => 0,
            LogLevel::Debug => 1,
            LogLevel::Info => 2,
            LogLevel::Warn => 3,
            LogLevel::Error => 4,
        }
    }

    /// The level that a lowercase name stands for; unknown names read as `Info`.
    pub open spec fn of_name(l: Seq<char>) -> LogLevel {
        if l == "trace"@ {
            LogLevel::Trace
        } else if l == "debug"@ {
            LogLevel::Debug
        } else if l == "warn"@ || l == "warning"@ {
            LogLevel::Warn
        } else if l == "error"@ {
            LogLevel::Error
        } else {
            LogLevel::Info
        }
    }

    /// Parses a level name, ignoring case.
    pub fn from_str(s: &str) -> (r: LogLevel)
        ensures
            r == LogLevel::of_name(lower_of(s@)),
    {
        let l = lowercase(s);
        LogLevel::from_lowercase(l.as_str())
    }

    /// The level that an already lowercased name stands for.
    pub fn from_lowercase(l: &str) -> (r: LogLevel)
        ensures
            r == LogLevel::of_name(l@),
    {
        if str_eq(l, "trace") {
            LogLevel::Trace
        } else if str_eq(l, "debug") {
            LogLevel::Debug
        } else if str_eq(l, "warn") || str_eq(l, "warning") {
            LogLevel::Warn
        } else if str_eq(l, "error") {
            LogLevel::Error
        } else {
            LogLevel::Info
        }
    }

    fn rank_of(&self) -> (r: u8)
        ensures
            r as int == self.rank(),
    {
        match self {
            LogLevel::Trace => 0,
            LogLevel::Debug => 1,
            LogLevel::Info => 2,
            LogLevel::Warn => 3,
            LogLevel::Error => 4,
        }
    }
}

/// Something that receives log entries.
pub trait Observer {
    fn name(&self) -> &str;
}

/// An observer that drops everything.
pub struct NoopObserver;

impl Observer for NoopObserver {
    fn name(&self) -> &str {
        "noop"
    }
}

/// An observer that logs entries at or above a minimum level.
pub struct LogObserver {
    pub min_level: LogLevel,
}

impl LogObserver {
    pub fn new(min_level: LogLevel) -> (r: Self)
        ensures
            r.min_level == min_level,
    {
        LogObserver { min_level }
    }

    /// Whether an entry at `level` is logged.
    pub fn should_log(&self, level: &LogLevel) -> (r: bool)
        ensures
            r == (level.rank() >= self.min_level.rank()),
    {
        level.rank_of() >= self.min_level.rank_of()
    }
}

impl Observer for LogObserver {
    fn name(&self) -> &str {
        "log"
    }
}

} // verus!
