//! What a logger decides: which level a name stands for, whether a message of some
//! level is let through, and how a message is written out.

use vstd::prelude::*;
use vstd::string::StringExecFns;
use crate::text::{append_padded, pad_left, same_text};

verus! {

/// How much a message matters, the gravest first.
#[derive(Debug, Clone, Copy, PartialEq, Eq, Structural)]
pub enum Level {
    Error,
    Warn,
    Info,
    Debug,
    Trace,
}

/// The place of a level among the five, the gravest first.
pub open spec fn rank(level: Level) -> int {
    match level {
        Level::Error => 1,
        Level::Warn => 2,
        Level::Info => 3,
        Level::Debug => 4,
        Level::Trace => 5,
    }
}

/// The level that a configured name asks for. `off` asks for no logger at all; a
/// name that is none of the five levels asks for errors only.
pub open spec fn level_of(name: Seq<char>) -> Option<Level> {
    if name == "off"@ {
        None
    } else if name == "trace"@ {
        Some(Level::Trace)
    } else if name == "info"@ {
        Some(Level::Info)
    } else if name == "debug"@ {
        Some(Level::Debug)
    } else if name == "warn"@ {
        Some(Level::Warn)
    } else {
        Some(Level::Error)
    }
}

/// The name of a level as it stands in a message.
pub open spec fn level_name(level: Level) -> Seq<char> {
    match level {
        Level::Error => "ERROR"@,
        Level::Warn => "WARN"@,
        Level::Info => "INFO"@,
        Level::Debug => "DEBUG"@,
        Level::Trace => "TRACE"@,
    }
}

/// A message as it is written out: the level in a field of 5, the place it comes
/// from, and the message itself.
pub open spec fn log_line(level: Level, target: Seq<char>, message: Seq<char>) -> Seq<char> {
    "["@ + pad_left(level_name(level), 5) + "@"@ + target + "] "@ + message
}

impl Level {
    /// The level that a configured name asks for, or `None` for `off`.
    pub fn parse(name: &str) -> (level: Option<Level>)
        ensures
            level == level_of(name@),
    {
        if same_text(name, "off") {
            None
        } else if same_text(name, "trace") {
            Some(Level::Trace)
        } else if same_text(name, "info") {
            Some(Level::Info)
        } else if same_text(name, "debug") {
            Some(Level::Debug)
        } else if same_text(name, "warn") {
            Some(Level::Warn)
        } else {
            Some(Level::Error)
        }
    }

    /// The place of this level among the five, the gravest first.
    pub fn rank(self) -> (r: u8)
        ensures
            r == rank(self),
    {
        match self {
            Level::Error => 1,
            Level::Warn => 2,
            Level::Info => 3,
            Level::Debug => 4,
            Level::Trace => 5,
        }
    }

    /// Whether a logger set to `self` lets a message of the level `level` through:
    /// it does if the message is at least as grave as the logger's own level.
    pub fn enabled(self, level: Level) -> (r: bool)
        ensures
            r == (rank(level) <= rank(self)),
    {
        level.rank() <= self.rank()
    }

    /// The name of this level as it stands in a message.
    pub fn name(self) -> (word: &'static str)
        ensures
            word@ == level_name(self),
    {
        match self {
            Level::Error => "ERROR",
            Level::Warn => "WARN",
            Level::Info => "INFO",
            Level::Debug => "DEBUG",
            Level::Trace => "TRACE",
        }
    }

    /// A message of this level as it is written out.
    pub fn line(self, target: &str, message: &str) -> (out: String)
        ensures
            out@ == log_line(self, target@, message@),
    {
        let mut out = String::from_str("[");
        append_padded(&mut out, self.name(), 5);
        out.append("@");
        out.append(target);
        out.append("] ");
        out.append(message);
        out
    }
}

} // verus!
