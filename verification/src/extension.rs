//! An entry of the list in its wider form, with 32-bit counters.

use vstd::prelude::*;
use vstd::string::StringExecFns;
use crate::extra::ErrorStatus;
use crate::text::{
    append_decimal, append_padded, chars_of, decimal, decimal_text, pad_left, parse_unsigned,
    range_is, read_unsigned,
};

verus! {

/// How far the viewing of a title has come.
#[derive(Debug, Clone, Copy, PartialEq, Eq, Structural)]
pub enum ListStatus {
    Error,
    Complete,
    Drop,
    Plan,
    Watch,
    Hold,
}

/// The number of parts of a title.
#[derive(Debug, Clone, Copy, PartialEq, Eq, Structural)]
pub enum ShowFormat {
    /// The title is still running.
    Ongoing,
    /// The title ended with this many parts.
    Finished(u32),
}

/// One entry of the list.
#[derive(Debug, Clone, PartialEq, Eq)]
pub struct Database {
    pub name: String,
    pub status: ListStatus,
    pub current: u32,
    pub maximum: ShowFormat,
    pub score: u8,
}

/// The word a status is shown as.
pub open spec fn list_status_name(status: ListStatus) -> Seq<char> {
    match status {
        ListStatus::Complete => "complete"@,
        ListStatus::Drop => "drop"@,
        ListStatus::Plan => "plan"@,
        ListStatus::Watch => "watch"@,
        ListStatus::Hold => "hold"@,
        ListStatus::Error => "<error>"@,
    }
}

/// The text a number of parts is shown as.
pub open spec fn show_format_text(format: ShowFormat) -> Seq<char> {
    match format {
        ShowFormat::Ongoing => "ongoing"@,
        ShowFormat::Finished(max) => decimal(max as nat),
    }
}

/// The number of parts that a text stands for: `?` for a running title, else a
/// number of at most 32 bits.
pub open spec fn show_format_of(s: Seq<char>) -> Option<ShowFormat> {
    if s == "?"@ {
        Some(ShowFormat::Ongoing)
    } else {
        match parse_unsigned(s, u32::MAX as nat) {
            Some(value) => Some(ShowFormat::Finished(value as u32)),
            None => None,
        }
    }
}

/// An entry as one line: the name in a field of 16, the progress in a field of 2.
pub open spec fn database_text(
    name: Seq<char>,
    status: ListStatus,
    current: u32,
    maximum: ShowFormat,
    score: u8,
) -> Seq<char> {
    "'"@ + pad_left(name, 16) + "', status: "@ + list_status_name(status) + ", progress: "@
        + pad_left(decimal(current as nat), 2) + " / "@ + show_format_text(maximum)
        + ", score: "@ + decimal(score as nat)
}

impl ListStatus {
    /// The word this status is shown as.
    pub fn name(self) -> (word: &'static str)
        ensures
            word@ == list_status_name(self),
    {
        match self {
            ListStatus::Complete => "complete",
            ListStatus::Drop => "drop",
            ListStatus::Plan => "plan",
            ListStatus::Watch => "watch",
            ListStatus::Hold => "hold",
            ListStatus::Error => "<error>",
        }
    }
}

impl ShowFormat {
    /// The text this number of parts is shown as.
    pub fn text(self) -> (out: String)
        ensures
            out@ == show_format_text(self),
    {
        match self {
            ShowFormat::Ongoing => String::from_str("ongoing"),
            ShowFormat::Finished(max) => decimal_text(max),
        }
    }
}

impl std::str::FromStr for ShowFormat {
    type Err = ErrorStatus;

    /// Reads `?` or a number of at most 32 bits; anything else is an `IntParseError`.
    fn from_str(s: &str) -> (format: Result<ShowFormat, ErrorStatus>)
        ensures
            format == match show_format_of(s@) {
                Some(f) => Ok::<ShowFormat, ErrorStatus>(f),
                None => Err(ErrorStatus::IntParseError),
            },
    {
        let chars = chars_of(s);
        assert(chars@.subrange(0, chars.len() as int) =~= s@);
        assert(chars@.skip(0) =~= s@);
        if range_is(&chars, 0, chars.len(), "?") {
            Ok(ShowFormat::Ongoing)
        } else {
            match read_unsigned(&chars, 0, u32::MAX) {
                Some(value) => Ok(ShowFormat::Finished(value)),
                None => Err(ErrorStatus::IntParseError),
            }
        }
    }
}

impl Database {
    /// This entry as one line.
    pub fn text(&self) -> (out: String)
        ensures
            out@ == database_text(self.name@, self.status, self.current, self.maximum, self.score),
    {
        let mut out = String::from_str("'");
        append_padded(&mut out, self.name.as_str(), 16);
        out.append("', status: ");
        out.append(self.status.name());
        out.append(", progress: ");
        let current = decimal_text(self.current);
        append_padded(&mut out, current.as_str(), 2);
        out.append(" / ");
        let maximum = self.maximum.text();
        out.append(maximum.as_str());
        out.append(", score: ");
        append_decimal(&mut out, self.score as u32);
        out
    }
}

} // verus!
