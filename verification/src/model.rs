//! An entry of the list in its plain form, with the number of parts always known.

use vstd::prelude::*;
use crate::text::{chars_of, range_is};

verus! {

/// How far the viewing of a title has come.
#[derive(Debug, Clone, Copy, PartialEq, Eq, Structural)]
pub enum Status {
    /// Viewed.
    Complete,
    /// Dropped from viewing.
    Drop,
    /// Planned to watch.
    Plan,
    /// Now watching.
    Watch,
    /// Viewing on hold.
    Hold,
}

/// One entry of the list.
#[derive(Debug, Clone, PartialEq, Eq)]
pub struct Item {
    /// Title.
    pub name: String,
    /// Viewing status.
    pub status: Status,
    /// Number of episodes watched.
    pub watched: u16,
    /// Total number of episodes.
    pub episodes: u16,
    /// Title rating.
    pub rate: u8,
}

/// The status that a word or a letter stands for; any other text gives `Plan`.
pub open spec fn status_or_plan(s: Seq<char>) -> Status {
    if s == "complete"@ || s == "c"@ {
        Status::Complete
    } else if s == "drop"@ || s == "d"@ {
        Status::Drop
    } else if s == "watch"@ || s == "w"@ {
        Status::Watch
    } else if s == "hold"@ || s == "h"@ {
        Status::Hold
    } else {
        Status::Plan
    }
}

impl Default for Status {
    /// A title is planned until something else is said.
    fn default() -> (status: Status)
        ensures
            status == Status::Plan,
    {
        Status::Plan
    }
}

impl<'a> From<&'a str> for Status {
    /// Reads a status word or its first letter; any other text gives `Plan`.
    fn from(value: &'a str) -> (status: Status) {
        let chars = chars_of(value);
        let to = chars.len();
        assert(chars@.subrange(0, to as int) =~= value@);
        if range_is(&chars, 0, to, "complete") || range_is(&chars, 0, to, "c") {
            Status::Complete
        } else if range_is(&chars, 0, to, "drop") || range_is(&chars, 0, to, "d") {
            Status::Drop
        } else if range_is(&chars, 0, to, "watch") || range_is(&chars, 0, to, "w") {
            Status::Watch
        } else if range_is(&chars, 0, to, "hold") || range_is(&chars, 0, to, "h") {
            Status::Hold
        } else {
            Status::Plan
        }
    }
}

impl<'a> vstd::std_specs::convert::FromSpecImpl<&'a str> for Status {
    open spec fn obeys_from_spec() -> bool {
        true
    }

    open spec fn from_spec(value: &'a str) -> Status {
        status_or_plan(value@)
    }
}

} // verus!
