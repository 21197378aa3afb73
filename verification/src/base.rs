//! A tracked title and the text of its stored record.

use vstd::prelude::*;
use vstd::string::StringExecFns;
use crate::extra::ErrorStatus;
use crate::parser::{split, tokenize, SplitFormat};
use crate::text::{
    append_decimal, append_padded, chars_of, decimal, decimal_text, pad_left, parse_unsigned,
    range_is, read_unsigned, read_unsigned_in, str_views,
};

verus! {

/// How far the viewing of a title has come.
#[derive(Debug, Clone, Copy, PartialEq, Eq, Structural)]
pub enum Status {
    /// Seen to the end.
    Complete,
    /// Given up.
    Drop,
    /// Not started yet.
    Plan,
    /// Being watched now.
    Watch,
    /// Set aside for a while.
    Hold,
    /// Stands for a status word that could not be read. No command sets it.
    Error,
}

/// The number of parts that a title has.
#[derive(Debug, Clone, Copy, PartialEq, Eq, Structural)]
pub enum SeriesCounter {
    /// The title has this many parts.
    Value(u16),
    /// The title is still running: the number is not known yet.
    OnGoing,
}

/// One tracked title.
#[derive(Debug, Clone, PartialEq, Eq)]
pub struct Item {
    /// Title.
    pub name: String,
    /// Viewing status.
    pub status: Status,
    /// Parts watched so far.
    pub progress: u16,
    /// Parts in all, where known.
    pub maximum: SeriesCounter,
    /// Score given to the title.
    pub rate: u8,
}

/// An item with its name as a sequence of characters.
#[verifier::ext_equal]
pub struct ItemView {
    pub name: Seq<char>,
    pub status: Status,
    pub progress: u16,
    pub maximum: SeriesCounter,
    pub rate: u8,
}

impl View for Item {
    type V = ItemView;

    open spec fn view(&self) -> ItemView {
        ItemView {
            name: self.name@,
            status: self.status,
            progress: self.progress,
            maximum: self.maximum,
            rate: self.rate,
        }
    }
}

/// The status that a word or a letter stands for; any other text gives `Error`.
pub open spec fn status_of(s: Seq<char>) -> Status {
    if s == "complete"@ || s == "c"@ {
        Status::Complete
    } else if s == "drop"@ || s == "d"@ {
        Status::Drop
    } else if s == "plan"@ || s == "p"@ {
        Status::Plan
    } else if s == "watch"@ || s == "w"@ {
        Status::Watch
    } else if s == "hold"@ || s == "h"@ {
        Status::Hold
    } else {
        Status::Error
    }
}

/// The word a status is stored and shown as.
pub open spec fn status_name(status: Status) -> Seq<char> {
    match status {
        Status::Complete => "complete"@,
        Status::Drop => "drop"@,
        Status::Plan => "plan"@,
        Status::Watch => "watch"@,
        Status::Hold => "hold"@,
        Status::Error => "<error>"@,
    }
}

/// The name of a status as a debugging dump spells it.
pub open spec fn status_debug(status: Status) -> Seq<char> {
    match status {
        Status::Complete => "Complete"@,
        Status::Drop => "Drop"@,
        Status::Plan => "Plan"@,
        Status::Watch => "Watch"@,
        Status::Hold => "Hold"@,
        Status::Error => "Error"@,
    }
}

/// The counter that a text stands for: `?` for a running title, else a number
/// of at most 16 bits.
pub open spec fn counter_of(s: Seq<char>) -> Option<SeriesCounter> {
    if s == "?"@ {
        Some(SeriesCounter::OnGoing)
    } else {
        match parse_unsigned(s, u16::MAX as nat) {
            Some(value) => Some(SeriesCounter::Value(value as u16)),
            None => None,
        }
    }
}

/// The text a counter is stored and shown as.
pub open spec fn counter_text(counter: SeriesCounter) -> Seq<char> {
    match counter {
        SeriesCounter::Value(value) => decimal(value as nat),
        SeriesCounter::OnGoing => "?"@,
    }
}

/// A counter as a debugging dump spells it.
pub open spec fn counter_debug(counter: SeriesCounter) -> Seq<char> {
    match counter {
        SeriesCounter::Value(value) => "Value("@ + decimal(value as nat) + ")"@,
        SeriesCounter::OnGoing => "OnGoing"@,
    }
}

/// The number a counter counts to; a running title counts to nothing.
pub open spec fn counter_value(counter: SeriesCounter) -> u16 {
    match counter {
        SeriesCounter::Value(value) => value,
        SeriesCounter::OnGoing => 0,
    }
}

/// Position of the first `c` in `s`, or the length of `s` where it has none.
pub open spec fn first_index(s: Seq<char>, c: char) -> nat
    decreases s.len(),
{
    if s.len() == 0 || s[0] == c {
        0
    } else {
        1 + first_index(s.skip(1), c)
    }
}

/// The item that a stored line describes, or `None` where the line is malformed.
///
/// The line is split by the record grammar into six fields or more: the name, the
/// status word, a label, `watched/total`, a label and the score. Further fields, and
/// whatever follows a second slash in the fourth, are ignored.
pub open spec fn parse_record(line: Seq<char>) -> Option<ItemView> {
    let raw = tokenize(line, SplitFormat::Anime);
    if raw.len() < 6 {
        None
    } else {
        let field = raw[3];
        let cut = first_index(field, '/') as int;
        if cut >= field.len() {
            None
        } else {
            let after = field.skip(cut + 1);
            let total = after.take(first_index(after, '/') as int);
            match (
                parse_unsigned(field.take(cut), u16::MAX as nat),
                counter_of(total),
                parse_unsigned(raw[5], u8::MAX as nat),
            ) {
                (Some(progress), Some(maximum), Some(rate)) => Some(
                    ItemView {
                        name: raw[0],
                        status: status_of(raw[1]),
                        progress: progress as u16,
                        maximum,
                        rate: rate as u8,
                    },
                ),
                _ => None,
            }
        }
    }
}

/// A new entry as `append` makes it: planned, nothing watched, still running, no score.
pub open spec fn empty_item(name: Seq<char>) -> ItemView {
    ItemView {
        name,
        status: Status::Plan,
        progress: 0,
        maximum: SeriesCounter::OnGoing,
        rate: 0,
    }
}

/// An item as a debugging line: the name in a field of 16, the progress in a field of 2.
pub open spec fn item_text(item: ItemView) -> Seq<char> {
    "'"@ + pad_left(item.name, 16) + "', status: "@ + status_debug(item.status)
        + ", progress: "@ + pad_left(decimal(item.progress as nat), 2) + " / "@ + counter_debug(
        item.maximum,
    ) + ", rate: "@ + decimal(item.rate as nat)
}

/// An item whose progress has just moved: once the progress reaches a known total,
/// the item is complete and the progress is cut down to the total. Below the total,
/// and for a running title, nothing changes.
pub open spec fn settled(item: ItemView) -> ItemView {
    match item.maximum {
        SeriesCounter::Value(max) => if item.progress >= max {
            ItemView { status: Status::Complete, progress: max, ..item }
        } else {
            item
        },
        SeriesCounter::OnGoing => item,
    }
}

/// An item whose progress or total has just been set: with a known total the status
/// follows from the progress, complete at the total and watching below it. A running
/// title keeps its status.
pub open spec fn rederived(item: ItemView) -> ItemView {
    match item.maximum {
        SeriesCounter::Value(max) => if item.progress >= max {
            ItemView { status: Status::Complete, progress: max, ..item }
        } else {
            ItemView { status: Status::Watch, ..item }
        },
        SeriesCounter::OnGoing => item,
    }
}

/// `item` after its progress has been set to `value`.
pub open spec fn with_progress(item: ItemView, value: u16) -> ItemView {
    rederived(ItemView { progress: value, ..item })
}

/// `item` after its total has been set to `counter`.
pub open spec fn with_maximum(item: ItemView, counter: SeriesCounter) -> ItemView {
    rederived(ItemView { maximum: counter, ..item })
}

/// `item` after its status has been set to `status`: completing an item of known
/// total moves its progress to the total; any other status leaves the progress.
pub open spec fn with_status(item: ItemView, status: Status) -> ItemView {
    match item.maximum {
        SeriesCounter::Value(max) => if status == Status::Complete {
            ItemView { status, progress: max, ..item }
        } else {
            ItemView { status, ..item }
        },
        SeriesCounter::OnGoing => ItemView { status, ..item },
    }
}

/// `item` after its score has been set to `value`.
pub open spec fn with_rate(item: ItemView, value: u8) -> ItemView {
    ItemView { rate: value, ..item }
}

/// `item` after it has been renamed.
pub open spec fn with_name(item: ItemView, name: Seq<char>) -> ItemView {
    ItemView { name, ..item }
}

/// `item` after `value` has been added to its progress; the sum stops at the
/// greatest 16-bit number.
pub open spec fn incremented(item: ItemView, value: u16) -> ItemView {
    settled(ItemView { progress: item.progress.saturating_add(value), ..item })
}

/// `item` after `value` has been taken from its progress; the difference stops at 0.
pub open spec fn decremented(item: ItemView, value: u16) -> ItemView {
    settled(ItemView { progress: item.progress.saturating_sub(value), ..item })
}

/// The first `c` at or after `from` and before `to`, or `to` where there is none.
pub fn find_char(chars: &Vec<char>, from: usize, to: usize, c: char) -> (at: usize)
    requires
        from <= to <= chars.len(),
    ensures
        at == from + first_index(chars@.subrange(from as int, to as int), c),
        from <= at <= to,
{
    let mut i: usize = from;
    while i < to
        invariant
            from <= i <= to <= chars.len(),
            first_index(chars@.subrange(from as int, to as int), c) == (i - from) + first_index(
                chars@.subrange(i as int, to as int),
                c,
            ),
        decreases to - i,
    {
        let ghost here = chars@.subrange(i as int, to as int);
        assert(here[0] == chars@[i as int]);
        if chars[i] == c {
            return i;
        }
        assert(here.skip(1) =~= chars@.subrange(i + 1, to as int));
        i = i + 1;
    }
    i
}

/// Reads the word or letter at `chars[from..]` as a status.
pub fn status_at(chars: &Vec<char>, from: usize) -> (status: Status)
    requires
        from <= chars.len(),
    ensures
        status == status_of(chars@.skip(from as int)),
{
    let to = chars.len();
    assert(chars@.skip(from as int) =~= chars@.subrange(from as int, to as int));
    if range_is(chars, from, to, "complete") || range_is(chars, from, to, "c") {
        Status::Complete
    } else if range_is(chars, from, to, "drop") || range_is(chars, from, to, "d") {
        Status::Drop
    } else if range_is(chars, from, to, "plan") || range_is(chars, from, to, "p") {
        Status::Plan
    } else if range_is(chars, from, to, "watch") || range_is(chars, from, to, "w") {
        Status::Watch
    } else if range_is(chars, from, to, "hold") || range_is(chars, from, to, "h") {
        Status::Hold
    } else {
        Status::Error
    }
}

/// Reads `chars[from..to]` as a counter.
pub fn counter_in(chars: &Vec<char>, from: usize, to: usize) -> (counter: Option<SeriesCounter>)
    requires
        from <= to <= chars.len(),
    ensures
        counter == counter_of(chars@.subrange(from as int, to as int)),
{
    if range_is(chars, from, to, "?") {
        Some(SeriesCounter::OnGoing)
    } else {
        match read_unsigned_in(chars, from, to, 65535) {
            Some(value) => Some(SeriesCounter::Value(value as u16)),
            None => None,
        }
    }
}

impl<'a> From<&'a str> for Status {
    /// Reads a status word or its first letter; any other text gives `Error`.
    fn from(s: &'a str) -> (status: Status) {
        let chars = chars_of(s);
        assert(chars@.skip(0) =~= s@);
        status_at(&chars, 0)
    }
}

impl<'a> vstd::std_specs::convert::FromSpecImpl<&'a str> for Status {
    open spec fn obeys_from_spec() -> bool {
        true
    }

    open spec fn from_spec(s: &'a str) -> Status {
        status_of(s@)
    }
}

impl std::str::FromStr for SeriesCounter {
    type Err = ErrorStatus;

    /// Reads `?` or a number of at most 16 bits; anything else is an `IntParseError`.
    fn from_str(s: &str) -> (counter: Result<SeriesCounter, ErrorStatus>)
        ensures
            counter == match counter_of(s@) {
                Some(c) => Ok::<SeriesCounter, ErrorStatus>(c),
                None => Err(ErrorStatus::IntParseError),
            },
    {
        let chars = chars_of(s);
        assert(chars@.subrange(0, chars.len() as int) =~= s@);
        match counter_in(&chars, 0, chars.len()) {
            Some(c) => Ok(c),
            None => Err(ErrorStatus::IntParseError),
        }
    }
}

impl Status {
    /// The word this status is stored and shown as.
    pub fn name(self) -> (word: &'static str)
        ensures
            word@ == status_name(self),
    {
        match self {
            Status::Complete => "complete",
            Status::Drop => "drop",
            Status::Plan => "plan",
            Status::Watch => "watch",
            Status::Hold => "hold",
            Status::Error => "<error>",
        }
    }

    /// The name of this status as a debugging dump spells it.
    pub fn debug_name(self) -> (word: &'static str)
        ensures
            word@ == status_debug(self),
    {
        match self {
            Status::Complete => "Complete",
            Status::Drop => "Drop",
            Status::Plan => "Plan",
            Status::Watch => "Watch",
            Status::Hold => "Hold",
            Status::Error => "Error",
        }
    }
}

impl SeriesCounter {
    /// The number this counter counts to, and 0 for a running title.
    pub fn get(self) -> (value: u16)
        ensures
            value == counter_value(self),
    {
        match self {
            SeriesCounter::Value(value) => value,
            SeriesCounter::OnGoing => 0,
        }
    }

    /// The text this counter is stored and shown as.
    pub fn text(self) -> (out: String)
        ensures
            out@ == counter_text(self),
    {
        match self {
            SeriesCounter::Value(value) => decimal_text(value as u32),
            SeriesCounter::OnGoing => String::from_str("?"),
        }
    }

    /// This counter as a debugging dump spells it.
    pub fn debug_text(self) -> (out: String)
        ensures
            out@ == counter_debug(self),
    {
        match self {
            SeriesCounter::Value(value) => {
                let mut out = String::from_str("Value(");
                append_decimal(&mut out, value as u32);
                out.append(")");
                out
            },
            SeriesCounter::OnGoing => String::from_str("OnGoing"),
        }
    }
}

impl Item {
    /// Reads a stored line, or gives `None` where the line is malformed.
    pub fn parse(text: &str) -> (item: Option<Item>)
        ensures
            match item {
                Some(it) => parse_record(text@) == Some(it@),
                None => parse_record(text@) is None,
            },
    {
        let raw = split(text, SplitFormat::Anime);
        let ghost fields = tokenize(text@, SplitFormat::Anime);
        assert(fields.len() == raw@.len());
        if raw.len() < 6 {
            return None;
        }
        assert(raw@[0]@ == str_views(raw@)[0]);
        assert(raw@[1]@ == str_views(raw@)[1]);
        assert(raw@[3]@ == str_views(raw@)[3]);
        assert(raw@[5]@ == str_views(raw@)[5]);
        let field = chars_of(raw[3]);
        let end = field.len();
        assert(field@.subrange(0, end as int) =~= field@);
        let cut = find_char(&field, 0, end, '/');
        if cut >= end {
            return None;
        }
        let stop = find_char(&field, cut + 1, end, '/');
        proof {
            let after = field@.skip(cut + 1);
            assert(after =~= field@.subrange(cut + 1, end as int));
            assert(after.take(first_index(after, '/') as int) =~= field@.subrange(
                cut + 1,
                stop as int,
            ));
            assert(field@.take(cut as int) =~= field@.subrange(0, cut as int));
        }
        let score = chars_of(raw[5]);
        assert(score@.skip(0) =~= score@);
        let progress = read_unsigned_in(&field, 0, cut, 65535);
        let maximum = counter_in(&field, cut + 1, stop);
        let rate = read_unsigned(&score, 0, 255);
        match (progress, maximum, rate) {
            (Some(progress), Some(maximum), Some(rate)) => Some(
                Item {
                    name: raw[0].to_owned(),
                    status: Status::from(raw[1]),
                    progress: progress as u16,
                    maximum,
                    rate: rate as u8,
                },
            ),
            _ => None,
        }
    }

    /// Reads a stored line that is known to be well formed.
    pub fn new(text: &str) -> (item: Item)
        requires
            parse_record(text@) is Some,
        ensures
            Some(item@) == parse_record(text@),
    {
        Item::parse(text).unwrap()
    }

    /// A new entry: planned, nothing watched, still running, no score.
    pub fn empty(name: &str) -> (item: Item)
        ensures
            item@ == empty_item(name@),
    {
        Item {
            name: name.to_owned(),
            status: Status::Plan,
            progress: 0,
            maximum: SeriesCounter::OnGoing,
            rate: 0,
        }
    }

    /// This item as a debugging line.
    pub fn text(&self) -> (out: String)
        ensures
            out@ == item_text(self@),
    {
        let mut out = String::from_str("'");
        append_padded(&mut out, self.name.as_str(), 16);
        out.append("', status: ");
        out.append(self.status.debug_name());
        out.append(", progress: ");
        let progress = decimal_text(self.progress as u32);
        append_padded(&mut out, progress.as_str(), 2);
        out.append(" / ");
        let maximum = self.maximum.debug_text();
        out.append(maximum.as_str());
        out.append(", rate: ");
        append_decimal(&mut out, self.rate as u32);
        out
    }
}

} // verus!
