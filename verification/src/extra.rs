//! Commands and how a token of the command line is resolved into one.

use vstd::prelude::*;
use crate::base::{counter_in, counter_of, status_at, status_of, SeriesCounter, Status};
use crate::parser::Splitter;
use crate::text::{chars_of, parse_unsigned, read_unsigned};

verus! {

/// A value that items are searched or filtered by.
#[derive(Debug, Clone, Copy, PartialEq, Eq, Structural)]
pub enum ParamType {
    /// The viewing status.
    Status(Status),
    /// The number of parts watched.
    Progress(u16),
    /// The number of parts in all.
    Maximum(SeriesCounter),
    /// The score.
    Rate(u8),
}

/// Why a token could not be resolved into a command.
#[derive(Debug, Clone, Copy, PartialEq, Eq, Structural)]
pub enum ErrorStatus {
    /// A number was expected and the text is not one that fits.
    IntParseError,
    /// The command takes the next token as its argument, and there is none.
    EmptyFieldError,
    /// The token begins like no command.
    UnknownCommand,
}

/// One resolved command.
#[derive(Debug, Clone, PartialEq, Eq)]
pub enum ExecCmd {
    /// Add to the progress of the selected items.
    Increment(u16),
    /// Take from the progress of the selected items.
    Decrement(u16),
    /// Add a new item of this name and select it.
    Append(String),
    /// Remove the selected items.
    Delete,
    /// List every item.
    Info,
    /// Select the items whose name matches this pattern.
    Find(String),
    /// Select the items that hold this value.
    FindParam(ParamType),
    /// Keep of the selection the items that hold this value.
    FilterParam(ParamType),
    /// Set the number of parts of the selected items.
    Maximum(SeriesCounter),
    /// Rename the selected items.
    Rename(String),
    /// Set the progress of the selected items.
    Progress(u16),
    /// Set the status of the selected items.
    Status(Status),
    /// Set the score of the selected items.
    Rate(u8),
    /// Store the list.
    Write,
    /// The token was not a command.
    Error(ErrorStatus),
}

/// A command with its texts as sequences of characters.
#[verifier::ext_equal]
pub enum Command {
    Increment(u16),
    Decrement(u16),
    Append(Seq<char>),
    Delete,
    Info,
    Find(Seq<char>),
    FindParam(ParamType),
    FilterParam(ParamType),
    Maximum(SeriesCounter),
    Rename(Seq<char>),
    Progress(u16),
    Status(Status),
    Rate(u8),
    Write,
    Error(ErrorStatus),
}

impl View for ExecCmd {
    type V = Command;

    open spec fn view(&self) -> Command {
        match *self {
            ExecCmd::Increment(n) => Command::Increment(n),
            ExecCmd::Decrement(n) => Command::Decrement(n),
            ExecCmd::Append(name) => Command::Append(name@),
            ExecCmd::Delete => Command::Delete,
            ExecCmd::Info => Command::Info,
            ExecCmd::Find(pattern) => Command::Find(pattern@),
            ExecCmd::FindParam(param) => Command::FindParam(param),
            ExecCmd::FilterParam(param) => Command::FilterParam(param),
            ExecCmd::Maximum(counter) => Command::Maximum(counter),
            ExecCmd::Rename(name) => Command::Rename(name@),
            ExecCmd::Progress(n) => Command::Progress(n),
            ExecCmd::Status(status) => Command::Status(status),
            ExecCmd::Rate(n) => Command::Rate(n),
            ExecCmd::Write => Command::Write,
            ExecCmd::Error(kind) => Command::Error(kind),
        }
    }
}

/// The first of a list of tokens, if there is one.
pub open spec fn first_of(tokens: Seq<Seq<char>>) -> Option<Seq<char>> {
    if tokens.len() > 0 {
        Some(tokens[0])
    } else {
        None
    }
}

/// Whether the command that `cmd` spells takes the token after it as its argument:
/// `a`, a name search (`f` alone) and `sn` do.
pub open spec fn takes_argument(cmd: Seq<char>) -> bool {
    cmd.len() > 0 && (cmd[0] == 'a' || (cmd[0] == 'f' && cmd.len() == 1) || (cmd[0] == 's'
        && cmd.len() >= 2 && cmd[1] == 'n'))
}

/// The tokens that are left once `cmd` has been resolved with `tokens` after it.
pub open spec fn rest_after(cmd: Seq<char>, tokens: Seq<Seq<char>>) -> Seq<Seq<char>> {
    if takes_argument(cmd) && tokens.len() > 0 {
        tokens.drop_first()
    } else {
        tokens
    }
}

/// A number of at most 16 bits.
pub open spec fn number16(s: Seq<char>) -> Option<u16> {
    match parse_unsigned(s, u16::MAX as nat) {
        Some(value) => Some(value as u16),
        None => None,
    }
}

/// A number of at most 8 bits.
pub open spec fn number8(s: Seq<char>) -> Option<u8> {
    match parse_unsigned(s, u8::MAX as nat) {
        Some(value) => Some(value as u8),
        None => None,
    }
}

/// The value that a search or a filter names: `kind` is the letter of the field,
/// `value` the text after it.
pub open spec fn param_of(kind: char, value: Seq<char>) -> Result<ParamType, ErrorStatus> {
    if kind == 's' {
        Ok(ParamType::Status(status_of(value)))
    } else if kind == 'p' {
        match number16(value) {
            Some(n) => Ok(ParamType::Progress(n)),
            None => Err(ErrorStatus::IntParseError),
        }
    } else if kind == 'm' {
        match counter_of(value) {
            Some(counter) => Ok(ParamType::Maximum(counter)),
            None => Err(ErrorStatus::IntParseError),
        }
    } else if kind == 'r' {
        match number8(value) {
            Some(n) => Ok(ParamType::Rate(n)),
            None => Err(ErrorStatus::IntParseError),
        }
    } else {
        Err(ErrorStatus::UnknownCommand)
    }
}

/// The amount of an increment or a decrement: 1 where none is written.
pub open spec fn amount_of(cmd: Seq<char>) -> Option<u16> {
    if cmd.len() <= 1 {
        Some(1u16)
    } else {
        number16(cmd.skip(1))
    }
}

/// A command that sets a field: `kind` is the letter of the field, `value` the text
/// after it, `next` the token that follows the command.
pub open spec fn setter_of(kind: char, value: Seq<char>, next: Option<Seq<char>>) -> Command {
    if kind == 'm' {
        match counter_of(value) {
            Some(counter) => Command::Maximum(counter),
            None => Command::Error(ErrorStatus::IntParseError),
        }
    } else if kind == 'n' {
        match next {
            Some(name) => Command::Rename(name),
            None => Command::Error(ErrorStatus::EmptyFieldError),
        }
    } else if kind == 'p' {
        match number16(value) {
            Some(n) => Command::Progress(n),
            None => Command::Error(ErrorStatus::IntParseError),
        }
    } else if kind == 'r' {
        match number8(value) {
            Some(n) => Command::Rate(n),
            None => Command::Error(ErrorStatus::IntParseError),
        }
    } else if kind == 's' {
        Command::Status(status_of(value))
    } else {
        Command::Error(ErrorStatus::UnknownCommand)
    }
}

/// The command that the token `cmd` stands for, where `next` is the token after it.
///
/// The first character picks the command; for `f`, `x` and `s` the second picks the
/// field. What follows is the value, written in the token itself, and it may be
/// empty: an empty number is an `IntParseError`, an empty status word is the status
/// `Error`. Only `f` alone searches by name, with the next token as its pattern; `x`
/// and `s` alone are no commands. `d`, `i` and `w` take no value, and whatever
/// follows the letter is ignored.
pub open spec fn resolve(cmd: Seq<char>, next: Option<Seq<char>>) -> Command {
    if cmd.len() == 0 {
        Command::Error(ErrorStatus::UnknownCommand)
    } else if cmd[0] == '+' {
        match amount_of(cmd) {
            Some(n) => Command::Increment(n),
            None => Command::Error(ErrorStatus::IntParseError),
        }
    } else if cmd[0] == '-' {
        match amount_of(cmd) {
            Some(n) => Command::Decrement(n),
            None => Command::Error(ErrorStatus::IntParseError),
        }
    } else if cmd[0] == 'a' {
        match next {
            Some(name) => Command::Append(name),
            None => Command::Error(ErrorStatus::EmptyFieldError),
        }
    } else if cmd[0] == 'd' {
        Command::Delete
    } else if cmd[0] == 'i' {
        Command::Info
    } else if cmd[0] == 'f' {
        if cmd.len() >= 2 {
            match param_of(cmd[1], cmd.skip(2)) {
                Ok(param) => Command::FindParam(param),
                Err(kind) => Command::Error(kind),
            }
        } else {
            match next {
                Some(pattern) => Command::Find(pattern),
                None => Command::Error(ErrorStatus::EmptyFieldError),
            }
        }
    } else if cmd[0] == 's' {
        if cmd.len() >= 2 {
            setter_of(cmd[1], cmd.skip(2), next)
        } else {
            Command::Error(ErrorStatus::UnknownCommand)
        }
    } else if cmd[0] == 'w' {
        Command::Write
    } else if cmd[0] == 'x' {
        if cmd.len() >= 2 {
            match param_of(cmd[1], cmd.skip(2)) {
                Ok(param) => Command::FilterParam(param),
                Err(kind) => Command::Error(kind),
            }
        } else {
            Command::Error(ErrorStatus::UnknownCommand)
        }
    } else {
        Command::Error(ErrorStatus::UnknownCommand)
    }
}

/// Reads `chars[from..]` as a number of at most 16 bits.
fn read16(chars: &Vec<char>, from: usize) -> (r: Option<u16>)
    requires
        from <= chars.len(),
    ensures
        r == number16(chars@.skip(from as int)),
{
    match read_unsigned(chars, from, 65535) {
        Some(value) => Some(value as u16),
        None => None,
    }
}

/// Reads `chars[from..]` as a number of at most 8 bits.
fn read8(chars: &Vec<char>, from: usize) -> (r: Option<u8>)
    requires
        from <= chars.len(),
    ensures
        r == number8(chars@.skip(from as int)),
{
    match read_unsigned(chars, from, 255) {
        Some(value) => Some(value as u8),
        None => None,
    }
}

/// Reads `chars[from..]` as a counter.
fn read_counter(chars: &Vec<char>, from: usize) -> (r: Option<SeriesCounter>)
    requires
        from <= chars.len(),
    ensures
        r == counter_of(chars@.skip(from as int)),
{
    assert(chars@.skip(from as int) =~= chars@.subrange(from as int, chars.len() as int));
    counter_in(chars, from, chars.len())
}

/// Reads the field letter and the value of a search or a filter.
fn read_param(chars: &Vec<char>) -> (r: Result<ParamType, ErrorStatus>)
    requires
        chars.len() >= 2,
    ensures
        r == param_of(chars@[1], chars@.skip(2)),
{
    let kind = chars[1];
    if kind == 's' {
        Ok(ParamType::Status(status_at(chars, 2)))
    } else if kind == 'p' {
        match read16(chars, 2) {
            Some(n) => Ok(ParamType::Progress(n)),
            None => Err(ErrorStatus::IntParseError),
        }
    } else if kind == 'm' {
        match read_counter(chars, 2) {
            Some(counter) => Ok(ParamType::Maximum(counter)),
            None => Err(ErrorStatus::IntParseError),
        }
    } else if kind == 'r' {
        match read8(chars, 2) {
            Some(n) => Ok(ParamType::Rate(n)),
            None => Err(ErrorStatus::IntParseError),
        }
    } else {
        Err(ErrorStatus::UnknownCommand)
    }
}

/// Reads the amount of an increment or a decrement.
fn read_amount(chars: &Vec<char>) -> (r: Option<u16>)
    requires
        chars.len() > 0,
    ensures
        r == amount_of(chars@),
{
    if chars.len() == 1 {
        Some(1)
    } else {
        read16(chars, 1)
    }
}

/// Takes the next token as an argument.
fn argument(iter: &mut Splitter<'_>) -> (r: Option<String>)
    ensures
        final(iter).format() == old(iter).format(),
        match r {
            Some(s) => first_of(old(iter).remaining()) == Some(s@),
            None => first_of(old(iter).remaining()) is None,
        },
        final(iter).remaining() == if old(iter).remaining().len() > 0 {
            old(iter).remaining().drop_first()
        } else {
            old(iter).remaining()
        },
{
    match iter.next() {
        Some(token) => Some(token.to_owned()),
        None => {
            assert(final(iter).remaining() =~= old(iter).remaining());
            None
        },
    }
}

impl ExecCmd {
    /// Resolves the token `cmd` into a command. A command that takes an argument
    /// pulls the next token from `iter`; any other leaves `iter` as it is.
    pub fn get(cmd: &str, iter: &mut Splitter<'_>) -> (command: ExecCmd)
        ensures
            command@ == resolve(cmd@, first_of(old(iter).remaining())),
            final(iter).format() == old(iter).format(),
            final(iter).remaining() == rest_after(cmd@, old(iter).remaining()),
    {
        let chars = chars_of(cmd);
        if chars.len() == 0 {
            return ExecCmd::Error(ErrorStatus::UnknownCommand);
        }
        let head = chars[0];
        if head == '+' {
            match read_amount(&chars) {
                Some(n) => ExecCmd::Increment(n),
                None => ExecCmd::Error(ErrorStatus::IntParseError),
            }
        } else if head == '-' {
            match read_amount(&chars) {
                Some(n) => ExecCmd::Decrement(n),
                None => ExecCmd::Error(ErrorStatus::IntParseError),
            }
        } else if head == 'a' {
            match argument(iter) {
                Some(name) => ExecCmd::Append(name),
                None => ExecCmd::Error(ErrorStatus::EmptyFieldError),
            }
        } else if head == 'd' {
            ExecCmd::Delete
        } else if head == 'i' {
            ExecCmd::Info
        } else if head == 'f' {
            if chars.len() >= 2 {
                match read_param(&chars) {
                    Ok(param) => ExecCmd::FindParam(param),
                    Err(kind) => ExecCmd::Error(kind),
                }
            } else {
                match argument(iter) {
                    Some(pattern) => ExecCmd::Find(pattern),
                    None => ExecCmd::Error(ErrorStatus::EmptyFieldError),
                }
            }
        } else if head == 's' {
            if chars.len() >= 2 {
                let kind = chars[1];
                if kind == 'm' {
                    match read_counter(&chars, 2) {
                        Some(counter) => ExecCmd::Maximum(counter),
                        None => ExecCmd::Error(ErrorStatus::IntParseError),
                    }
                } else if kind == 'n' {
                    match argument(iter) {
                        Some(name) => ExecCmd::Rename(name),
                        None => ExecCmd::Error(ErrorStatus::EmptyFieldError),
                    }
                } else if kind == 'p' {
                    match read16(&chars, 2) {
                        Some(n) => ExecCmd::Progress(n),
                        None => ExecCmd::Error(ErrorStatus::IntParseError),
                    }
                } else if kind == 'r' {
                    match read8(&chars, 2) {
                        Some(n) => ExecCmd::Rate(n),
                        None => ExecCmd::Error(ErrorStatus::IntParseError),
                    }
                } else if kind == 's' {
                    ExecCmd::Status(status_at(&chars, 2))
                } else {
                    ExecCmd::Error(ErrorStatus::UnknownCommand)
                }
            } else {
                ExecCmd::Error(ErrorStatus::UnknownCommand)
            }
        } else if head == 'w' {
            ExecCmd::Write
        } else if head == 'x' {
            if chars.len() >= 2 {
                match read_param(&chars) {
                    Ok(param) => ExecCmd::FilterParam(param),
                    Err(kind) => ExecCmd::Error(kind),
                }
            } else {
                ExecCmd::Error(ErrorStatus::UnknownCommand)
            }
        } else {
            ExecCmd::Error(ErrorStatus::UnknownCommand)
        }
    }
}

} // verus!
