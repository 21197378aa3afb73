//! The tokenizer: a quote-aware splitter with two grammars.
//!
//! A stored record is split at spaces, a command line at slashes. In both, a pair of
//! double quotes encloses a token in which the delimiter is an ordinary character.

use vstd::prelude::*;
use vstd::string::StrSliceExecFns;
use crate::text::{chars_of, str_views};

verus! {

/// Where the tokenizer stands between two characters.
#[derive(Debug, Clone, Copy, PartialEq, Eq, Structural)]
pub enum StateMachine {
    /// Inside an unquoted token, or before the first character.
    Normal,
    /// Just after a delimiter.
    Separator,
    /// Inside double quotes.
    Text,
}

/// The grammar that a text is split by.
#[derive(Debug, Clone, Copy, PartialEq, Eq, Structural)]
pub enum SplitFormat {
    /// A stored record: fields are parted by spaces.
    Anime,
    /// A command line: commands are parted by slashes.
    Commands,
}

impl SplitFormat {
    /// The character that parts two tokens.
    pub open spec fn delimiter(self) -> char {
        match self {
            SplitFormat::Anime => ' ',
            SplitFormat::Commands => '/',
        }
    }
}

/// One step of the tokenizer: the state after reading `c`, and `c` itself where it
/// belongs to a token. A quote or a delimiter outside quotes belongs to none.
pub open spec fn transition(delimiter: char, state: StateMachine, c: char) -> (
    StateMachine,
    Option<char>,
) {
    match state {
        StateMachine::Normal => if c == '"' {
            (StateMachine::Text, None)
        } else if c == delimiter {
            (StateMachine::Separator, None)
        } else {
            (StateMachine::Normal, Some(c))
        },
        StateMachine::Separator => if c == delimiter {
            (StateMachine::Separator, None)
        } else if c == '"' {
            (StateMachine::Text, None)
        } else {
            (StateMachine::Normal, Some(c))
        },
        StateMachine::Text => if c == '"' {
            (StateMachine::Normal, None)
        } else {
            (StateMachine::Text, Some(c))
        },
    }
}

/// The tokens still to come when the tokenizer is in `state`, holds the characters
/// `held` of an unfinished token, and has `rest` left to read.
///
/// A delimiter and a closing quote end the held token; an opening quote drops what
/// was held before it. The end of the text ends the held token too, inside quotes or
/// not. A token is never empty.
pub open spec fn scan(delimiter: char, state: StateMachine, held: Seq<char>, rest: Seq<char>) -> Seq<
    Seq<char>,
>
    decreases rest.len(),
{
    if rest.len() == 0 {
        if held.len() > 0 {
            seq![held]
        } else {
            Seq::empty()
        }
    } else {
        let (next, kept) = transition(delimiter, state, rest[0]);
        match kept {
            Some(c) => scan(delimiter, next, held.push(c), rest.skip(1)),
            None => {
                let tail = scan(delimiter, next, Seq::empty(), rest.skip(1));
                if next != StateMachine::Text && held.len() > 0 {
                    seq![held] + tail
                } else {
                    tail
                }
            },
        }
    }
}

/// All tokens of `text` under the grammar `fmt`.
pub open spec fn tokenize(text: Seq<char>, fmt: SplitFormat) -> Seq<Seq<char>> {
    scan(fmt.delimiter(), StateMachine::Normal, Seq::empty(), text)
}

/// No token is empty, and none holds a double quote.
pub proof fn lemma_scan_tokens(
    delimiter: char,
    state: StateMachine,
    held: Seq<char>,
    rest: Seq<char>,
    i: int,
)
    requires
        delimiter != '"',
        !held.contains('"'),
        0 <= i < scan(delimiter, state, held, rest).len(),
    ensures
        scan(delimiter, state, held, rest)[i].len() > 0,
        !scan(delimiter, state, held, rest)[i].contains('"'),
    decreases rest.len(),
{
    if rest.len() > 0 {
        let (next, kept) = transition(delimiter, state, rest[0]);
        match kept {
            Some(c) => {
                assert(!held.push(c).contains('"')) by {
                    if held.push(c).contains('"') {
                        let k = choose|k: int| 0 <= k < held.push(c).len() && held.push(c)[k] == '"';
                        if k < held.len() {
                            assert(held[k] == '"');
                        }
                    }
                }
                lemma_scan_tokens(delimiter, next, held.push(c), rest.skip(1), i);
            },
            None => {
                if next != StateMachine::Text && held.len() > 0 {
                    if i > 0 {
                        lemma_scan_tokens(
                            delimiter,
                            next,
                            Seq::empty(),
                            rest.skip(1),
                            i - 1,
                        );
                    }
                } else {
                    lemma_scan_tokens(delimiter, next, Seq::empty(), rest.skip(1), i);
                }
            },
        }
    }
}

/// Every token of a text is non-empty and free of double quotes.
pub proof fn lemma_tokens_plain(text: Seq<char>, fmt: SplitFormat, i: int)
    requires
        0 <= i < tokenize(text, fmt).len(),
    ensures
        tokenize(text, fmt)[i].len() > 0,
        !tokenize(text, fmt)[i].contains('"'),
{
    lemma_scan_tokens(fmt.delimiter(), StateMachine::Normal, Seq::empty(), text, i);
}

/// A cursor over the tokens of one text. Each call of `next` hands out one token;
/// to read the text again, make a new cursor.
pub struct Splitter<'a> {
    start: usize,
    state: StateMachine,
    string: &'a str,
    chars: Vec<char>,
    fmt: SplitFormat,
}

impl<'a> Splitter<'a> {
    #[verifier::type_invariant]
    spec fn well_formed(self) -> bool {
        self.chars@ == self.string@ && self.start <= self.chars.len()
    }

    /// The grammar this cursor splits by.
    pub closed spec fn format(self) -> SplitFormat {
        self.fmt
    }

    /// The tokens that are still to be handed out, in order.
    pub closed spec fn remaining(self) -> Seq<Seq<char>> {
        scan(
            self.fmt.delimiter(),
            self.state,
            Seq::empty(),
            self.chars@.skip(self.start as int),
        )
    }

    /// A cursor at the start of `string`.
    pub fn new(string: &'a str, fmt: SplitFormat) -> (splitter: Splitter<'a>)
        ensures
            splitter.format() == fmt,
            splitter.remaining() == tokenize(string@, fmt),
    {
        let chars = chars_of(string);
        assert(chars@.skip(0) =~= string@);
        Splitter { start: 0, state: StateMachine::Normal, string, chars, fmt }
    }

    /// One step of the record grammar, whose delimiter is the space.
    pub fn anime_cycle(state: StateMachine, character: char) -> (step: (
        StateMachine,
        Option<char>,
    ))
        ensures
            step == transition(' ', state, character),
    {
        match state {
            StateMachine::Normal => if character == '"' {
                (StateMachine::Text, None)
            } else if character == ' ' {
                (StateMachine::Separator, None)
            } else {
                (StateMachine::Normal, Some(character))
            },
            StateMachine::Separator => if character == ' ' {
                (StateMachine::Separator, None)
            } else if character == '"' {
                (StateMachine::Text, None)
            } else {
                (StateMachine::Normal, Some(character))
            },
            StateMachine::Text => if character == '"' {
                (StateMachine::Normal, None)
            } else {
                (StateMachine::Text, Some(character))
            },
        }
    }

    /// One step of the command grammar, whose delimiter is the slash.
    pub fn command_cycle(state: StateMachine, character: char) -> (step: (
        StateMachine,
        Option<char>,
    ))
        ensures
            step == transition('/', state, character),
    {
        match state {
            StateMachine::Normal => if character == '"' {
                (StateMachine::Text, None)
            } else if character == '/' {
                (StateMachine::Separator, None)
            } else {
                (StateMachine::Normal, Some(character))
            },
            StateMachine::Separator => if character == '/' {
                (StateMachine::Separator, None)
            } else if character == '"' {
                (StateMachine::Text, None)
            } else {
                (StateMachine::Normal, Some(character))
            },
            StateMachine::Text => if character == '"' {
                (StateMachine::Normal, None)
            } else {
                (StateMachine::Text, Some(character))
            },
        }
    }

    /// Hands out the next token, or `None` once the text is used up.
    pub fn next(&mut self) -> (token: Option<&'a str>)
        ensures
            final(self).format() == old(self).format(),
            match token {
                Some(t) => {
                    &&& old(self).remaining().len() > 0
                    &&& t@ == old(self).remaining()[0]
                    &&& t@.len() > 0
                    &&& final(self).remaining() == old(self).remaining().drop_first()
                },
                None => old(self).remaining().len() == 0 && final(self).remaining().len() == 0,
            },
    {
        proof {
            use_type_invariant(&*self);
        }
        let text: &'a str = self.string;
        let fmt = self.fmt;
        let n = self.chars.len();
        let mut state = self.state;
        let mut start = self.start;
        let mut pos = start;
        let ghost chars = self.chars@;
        let ghost delimiter = fmt.delimiter();
        let ghost whole = self.remaining();
        assert(chars.subrange(start as int, pos as int) =~= Seq::<char>::empty());
        while pos < n
            invariant
                start <= pos <= n,
                n == chars.len(),
                chars == self.chars@,
                chars == text@,
                self.chars@ == self.string@,
                self.start <= n,
                self.fmt == fmt,
                self.string == text,
                delimiter == fmt.delimiter(),
                fmt == old(self).format(),
                whole == old(self).remaining(),
                whole == scan(
                    delimiter,
                    state,
                    chars.subrange(start as int, pos as int),
                    chars.skip(pos as int),
                ),
            decreases n - pos,
        {
            let c = self.chars[pos];
            let (next, kept) = match fmt {
                SplitFormat::Anime => Self::anime_cycle(state, c),
                SplitFormat::Commands => Self::command_cycle(state, c),
            };
            proof {
                assert(chars.skip(pos as int)[0] == c);
                assert(chars.skip(pos as int).skip(1) =~= chars.skip(pos + 1));
                assert(chars.subrange(start as int, pos as int).push(c) =~= chars.subrange(
                    start as int,
                    pos + 1,
                ));
                assert(chars.subrange(pos + 1, pos + 1) =~= Seq::<char>::empty());
            }
            match kept {
                Some(_) => {
                    state = next;
                    pos = pos + 1;
                },
                None => {
                    let from = start;
                    let ends_token = match next {
                        StateMachine::Text => false,
                        _ => from < pos,
                    };
                    state = next;
                    start = pos + 1;
                    if ends_token {
                        self.state = next;
                        self.start = pos + 1;
                        let token = text.substring_char(from, pos);
                        proof {
                            let tail = scan(
                                delimiter,
                                next,
                                Seq::empty(),
                                chars.skip(pos + 1),
                            );
                            assert(whole == seq![chars.subrange(from as int, pos as int)]
                                + tail);
                            assert(whole.drop_first() =~= tail);
                        }
                        return Some(token);
                    }
                    pos = pos + 1;
                },
            }
        }
        self.state = state;
        self.start = n;
        proof {
            assert(chars.skip(n as int) =~= Seq::<char>::empty());
        }
        if start < n {
            let token = text.substring_char(start, n);
            proof {
                assert(whole == seq![chars.subrange(start as int, n as int)]);
                assert(whole.drop_first() =~= Seq::<Seq<char>>::empty());
            }
            Some(token)
        } else {
            proof {
                assert(chars.subrange(start as int, pos as int) =~= Seq::<char>::empty());
            }
            None
        }
    }
}

/// All tokens of `text` under the grammar `fmt`, in order.
pub fn split<'a>(text: &'a str, fmt: SplitFormat) -> (tokens: Vec<&'a str>)
    ensures
        str_views(tokens@) == tokenize(text@, fmt),
{
    let mut splitter = Splitter::new(text, fmt);
    let mut tokens: Vec<&'a str> = Vec::new();
    let ghost all = tokenize(text@, fmt);
    assert(str_views(tokens@) + splitter.remaining() =~= all);
    loop
        invariant
            str_views(tokens@) + splitter.remaining() == all,
        ensures
            str_views(tokens@) == all,
        decreases splitter.remaining().len(),
    {
        let ghost before = str_views(tokens@);
        let ghost left = splitter.remaining();
        match splitter.next() {
            Some(token) => {
                tokens.push(token);
                assert(str_views(tokens@) =~= before.push(token@));
                assert(before.push(token@) + left.drop_first() =~= before + left);
            },
            None => {
                assert(before + left =~= before);
                break ;
            },
        }
    }
    tokens
}

} // verus!
