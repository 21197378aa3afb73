//! Storing and reading back: the text that `serialize` writes is read by `load` as
//! the items it was written from.

use vstd::prelude::*;
use crate::base::{
    counter_of, counter_text, first_index, parse_record, status_name, status_of, ItemView,
    SeriesCounter, Status,
};
use crate::parser::{lemma_tokens_plain, scan, tokenize, transition, SplitFormat, StateMachine};
use crate::record::{lines, loaded, parse_lines, strip_cr};
use crate::store::{record_line, serialized};
use crate::text::{decimal, is_digit, lemma_decimal_digits, lemma_parse_decimal};

verus! {

/// `s` holds no `c`.
pub open spec fn free_of(s: Seq<char>, c: char) -> bool {
    forall|i: int| 0 <= i < s.len() ==> #[trigger] s[i] != c
}

/// A word that the record grammar reads as one token and that stays on its line:
/// not empty, and free of spaces, double quotes and line feeds.
pub open spec fn plain(word: Seq<char>) -> bool {
    &&& word.len() > 0
    &&& free_of(word, ' ')
    &&& free_of(word, '"')
    &&& free_of(word, '\n')
}

/// A name that can be stored and read back: not empty, and free of double quotes
/// and line feeds.
pub open spec fn storable(item: ItemView) -> bool {
    &&& item.name.len() > 0
    &&& free_of(item.name, '"')
    &&& free_of(item.name, '\n')
}

/// Words with one delimiter between each two.
pub open spec fn joined(words: Seq<Seq<char>>, delimiter: char) -> Seq<char>
    decreases words.len(),
{
    if words.len() == 0 {
        Seq::empty()
    } else if words.len() == 1 {
        words[0]
    } else {
        words[0] + seq![delimiter] + joined(words.skip(1), delimiter)
    }
}

/// The five fields that follow the name on a stored line.
pub open spec fn record_words(item: ItemView) -> Seq<Seq<char>> {
    seq![
        status_name(item.status),
        "progress"@,
        decimal(item.progress as nat) + seq!['/'] + counter_text(item.maximum),
        "score"@,
        decimal(item.rate as nat),
    ]
}

/// A stored line without the line feed that ends it.
pub open spec fn record_body(item: ItemView) -> Seq<char> {
    seq!['"'] + item.name + seq!['"'] + seq![' '] + joined(record_words(item), ' ')
}

/// Outside quotes, the characters of a word that holds neither a delimiter nor a
/// quote are all taken into the token that is being read.
pub proof fn lemma_scan_word(
    delimiter: char,
    state: StateMachine,
    held: Seq<char>,
    word: Seq<char>,
    rest: Seq<char>,
)
    requires
        state != StateMachine::Text,
        word.len() > 0,
        free_of(word, delimiter),
        free_of(word, '"'),
    ensures
        scan(delimiter, state, held, word + rest) == scan(
            delimiter,
            StateMachine::Normal,
            held + word,
            rest,
        ),
    decreases word.len(),
{
    let c = word[0];
    let tail = word.skip(1);
    assert((word + rest)[0] == c);
    assert((word + rest).skip(1) =~= tail + rest);
    assert(transition(delimiter, state, c) == (StateMachine::Normal, Some(c)));
    if tail.len() == 0 {
        assert(tail + rest =~= rest);
        assert(held.push(c) =~= held + word);
    } else {
        assert forall|i: int| 0 <= i < tail.len() implies #[trigger] tail[i] != delimiter
            && tail[i] != '"' by {
            assert(tail[i] == word[i + 1]);
        }
        lemma_scan_word(delimiter, StateMachine::Normal, held.push(c), tail, rest);
        assert(held.push(c) + tail =~= held + word);
    }
}

/// Inside quotes, every character but a quote is taken into the token.
pub proof fn lemma_scan_text(delimiter: char, held: Seq<char>, body: Seq<char>, rest: Seq<char>)
    requires
        free_of(body, '"'),
    ensures
        scan(delimiter, StateMachine::Text, held, body + rest) == scan(
            delimiter,
            StateMachine::Text,
            held + body,
            rest,
        ),
    decreases body.len(),
{
    if body.len() == 0 {
        assert(body + rest =~= rest);
        assert(held + body =~= held);
    } else {
        let c = body[0];
        let tail = body.skip(1);
        assert((body + rest)[0] == c);
        assert((body + rest).skip(1) =~= tail + rest);
        assert forall|i: int| 0 <= i < tail.len() implies #[trigger] tail[i] != '"' by {
            assert(tail[i] == body[i + 1]);
        }
        lemma_scan_text(delimiter, held.push(c), tail, rest);
        assert(held.push(c) + tail =~= held + body);
    }
}

/// A quoted text at the start of a token is one token, whatever it holds but quotes.
pub proof fn lemma_scan_quoted(delimiter: char, body: Seq<char>, rest: Seq<char>)
    requires
        delimiter != '"',
        body.len() > 0,
        free_of(body, '"'),
    ensures
        scan(
            delimiter,
            StateMachine::Normal,
            Seq::empty(),
            seq!['"'] + body + seq!['"'] + rest,
        ) == seq![body] + scan(delimiter, StateMachine::Normal, Seq::empty(), rest),
{
    let whole = seq!['"'] + body + seq!['"'] + rest;
    let inner = body + (seq!['"'] + rest);
    assert(whole[0] == '"');
    assert(whole.skip(1) =~= inner);
    assert(scan(delimiter, StateMachine::Normal, Seq::empty(), whole) == scan(
        delimiter,
        StateMachine::Text,
        Seq::empty(),
        inner,
    ));
    lemma_scan_text(delimiter, Seq::empty(), body, seq!['"'] + rest);
    assert(Seq::<char>::empty() + body =~= body);
    let close = seq!['"'] + rest;
    assert(close[0] == '"');
    assert(close.skip(1) =~= rest);
}

/// Plain words with one delimiter between each two are read as those words.
pub proof fn lemma_scan_joined(delimiter: char, words: Seq<Seq<char>>)
    requires
        delimiter != '"',
        forall|k: int|
            0 <= k < words.len() ==> (#[trigger] words[k]).len() > 0 && free_of(
                words[k],
                delimiter,
            ) && free_of(words[k], '"'),
    ensures
        scan(delimiter, StateMachine::Separator, Seq::empty(), joined(words, delimiter)) == words,
    decreases words.len(),
{
    let empty = Seq::<char>::empty();
    if words.len() == 0 {
        assert(words =~= Seq::<Seq<char>>::empty());
    } else if words.len() == 1 {
        assert(words[0] + empty =~= words[0]);
        lemma_scan_word(delimiter, StateMachine::Separator, empty, words[0], empty);
        assert(empty + words[0] =~= words[0]);
        assert(seq![words[0]] =~= words);
    } else {
        let later = words.skip(1);
        let rest = seq![delimiter] + joined(later, delimiter);
        assert(joined(words, delimiter) =~= words[0] + rest);
        lemma_scan_word(delimiter, StateMachine::Separator, empty, words[0], rest);
        assert(empty + words[0] =~= words[0]);
        assert(rest[0] == delimiter);
        assert(rest.skip(1) =~= joined(later, delimiter));
        assert forall|k: int| 0 <= k < later.len() implies (#[trigger] later[k]).len() > 0
            && free_of(later[k], delimiter) && free_of(later[k], '"') by {
            assert(later[k] == words[k + 1]);
        }
        lemma_scan_joined(delimiter, later);
        assert(seq![words[0]] + later =~= words);
    }
}

/// With nothing held, it makes no difference whether a delimiter was just read.
pub proof fn lemma_scan_start(delimiter: char, rest: Seq<char>)
    requires
        delimiter != '"',
    ensures
        scan(delimiter, StateMachine::Normal, Seq::empty(), rest) == scan(
            delimiter,
            StateMachine::Separator,
            Seq::empty(),
            rest,
        ),
{
}

/// Splitting undoes joining: words that are not empty and hold neither the
/// delimiter nor a quote, written with one delimiter between each two, are split
/// into those words again.
pub proof fn law_split_joined(words: Seq<Seq<char>>, fmt: SplitFormat)
    requires
        forall|k: int|
            0 <= k < words.len() ==> (#[trigger] words[k]).len() > 0 && free_of(
                words[k],
                fmt.delimiter(),
            ) && free_of(words[k], '"'),
    ensures
        tokenize(joined(words, fmt.delimiter()), fmt) == words,
{
    lemma_scan_start(fmt.delimiter(), joined(words, fmt.delimiter()));
    lemma_scan_joined(fmt.delimiter(), words);
}

/// A numeral is a plain word, and holds no slash.
pub proof fn lemma_decimal_plain(n: nat)
    ensures
        plain(decimal(n)),
        free_of(decimal(n), '/'),
        free_of(decimal(n), '?'),
        free_of(decimal(n), '\r'),
{
    lemma_decimal_digits(n);
    assert forall|i: int| 0 <= i < decimal(n).len() implies {
        let c = #[trigger] decimal(n)[i];
        c != ' ' && c != '"' && c != '\n' && c != '/' && c != '?' && c != '\r'
    } by {
        assert(is_digit(decimal(n)[i]));
    }
}

/// The name of a status is a plain word, and is read back as that status.
pub proof fn lemma_status_name(status: Status)
    ensures
        plain(status_name(status)),
        status_of(status_name(status)) == status,
{
    reveal_strlit("complete");
    reveal_strlit("c");
    reveal_strlit("drop");
    reveal_strlit("d");
    reveal_strlit("plan");
    reveal_strlit("p");
    reveal_strlit("watch");
    reveal_strlit("w");
    reveal_strlit("hold");
    reveal_strlit("h");
    reveal_strlit("<error>");
    let name = status_name(status);
    assert(name[0] != "complete"@[0] || status == Status::Complete);
    assert(name[0] != "drop"@[0] || status == Status::Drop);
    assert(name[0] != "plan"@[0] || status == Status::Plan);
    assert(name[0] != "watch"@[0] || status == Status::Watch);
    assert(name[0] != "hold"@[0] || status == Status::Hold);
}

/// The text of a counter is read back as that counter; it holds no slash.
pub proof fn lemma_counter_text(counter: SeriesCounter)
    ensures
        plain(counter_text(counter)),
        free_of(counter_text(counter), '/'),
        counter_of(counter_text(counter)) == Some(counter),
{
    reveal_strlit("?");
    match counter {
        SeriesCounter::Value(value) => {
            lemma_decimal_plain(value as nat);
            lemma_parse_decimal(value as nat, u16::MAX as nat);
            assert(decimal(value as nat)[0] != '?');
        },
        SeriesCounter::OnGoing => {},
    }
}

/// Where `c` first stands in `s`: behind everything that is free of it.
pub proof fn lemma_first_index(front: Seq<char>, c: char, back: Seq<char>)
    requires
        free_of(front, c),
    ensures
        first_index(front + seq![c] + back, c) == front.len(),
        first_index(front, c) == front.len(),
    decreases front.len(),
{
    let whole = front + seq![c] + back;
    if front.len() == 0 {
        assert(whole[0] == c);
    } else {
        let tail = front.skip(1);
        assert(whole[0] == front[0]);
        assert(whole.skip(1) =~= tail + seq![c] + back);
        assert forall|i: int| 0 <= i < tail.len() implies #[trigger] tail[i] != c by {
            assert(tail[i] == front[i + 1]);
        }
        lemma_first_index(tail, c, back);
    }
}

/// Nothing in front of the first `c` is a `c`.
pub proof fn lemma_first_index_least(s: Seq<char>, c: char)
    ensures
        first_index(s, c) <= s.len(),
        free_of(s.take(first_index(s, c) as int), c),
    decreases s.len(),
{
    if s.len() > 0 && s[0] != c {
        lemma_first_index_least(s.skip(1), c);
        let at = first_index(s, c) as int;
        assert forall|i: int| 0 <= i < at implies #[trigger] s.take(at)[i] != c by {
            if i > 0 {
                assert(s.take(at)[i] == s.skip(1).take(at - 1)[i - 1]);
            }
        }
    }
}

/// The fields of a stored line are plain words.
pub proof fn lemma_record_words_plain(item: ItemView)
    ensures
        record_words(item).len() == 5,
        forall|k: int| 0 <= k < 5 ==> plain(#[trigger] record_words(item)[k]),
{
    reveal_strlit("progress");
    reveal_strlit("score");
    lemma_status_name(item.status);
    lemma_decimal_plain(item.progress as nat);
    lemma_decimal_plain(item.rate as nat);
    lemma_counter_text(item.maximum);
    let words = record_words(item);
    let field = words[2];
    let front = decimal(item.progress as nat);
    let back = counter_text(item.maximum);
    assert forall|i: int| 0 <= i < field.len() implies {
        let c = #[trigger] field[i];
        c != ' ' && c != '"' && c != '\n'
    } by {
        if i < front.len() {
            assert(field[i] == front[i]);
        } else if i > front.len() {
            assert(field[i] == back[i - front.len() - 1]);
        }
    }
    assert(plain(words[0]));
    assert(plain(words[1]));
    assert(plain(words[2]));
    assert(plain(words[3]));
    assert(plain(words[4]));
}

/// A stored line is its body and a line feed.
pub proof fn lemma_record_line(item: ItemView)
    ensures
        record_line(item) == record_body(item) + seq!['\n'],
{
    reveal_strlit("\"");
    reveal_strlit("\" ");
    reveal_strlit(" progress ");
    reveal_strlit("progress");
    reveal_strlit("/");
    reveal_strlit(" score ");
    reveal_strlit("score");
    reveal_strlit("\n");
    let words = record_words(item);
    let space = seq![' '];
    let w4 = joined(words.skip(4), ' ');
    let w3 = joined(words.skip(3), ' ');
    let w2 = joined(words.skip(2), ' ');
    let w1 = joined(words.skip(1), ' ');
    assert(words.skip(4)[0] == words[4]);
    assert(words.skip(3)[0] == words[3]);
    assert(words.skip(2)[0] == words[2]);
    assert(words.skip(1)[0] == words[1]);
    assert(words.skip(3).skip(1) =~= words.skip(4));
    assert(words.skip(2).skip(1) =~= words.skip(3));
    assert(words.skip(1).skip(1) =~= words.skip(2));
    assert(w4 == words[4]);
    assert(w3 == words[3] + space + w4);
    assert(w2 == words[2] + space + w3);
    assert(w1 == words[1] + space + w2);
    assert(joined(words, ' ') == words[0] + space + w1);
    assert("\""@ =~= seq!['"']);
    assert("\" "@ =~= seq!['"'] + space);
    assert(" progress "@ =~= space + "progress"@ + space);
    assert(" score "@ =~= space + "score"@ + space);
    assert("/"@ =~= seq!['/']);
    assert("\n"@ =~= seq!['\n']);
    assert(record_line(item) =~= record_body(item) + seq!['\n']);
}

/// The body of a stored line is read as the item it was written from.
pub proof fn lemma_record_body_parses(item: ItemView)
    requires
        storable(item),
    ensures
        parse_record(record_body(item)) == Some(item),
{
    let words = record_words(item);
    let body = record_body(item);
    let after_name = seq![' '] + joined(words, ' ');
    lemma_record_words_plain(item);
    assert(body =~= seq!['"'] + item.name + seq!['"'] + after_name);
    lemma_scan_quoted(' ', item.name, after_name);
    assert(after_name[0] == ' ');
    assert(after_name.skip(1) =~= joined(words, ' '));
    assert(scan(' ', StateMachine::Normal, Seq::empty(), after_name) == scan(
        ' ',
        StateMachine::Separator,
        Seq::empty(),
        joined(words, ' '),
    ));
    lemma_scan_joined(' ', words);
    let raw = tokenize(body, SplitFormat::Anime);
    assert(raw == seq![item.name] + words);
    assert(raw.len() == 6);
    assert(raw[0] == item.name);
    assert(raw[1] == words[0]);
    assert(raw[3] == words[2]);
    assert(raw[5] == words[4]);
    lemma_status_name(item.status);
    let front = decimal(item.progress as nat);
    let back = counter_text(item.maximum);
    lemma_decimal_plain(item.progress as nat);
    lemma_counter_text(item.maximum);
    lemma_first_index(front, '/', back);
    lemma_first_index(back, '/', Seq::empty());
    let field = raw[3];
    let cut = first_index(field, '/') as int;
    assert(field.take(cut) =~= front);
    assert(field.skip(cut + 1) =~= back);
    assert(back.take(back.len() as int) =~= back);
    lemma_parse_decimal(item.progress as nat, u16::MAX as nat);
    lemma_parse_decimal(item.rate as nat, u8::MAX as nat);
    assert(parse_record(body) =~= Some(item));
}

/// A text that begins with a line and its line feed has that line as its first.
pub proof fn lemma_lines_first(line: Seq<char>, rest: Seq<char>)
    requires
        free_of(line, '\n'),
        line.len() == 0 || line.last() != '\r',
    ensures
        lines(line + seq!['\n'] + rest) == seq![line] + lines(rest),
{
    let text = line + seq!['\n'] + rest;
    lemma_first_index(line, '\n', rest);
    assert(text.take(line.len() as int) =~= line);
    assert(text.skip(line.len() as int + 1) =~= rest);
}

/// The stored text of a list begins with the line of its first item.
pub proof fn lemma_serialized_first(items: Seq<ItemView>)
    requires
        items.len() > 0,
    ensures
        serialized(items) == record_line(items[0]) + serialized(items.skip(1)),
    decreases items.len(),
{
    if items.len() == 1 {
        assert(items.drop_last() =~= Seq::<ItemView>::empty());
        assert(items.skip(1) =~= Seq::<ItemView>::empty());
        assert(serialized(items) =~= record_line(items[0]) + serialized(items.skip(1)));
    } else {
        lemma_serialized_first(items.drop_last());
        assert(items.drop_last().skip(1) =~= items.skip(1).drop_last());
        assert(items.drop_last()[0] == items[0]);
        assert(items.skip(1).last() == items.last());
        assert(serialized(items) =~= record_line(items[0]) + serialized(items.skip(1)));
    }
}

/// Words free of `c`, joined by a delimiter other than `c`, are free of `c`.
pub proof fn lemma_joined_free(words: Seq<Seq<char>>, delimiter: char, c: char)
    requires
        delimiter != c,
        forall|k: int| 0 <= k < words.len() ==> free_of(#[trigger] words[k], c),
    ensures
        free_of(joined(words, delimiter), c),
    decreases words.len(),
{
    if words.len() > 1 {
        let later = words.skip(1);
        assert forall|k: int| 0 <= k < later.len() implies free_of(#[trigger] later[k], c) by {
            assert(later[k] == words[k + 1]);
        }
        lemma_joined_free(later, delimiter, c);
        lemma_free_concat(words[0], seq![delimiter], c);
        lemma_free_concat(words[0] + seq![delimiter], joined(later, delimiter), c);
    }
}

/// Words that are not empty, joined, end as the last of them ends.
pub proof fn lemma_joined_last(words: Seq<Seq<char>>, delimiter: char)
    requires
        words.len() > 0,
        forall|k: int| 0 <= k < words.len() ==> (#[trigger] words[k]).len() > 0,
    ensures
        joined(words, delimiter).len() > 0,
        joined(words, delimiter).last() == words.last().last(),
    decreases words.len(),
{
    if words.len() > 1 {
        let later = words.skip(1);
        assert forall|k: int| 0 <= k < later.len() implies (#[trigger] later[k]).len() > 0 by {
            assert(later[k] == words[k + 1]);
        }
        lemma_joined_last(later, delimiter);
        assert(later.last() == words.last());
    }
}

/// The body of a stored line stays on one line and does not end in a carriage return.
pub proof fn lemma_record_body_line(item: ItemView)
    requires
        storable(item),
    ensures
        free_of(record_body(item), '\n'),
        record_body(item).len() > 0,
        record_body(item).last() != '\r',
{
    let words = record_words(item);
    let tail = joined(words, ' ');
    let head = seq!['"'] + item.name + seq!['"'] + seq![' '];
    lemma_record_words_plain(item);
    lemma_decimal_plain(item.rate as nat);
    lemma_joined_free(words, ' ', '\n');
    lemma_joined_last(words, ' ');
    lemma_free_concat(seq!['"'], item.name, '\n');
    lemma_free_concat(seq!['"'] + item.name, seq!['"'], '\n');
    lemma_free_concat(seq!['"'] + item.name + seq!['"'], seq![' '], '\n');
    lemma_free_concat(head, tail, '\n');
    assert(record_body(item) == head + tail);
    assert((head + tail).last() == tail.last());
    assert(words.last() == decimal(item.rate as nat));
}

/// Two texts free of `c`, one after the other, are free of `c`.
pub proof fn lemma_free_concat(a: Seq<char>, b: Seq<char>, c: char)
    requires
        free_of(a, c),
        free_of(b, c),
    ensures
        free_of(a + b, c),
{
    assert forall|i: int| 0 <= i < (a + b).len() implies #[trigger] (a + b)[i] != c by {
        if i < a.len() {
            assert((a + b)[i] == a[i]);
        } else {
            assert((a + b)[i] == b[i - a.len()]);
        }
    }
}

/// Round trip: a list whose names can be stored is read back, from the text it is
/// stored as, item for item.
pub proof fn law_store_then_load(items: Seq<ItemView>)
    requires
        forall|i: int| 0 <= i < items.len() ==> storable(#[trigger] items[i]),
    ensures
        loaded(serialized(items)) == Some(items),
    decreases items.len(),
{
    if items.len() == 0 {
        assert(lines(serialized(items)) =~= Seq::<Seq<char>>::empty());
    } else {
        let first = items[0];
        let later = items.skip(1);
        let body = record_body(first);
        assert forall|i: int| 0 <= i < later.len() implies storable(#[trigger] later[i]) by {
            assert(later[i] == items[i + 1]);
        }
        law_store_then_load(later);
        lemma_serialized_first(items);
        lemma_record_line(first);
        lemma_record_body_line(first);
        lemma_record_body_parses(first);
        assert(serialized(items) =~= body + seq!['\n'] + serialized(later));
        lemma_lines_first(body, serialized(later));
        let list = lines(serialized(items));
        assert(list[0] == body);
        assert(list.skip(1) =~= lines(serialized(later)));
        assert(seq![first] + later =~= items);
    }
}

/// A character that a text does not hold is in none of its tokens.
pub proof fn lemma_scan_free(
    delimiter: char,
    state: StateMachine,
    held: Seq<char>,
    rest: Seq<char>,
    c: char,
    i: int,
)
    requires
        free_of(held, c),
        free_of(rest, c),
        0 <= i < scan(delimiter, state, held, rest).len(),
    ensures
        free_of(scan(delimiter, state, held, rest)[i], c),
    decreases rest.len(),
{
    if rest.len() > 0 {
        let (next, kept) = transition(delimiter, state, rest[0]);
        let tail = rest.skip(1);
        assert forall|j: int| 0 <= j < tail.len() implies #[trigger] tail[j] != c by {
            assert(tail[j] == rest[j + 1]);
        }
        match kept {
            Some(k) => {
                assert(k == rest[0]);
                lemma_scan_free(delimiter, next, held.push(k), tail, c, i);
            },
            None => {
                if next != StateMachine::Text && held.len() > 0 {
                    if i > 0 {
                        lemma_scan_free(delimiter, next, Seq::empty(), tail, c, i - 1);
                    }
                } else {
                    lemma_scan_free(delimiter, next, Seq::empty(), tail, c, i);
                }
            },
        }
    }
}

/// No line of a text holds a line feed.
pub proof fn lemma_lines_free(text: Seq<char>, i: int)
    requires
        0 <= i < lines(text).len(),
    ensures
        free_of(lines(text)[i], '\n'),
    decreases text.len(),
{
    if text.len() > 0 {
        let cut = first_index(text, '\n') as int;
        lemma_first_index_least(text, '\n');
        if cut >= text.len() {
            assert(text.take(cut) =~= text);
        } else if i == 0 {
            let line = text.take(cut);
            assert forall|j: int| 0 <= j < strip_cr(line).len() implies #[trigger] strip_cr(
                line,
            )[j] != '\n' by {
                assert(strip_cr(line)[j] == line[j]);
            }
        } else {
            lemma_lines_free(text.skip(cut + 1), i - 1);
        }
    }
}

/// The name of an item that was read from a line without line feed can be stored.
pub proof fn lemma_parsed_is_storable(line: Seq<char>)
    requires
        parse_record(line) is Some,
        free_of(line, '\n'),
    ensures
        storable(parse_record(line).unwrap()),
{
    let raw = tokenize(line, SplitFormat::Anime);
    lemma_tokens_plain(line, SplitFormat::Anime, 0);
    lemma_scan_free(' ', StateMachine::Normal, Seq::empty(), line, '\n', 0);
    assert forall|j: int| 0 <= j < raw[0].len() implies #[trigger] raw[0][j] != '"' by {
        if raw[0][j] == '"' {
            assert(raw[0].contains('"'));
        }
    }
}

/// The items of a list of lines, where all of them are well formed, line by line.
pub proof fn lemma_parse_lines_each(list: Seq<Seq<char>>, i: int)
    requires
        parse_lines(list) is Some,
        0 <= i < list.len(),
    ensures
        parse_lines(list).unwrap().len() == list.len(),
        parse_record(list[i]) == Some(parse_lines(list).unwrap()[i]),
    decreases list.len(),
{
    lemma_parse_lines_len(list);
    if i > 0 {
        assert(list.skip(1)[i - 1] == list[i]);
        lemma_parse_lines_each(list.skip(1), i - 1);
    }
}

/// A list of well-formed lines gives one item for each line.
pub proof fn lemma_parse_lines_len(list: Seq<Seq<char>>)
    requires
        parse_lines(list) is Some,
    ensures
        parse_lines(list).unwrap().len() == list.len(),
    decreases list.len(),
{
    if list.len() > 0 {
        lemma_parse_lines_len(list.skip(1));
    }
}

/// Every item that was read from a stored text has a name that can be stored.
pub proof fn law_loaded_is_storable(text: Seq<char>, i: int)
    requires
        loaded(text) is Some,
        0 <= i < loaded(text).unwrap().len(),
    ensures
        storable(loaded(text).unwrap()[i]),
{
    let list = lines(text);
    lemma_parse_lines_len(list);
    lemma_parse_lines_each(list, i);
    lemma_lines_free(text, i);
    lemma_parsed_is_storable(list[i]);
}

/// Round trip: the items that were read from a text are read again, unchanged, from
/// the text that they are stored as.
pub proof fn law_reload(text: Seq<char>)
    requires
        loaded(text) is Some,
    ensures
        loaded(serialized(loaded(text).unwrap())) == loaded(text),
{
    let items = loaded(text).unwrap();
    assert forall|i: int| 0 <= i < items.len() implies storable(#[trigger] items[i]) by {
        law_loaded_is_storable(text, i);
    }
    law_store_then_load(items);
}

} // verus!
