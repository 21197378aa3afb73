use watch_list::parser::StateMachine::{Normal, Separator, Text};
use watch_list::parser::{split, SplitFormat, Splitter};

#[test]
fn record_grammar_keeps_a_quoted_name_whole() {
    let tokens = split("\"One Piece\" watch 5/12 7", SplitFormat::Anime);
    assert_eq!(tokens, vec!["One Piece", "watch", "5/12", "7"]);
}

#[test]
fn command_grammar_splits_at_slashes() {
    let tokens = split("f/\"One Piece\"/sm?/+5", SplitFormat::Commands);
    assert_eq!(tokens, vec!["f", "One Piece", "sm?", "+5"]);
}

#[test]
fn cursor_hands_out_tokens_one_by_one() {
    let mut splitter = Splitter::new("a//bc/d", SplitFormat::Commands);
    assert_eq!(splitter.next(), Some("a"));
    assert_eq!(splitter.next(), Some("bc"));
    assert_eq!(splitter.next(), Some("d"));
    assert_eq!(splitter.next(), None);
    assert_eq!(splitter.next(), None);
}

#[test]
fn runs_of_delimiters_give_no_empty_token() {
    assert_eq!(split("///a////b///", SplitFormat::Commands), vec!["a", "b"]);
    assert_eq!(split("   a    b   ", SplitFormat::Anime), vec!["a", "b"]);
    assert!(split("////", SplitFormat::Commands).is_empty());
    assert!(split("", SplitFormat::Anime).is_empty());
}

#[test]
fn every_token_is_non_empty() {
    let texts = ["a/\"\"/b", "\"\"", "/\"/\"/", "x//\"y z\"//", "\"a\"\"b\"", "  \"\"  "];
    for text in texts {
        for fmt in [SplitFormat::Anime, SplitFormat::Commands] {
            for token in split(text, fmt) {
                assert!(!token.is_empty());
                assert!(!token.contains('"'));
            }
        }
    }
}

#[test]
fn quotes_hide_the_delimiter() {
    assert_eq!(split("sn/\"d.gray/man\"/w", SplitFormat::Commands), vec!["sn", "d.gray/man", "w"]);
    assert_eq!(split("\"a b\" c", SplitFormat::Anime), vec!["a b", "c"]);
}

#[test]
fn the_other_grammars_delimiter_is_an_ordinary_character() {
    assert_eq!(split("a b/c d", SplitFormat::Commands), vec!["a b", "c d"]);
    assert_eq!(split("a b/c d", SplitFormat::Anime), vec!["a", "b/c", "d"]);
}

#[test]
fn empty_quotes_give_no_token() {
    assert_eq!(split("a/\"\"/b", SplitFormat::Commands), vec!["a", "b"]);
    assert!(split("\"\"", SplitFormat::Anime).is_empty());
}

#[test]
fn an_open_quote_runs_to_the_end() {
    assert_eq!(split("a/\"b/c", SplitFormat::Commands), vec!["a", "b/c"]);
}

#[test]
fn an_opening_quote_drops_what_was_held() {
    assert_eq!(split("ab\"cd\"", SplitFormat::Commands), vec!["cd"]);
    assert_eq!(split("\"ab\"cd", SplitFormat::Commands), vec!["ab", "cd"]);
}

#[test]
fn characters_beyond_ascii_are_single_characters() {
    assert_eq!(split("a/\"Ёж и Пёс\"/sn/日本", SplitFormat::Commands), vec!["a", "Ёж и Пёс", "sn", "日本"]);
}

#[test]
fn transition_table_of_the_record_grammar() {
    assert_eq!(Splitter::anime_cycle(Normal, '"'), (Text, None));
    assert_eq!(Splitter::anime_cycle(Normal, ' '), (Separator, None));
    assert_eq!(Splitter::anime_cycle(Normal, 'x'), (Normal, Some('x')));
    assert_eq!(Splitter::anime_cycle(Normal, '/'), (Normal, Some('/')));
    assert_eq!(Splitter::anime_cycle(Separator, ' '), (Separator, None));
    assert_eq!(Splitter::anime_cycle(Separator, '"'), (Text, None));
    assert_eq!(Splitter::anime_cycle(Separator, 'x'), (Normal, Some('x')));
    assert_eq!(Splitter::anime_cycle(Text, '"'), (Normal, None));
    assert_eq!(Splitter::anime_cycle(Text, ' '), (Text, Some(' ')));
    assert_eq!(Splitter::anime_cycle(Text, 'x'), (Text, Some('x')));
}

#[test]
fn transition_table_of_the_command_grammar() {
    assert_eq!(Splitter::command_cycle(Normal, '"'), (Text, None));
    assert_eq!(Splitter::command_cycle(Normal, '/'), (Separator, None));
    assert_eq!(Splitter::command_cycle(Normal, 'x'), (Normal, Some('x')));
    assert_eq!(Splitter::command_cycle(Normal, ' '), (Normal, Some(' ')));
    assert_eq!(Splitter::command_cycle(Separator, '/'), (Separator, None));
    assert_eq!(Splitter::command_cycle(Separator, '"'), (Text, None));
    assert_eq!(Splitter::command_cycle(Separator, 'x'), (Normal, Some('x')));
    assert_eq!(Splitter::command_cycle(Text, '"'), (Normal, None));
    assert_eq!(Splitter::command_cycle(Text, '/'), (Text, Some('/')));
    assert_eq!(Splitter::command_cycle(Text, 'x'), (Text, Some('x')));
}

#[test]
fn splitting_undoes_joining() {
    let words = vec!["fsw", "xp5", "+3", "sn", "a b", "sm?", "w"];
    assert_eq!(split(&words.join("/"), SplitFormat::Commands), words);
    let words = vec!["X", "watch", "progress", "5/12", "score", "7"];
    assert_eq!(split(&words.join(" "), SplitFormat::Anime), words);
    let none: Vec<&str> = Vec::new();
    assert_eq!(split(&none.join("/"), SplitFormat::Commands), none);
}
