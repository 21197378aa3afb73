use watch_list::base::{SeriesCounter, Status};
use watch_list::extra::{ErrorStatus, ExecCmd, ParamType};
use watch_list::parser::{SplitFormat, Splitter};

fn resolve(cmd: &str, rest: &str) -> (ExecCmd, Option<String>) {
    let mut splitter = Splitter::new(rest, SplitFormat::Commands);
    let command = ExecCmd::get(cmd, &mut splitter);
    (command, splitter.next().map(|t| t.to_owned()))
}

fn alone(cmd: &str) -> ExecCmd {
    resolve(cmd, "").0
}

#[test]
fn increment_and_decrement_default_to_one() {
    assert_eq!(alone("+"), ExecCmd::Increment(1));
    assert_eq!(alone("-"), ExecCmd::Decrement(1));
}

#[test]
fn increment_and_decrement_take_a_number() {
    assert_eq!(alone("+5"), ExecCmd::Increment(5));
    assert_eq!(alone("-3"), ExecCmd::Decrement(3));
    assert_eq!(alone("+65535"), ExecCmd::Increment(65535));
    assert_eq!(alone("+007"), ExecCmd::Increment(7));
    assert_eq!(alone("++5"), ExecCmd::Increment(5));
    assert_eq!(alone("-0"), ExecCmd::Decrement(0));
}

#[test]
fn a_bad_number_is_an_int_parse_error() {
    assert_eq!(alone("+x"), ExecCmd::Error(ErrorStatus::IntParseError));
    assert_eq!(alone("+65536"), ExecCmd::Error(ErrorStatus::IntParseError));
    assert_eq!(alone("+-5"), ExecCmd::Error(ErrorStatus::IntParseError));
    assert_eq!(alone("--5"), ExecCmd::Error(ErrorStatus::IntParseError));
    assert_eq!(alone("+5 "), ExecCmd::Error(ErrorStatus::IntParseError));
    assert_eq!(alone("-1.5"), ExecCmd::Error(ErrorStatus::IntParseError));
    assert_eq!(alone("sp"), ExecCmd::Error(ErrorStatus::IntParseError));
    assert_eq!(alone("sp-1"), ExecCmd::Error(ErrorStatus::IntParseError));
    assert_eq!(alone("sr256"), ExecCmd::Error(ErrorStatus::IntParseError));
    assert_eq!(alone("sm"), ExecCmd::Error(ErrorStatus::IntParseError));
    assert_eq!(alone("smx"), ExecCmd::Error(ErrorStatus::IntParseError));
    assert_eq!(alone("fpx"), ExecCmd::Error(ErrorStatus::IntParseError));
    assert_eq!(alone("fm??"), ExecCmd::Error(ErrorStatus::IntParseError));
    assert_eq!(alone("fr300"), ExecCmd::Error(ErrorStatus::IntParseError));
    assert_eq!(alone("xp+"), ExecCmd::Error(ErrorStatus::IntParseError));
}

#[test]
fn append_takes_the_next_token() {
    assert_eq!(resolve("a", "Gintama/w"), (ExecCmd::Append("Gintama".to_owned()), Some("w".to_owned())));
    assert_eq!(alone("a"), ExecCmd::Error(ErrorStatus::EmptyFieldError));
}

#[test]
fn commands_without_a_value() {
    assert_eq!(resolve("d", "x"), (ExecCmd::Delete, Some("x".to_owned())));
    assert_eq!(resolve("i", "x"), (ExecCmd::Info, Some("x".to_owned())));
    assert_eq!(resolve("w", "x"), (ExecCmd::Write, Some("x".to_owned())));
    assert_eq!(alone("delete"), ExecCmd::Delete);
    assert_eq!(alone("info"), ExecCmd::Info);
    assert_eq!(alone("write"), ExecCmd::Write);
}

#[test]
fn find_by_name_takes_the_next_token() {
    assert_eq!(resolve("f", "^One/w"), (ExecCmd::Find("^One".to_owned()), Some("w".to_owned())));
    assert_eq!(alone("f"), ExecCmd::Error(ErrorStatus::EmptyFieldError));
}

#[test]
fn a_field_letter_without_a_value_reads_an_empty_value() {
    let abc = Some("abc".to_owned());
    assert_eq!(resolve("fp", "abc"), (ExecCmd::Error(ErrorStatus::IntParseError), abc.clone()));
    assert_eq!(resolve("fm", "abc"), (ExecCmd::Error(ErrorStatus::IntParseError), abc.clone()));
    assert_eq!(resolve("fr", "abc"), (ExecCmd::Error(ErrorStatus::IntParseError), abc.clone()));
    assert_eq!(
        resolve("fs", "abc"),
        (ExecCmd::FindParam(ParamType::Status(Status::Error)), abc.clone())
    );
    assert_eq!(resolve("fz", "abc"), (ExecCmd::Error(ErrorStatus::UnknownCommand), abc.clone()));
    assert_eq!(resolve("xp", "abc"), (ExecCmd::Error(ErrorStatus::IntParseError), abc.clone()));
    assert_eq!(resolve("xm", "abc"), (ExecCmd::Error(ErrorStatus::IntParseError), abc.clone()));
    assert_eq!(resolve("xr", "abc"), (ExecCmd::Error(ErrorStatus::IntParseError), abc.clone()));
    assert_eq!(
        resolve("xs", "abc"),
        (ExecCmd::FilterParam(ParamType::Status(Status::Error)), abc.clone())
    );
    assert_eq!(resolve("xz", "abc"), (ExecCmd::Error(ErrorStatus::UnknownCommand), abc));
}

#[test]
fn a_search_by_progress_without_a_number_leaves_the_next_token() {
    let mut splitter = Splitter::new("fp/d", SplitFormat::Commands);
    let token = splitter.next().unwrap();
    assert_eq!(token, "fp");
    let command = ExecCmd::get(token, &mut splitter);
    assert_eq!(command, ExecCmd::Error(ErrorStatus::IntParseError));
    assert_eq!(splitter.next(), Some("d"));
    assert_eq!(splitter.next(), None);
}

#[test]
fn find_by_field() {
    assert_eq!(resolve("fsw", "x"), (ExecCmd::FindParam(ParamType::Status(Status::Watch)), Some("x".to_owned())));
    assert_eq!(alone("fscomplete"), ExecCmd::FindParam(ParamType::Status(Status::Complete)));
    assert_eq!(alone("fsq"), ExecCmd::FindParam(ParamType::Status(Status::Error)));
    assert_eq!(alone("fp5"), ExecCmd::FindParam(ParamType::Progress(5)));
    assert_eq!(alone("fm12"), ExecCmd::FindParam(ParamType::Maximum(SeriesCounter::Value(12))));
    assert_eq!(alone("fm?"), ExecCmd::FindParam(ParamType::Maximum(SeriesCounter::OnGoing)));
    assert_eq!(alone("fr7"), ExecCmd::FindParam(ParamType::Rate(7)));
    assert_eq!(alone("fzz"), ExecCmd::Error(ErrorStatus::UnknownCommand));
}

#[test]
fn filter_by_field() {
    assert_eq!(alone("xsd"), ExecCmd::FilterParam(ParamType::Status(Status::Drop)));
    assert_eq!(alone("xp5"), ExecCmd::FilterParam(ParamType::Progress(5)));
    assert_eq!(alone("xm?"), ExecCmd::FilterParam(ParamType::Maximum(SeriesCounter::OnGoing)));
    assert_eq!(alone("xr10"), ExecCmd::FilterParam(ParamType::Rate(10)));
    assert_eq!(resolve("x", "abc"), (ExecCmd::Error(ErrorStatus::UnknownCommand), Some("abc".to_owned())));
    assert_eq!(alone("xq1"), ExecCmd::Error(ErrorStatus::UnknownCommand));
}

#[test]
fn setters() {
    assert_eq!(alone("sm?"), ExecCmd::Maximum(SeriesCounter::OnGoing));
    assert_eq!(alone("sm24"), ExecCmd::Maximum(SeriesCounter::Value(24)));
    assert_eq!(resolve("sn", "d.gray-man/w"), (ExecCmd::Rename("d.gray-man".to_owned()), Some("w".to_owned())));
    assert_eq!(alone("sn"), ExecCmd::Error(ErrorStatus::EmptyFieldError));
    assert_eq!(alone("sp23"), ExecCmd::Progress(23));
    assert_eq!(alone("sr7"), ExecCmd::Rate(7));
    assert_eq!(alone("ssc"), ExecCmd::Status(Status::Complete));
    assert_eq!(alone("ssd"), ExecCmd::Status(Status::Drop));
    assert_eq!(alone("ssp"), ExecCmd::Status(Status::Plan));
    assert_eq!(alone("ssw"), ExecCmd::Status(Status::Watch));
    assert_eq!(alone("ssh"), ExecCmd::Status(Status::Hold));
    assert_eq!(alone("sshold"), ExecCmd::Status(Status::Hold));
}

#[test]
fn an_unknown_status_letter_gives_the_error_status() {
    assert_eq!(alone("ssz"), ExecCmd::Status(Status::Error));
    assert_eq!(alone("ss"), ExecCmd::Status(Status::Error));
}

#[test]
fn anything_else_is_an_unknown_command() {
    assert_eq!(alone("zz"), ExecCmd::Error(ErrorStatus::UnknownCommand));
    assert_eq!(alone("s"), ExecCmd::Error(ErrorStatus::UnknownCommand));
    assert_eq!(alone("sq"), ExecCmd::Error(ErrorStatus::UnknownCommand));
    assert_eq!(alone(""), ExecCmd::Error(ErrorStatus::UnknownCommand));
    assert_eq!(alone("я"), ExecCmd::Error(ErrorStatus::UnknownCommand));
    assert_eq!(alone("5"), ExecCmd::Error(ErrorStatus::UnknownCommand));
}

#[test]
fn only_commands_with_an_argument_use_up_a_token() {
    for cmd in [
        "+", "-2", "d", "i", "w", "fsw", "fs", "fp", "fz", "xp5", "xp", "xs", "sm?", "sp1", "sr1",
        "ssc", "zz", "x", "s",
    ] {
        assert_eq!(resolve(cmd, "next/after").1, Some("next".to_owned()));
    }
    for cmd in ["a", "f", "sn", "snx"] {
        assert_eq!(resolve(cmd, "next/after").1, Some("after".to_owned()));
    }
}
