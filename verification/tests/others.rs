use std::str::FromStr;
use watch_list::extension::{Database, ListStatus, ShowFormat};
use watch_list::extra::ErrorStatus;
use watch_list::logger::Level;
use watch_list::model;

#[test]
fn list_status_names() {
    assert_eq!(ListStatus::Complete.name(), "complete");
    assert_eq!(ListStatus::Drop.name(), "drop");
    assert_eq!(ListStatus::Plan.name(), "plan");
    assert_eq!(ListStatus::Watch.name(), "watch");
    assert_eq!(ListStatus::Hold.name(), "hold");
    assert_eq!(ListStatus::Error.name(), "<error>");
}

#[test]
fn show_format_text_and_parse() {
    assert_eq!(ShowFormat::Ongoing.text(), "ongoing");
    assert_eq!(ShowFormat::Finished(0).text(), "0");
    assert_eq!(ShowFormat::Finished(4294967295).text(), "4294967295");
    assert_eq!(ShowFormat::from_str("?"), Ok(ShowFormat::Ongoing));
    assert_eq!(ShowFormat::from_str("12"), Ok(ShowFormat::Finished(12)));
    assert_eq!(ShowFormat::from_str("4294967295"), Ok(ShowFormat::Finished(4294967295)));
    assert_eq!(ShowFormat::from_str("4294967296"), Err(ErrorStatus::IntParseError));
    assert_eq!(ShowFormat::from_str("ongoing"), Err(ErrorStatus::IntParseError));
    assert_eq!(ShowFormat::from_str(""), Err(ErrorStatus::IntParseError));
}

#[test]
fn a_database_entry_as_one_line() {
    let entry = Database {
        name: "One Piece".to_owned(),
        status: ListStatus::Watch,
        current: 5,
        maximum: ShowFormat::Ongoing,
        score: 7,
    };
    assert_eq!(entry.text(), "'       One Piece', status: watch, progress:  5 / ongoing, score: 7");
    let entry = Database {
        name: "A name of more than sixteen characters".to_owned(),
        status: ListStatus::Complete,
        current: 1000,
        maximum: ShowFormat::Finished(1000),
        score: 10,
    };
    assert_eq!(
        entry.text(),
        "'A name of more than sixteen characters', status: complete, progress: 1000 / 1000, score: 10"
    );
}

#[test]
fn plain_status_from_word_or_letter() {
    assert_eq!(model::Status::from("complete"), model::Status::Complete);
    assert_eq!(model::Status::from("c"), model::Status::Complete);
    assert_eq!(model::Status::from("drop"), model::Status::Drop);
    assert_eq!(model::Status::from("d"), model::Status::Drop);
    assert_eq!(model::Status::from("plan"), model::Status::Plan);
    assert_eq!(model::Status::from("p"), model::Status::Plan);
    assert_eq!(model::Status::from("watch"), model::Status::Watch);
    assert_eq!(model::Status::from("w"), model::Status::Watch);
    assert_eq!(model::Status::from("hold"), model::Status::Hold);
    assert_eq!(model::Status::from("h"), model::Status::Hold);
    assert_eq!(model::Status::from("anything"), model::Status::Plan);
    assert_eq!(model::Status::from(""), model::Status::Plan);
    assert_eq!(model::Status::default(), model::Status::Plan);
}

#[test]
fn a_plain_item() {
    let item = model::Item {
        name: "X".to_owned(),
        status: model::Status::default(),
        watched: 1,
        episodes: 2,
        rate: 3,
    };
    assert_eq!(item.clone(), item);
}

#[test]
fn levels_by_name() {
    assert_eq!(Level::parse("off"), None);
    assert_eq!(Level::parse("trace"), Some(Level::Trace));
    assert_eq!(Level::parse("info"), Some(Level::Info));
    assert_eq!(Level::parse("debug"), Some(Level::Debug));
    assert_eq!(Level::parse("warn"), Some(Level::Warn));
    assert_eq!(Level::parse("error"), Some(Level::Error));
    assert_eq!(Level::parse("loud"), Some(Level::Error));
    assert_eq!(Level::parse(""), Some(Level::Error));
    assert_eq!(Level::parse("OFF"), Some(Level::Error));
}

#[test]
fn a_logger_lets_through_what_is_at_least_as_grave_as_its_level() {
    let levels = [Level::Error, Level::Warn, Level::Info, Level::Debug, Level::Trace];
    for (i, logger) in levels.iter().enumerate() {
        for (j, message) in levels.iter().enumerate() {
            assert_eq!(logger.enabled(*message), j <= i);
        }
    }
    assert_eq!(Level::Error.rank(), 1);
    assert_eq!(Level::Trace.rank(), 5);
}

#[test]
fn a_message_as_it_is_written_out() {
    assert_eq!(Level::Warn.line("watch_list", "`zz`: UnknownCommand"), "[ WARN@watch_list] `zz`: UnknownCommand");
    assert_eq!(Level::Debug.line("main", "command write changes"), "[DEBUG@main] command write changes");
    assert_eq!(Level::Info.line("", ""), "[ INFO@] ");
}
