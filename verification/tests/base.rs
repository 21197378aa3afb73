use std::str::FromStr;
use watch_list::base::{Item, SeriesCounter, Status};
use watch_list::extra::ErrorStatus;

#[test]
fn status_from_word_or_letter() {
    assert_eq!(Status::from("complete"), Status::Complete);
    assert_eq!(Status::from("c"), Status::Complete);
    assert_eq!(Status::from("drop"), Status::Drop);
    assert_eq!(Status::from("d"), Status::Drop);
    assert_eq!(Status::from("plan"), Status::Plan);
    assert_eq!(Status::from("p"), Status::Plan);
    assert_eq!(Status::from("watch"), Status::Watch);
    assert_eq!(Status::from("w"), Status::Watch);
    assert_eq!(Status::from("hold"), Status::Hold);
    assert_eq!(Status::from("h"), Status::Hold);
}

#[test]
fn status_from_anything_else_is_the_error_status() {
    assert_eq!(Status::from(""), Status::Error);
    assert_eq!(Status::from("Complete"), Status::Error);
    assert_eq!(Status::from("co"), Status::Error);
    assert_eq!(Status::from("watching"), Status::Error);
    assert_eq!(Status::from("<error>"), Status::Error);
}

#[test]
fn status_names() {
    assert_eq!(Status::Complete.name(), "complete");
    assert_eq!(Status::Drop.name(), "drop");
    assert_eq!(Status::Plan.name(), "plan");
    assert_eq!(Status::Watch.name(), "watch");
    assert_eq!(Status::Hold.name(), "hold");
    assert_eq!(Status::Error.name(), "<error>");
    assert_eq!(Status::Hold.debug_name(), "Hold");
    assert_eq!(Status::Error.debug_name(), "Error");
}

#[test]
fn a_status_name_is_read_back_as_the_status() {
    for status in [Status::Complete, Status::Drop, Status::Plan, Status::Watch, Status::Hold, Status::Error] {
        assert_eq!(Status::from(status.name()), status);
    }
}

#[test]
fn counter_parse() {
    assert_eq!(SeriesCounter::from_str("?"), Ok(SeriesCounter::OnGoing));
    assert_eq!(SeriesCounter::from_str("12"), Ok(SeriesCounter::Value(12)));
    assert_eq!(SeriesCounter::from_str("0"), Ok(SeriesCounter::Value(0)));
    assert_eq!(SeriesCounter::from_str("65535"), Ok(SeriesCounter::Value(65535)));
    assert_eq!(SeriesCounter::from_str("+12"), Ok(SeriesCounter::Value(12)));
    assert_eq!(SeriesCounter::from_str("65536"), Err(ErrorStatus::IntParseError));
    assert_eq!(SeriesCounter::from_str(""), Err(ErrorStatus::IntParseError));
    assert_eq!(SeriesCounter::from_str("??"), Err(ErrorStatus::IntParseError));
    assert_eq!(SeriesCounter::from_str("-1"), Err(ErrorStatus::IntParseError));
    assert_eq!(SeriesCounter::from_str("12a"), Err(ErrorStatus::IntParseError));
    assert_eq!("24".parse::<SeriesCounter>(), Ok(SeriesCounter::Value(24)));
    assert_eq!("?".parse::<SeriesCounter>(), Ok(SeriesCounter::OnGoing));
}

#[test]
fn counter_get_and_text() {
    assert_eq!(SeriesCounter::Value(24).get(), 24);
    assert_eq!(SeriesCounter::OnGoing.get(), 0);
    assert_eq!(SeriesCounter::Value(24).text(), "24");
    assert_eq!(SeriesCounter::Value(0).text(), "0");
    assert_eq!(SeriesCounter::OnGoing.text(), "?");
    assert_eq!(SeriesCounter::Value(24).debug_text(), "Value(24)");
    assert_eq!(SeriesCounter::OnGoing.debug_text(), "OnGoing");
}

#[test]
fn a_stored_line_is_read() {
    let item = Item::new("\"One Piece\" watch progress 5/12 score 7");
    assert_eq!(item.name, "One Piece");
    assert_eq!(item.status, Status::Watch);
    assert_eq!(item.progress, 5);
    assert_eq!(item.maximum, SeriesCounter::Value(12));
    assert_eq!(item.rate, 7);
}

#[test]
fn a_stored_line_of_a_running_title() {
    let item = Item::parse("Gintama plan progress 0/? score 0").unwrap();
    assert_eq!(item.name, "Gintama");
    assert_eq!(item.status, Status::Plan);
    assert_eq!(item.progress, 0);
    assert_eq!(item.maximum, SeriesCounter::OnGoing);
    assert_eq!(item.rate, 0);
}

#[test]
fn labels_and_further_fields_are_not_read() {
    let item = Item::parse("\"X\" c anything 3/4/99 whatever 10 and more").unwrap();
    assert_eq!(item, Item {
        name: "X".to_owned(),
        status: Status::Complete,
        progress: 3,
        maximum: SeriesCounter::Value(4),
        rate: 10,
    });
}

#[test]
fn an_unknown_status_word_is_read_as_the_error_status() {
    let item = Item::parse("\"X\" seen progress 3/4 score 10").unwrap();
    assert_eq!(item.status, Status::Error);
}

#[test]
fn a_malformed_line_is_not_read() {
    assert_eq!(Item::parse(""), None);
    assert_eq!(Item::parse("\"X\" watch progress 5/12 score"), None);
    assert_eq!(Item::parse("\"X\" watch progress 5 score 7"), None);
    assert_eq!(Item::parse("\"X\" watch progress /12 score 7"), None);
    assert_eq!(Item::parse("\"X\" watch progress 5/ score 7"), None);
    assert_eq!(Item::parse("\"X\" watch progress 5/x score 7"), None);
    assert_eq!(Item::parse("\"X\" watch progress 70000/? score 7"), None);
    assert_eq!(Item::parse("\"X\" watch progress 5/12 score 256"), None);
    assert_eq!(Item::parse("\"X\" watch progress 5/12 score seven"), None);
    assert_eq!(Item::parse("\"\" watch progress 5/12 score 7"), None);
}

#[test]
fn an_empty_item() {
    assert_eq!(Item::empty("Bleach"), Item {
        name: "Bleach".to_owned(),
        status: Status::Plan,
        progress: 0,
        maximum: SeriesCounter::OnGoing,
        rate: 0,
    });
}

#[test]
fn an_item_as_a_debugging_line() {
    let item = Item::new("\"X\" watch progress 5/12 score 7");
    assert_eq!(item.text(), "'               X', status: Watch, progress:  5 / Value(12), rate: 7");
    let long = Item::empty("A name of more than sixteen characters");
    assert_eq!(
        long.text(),
        "'A name of more than sixteen characters', status: Plan, progress:  0 / OnGoing, rate: 0"
    );
}
