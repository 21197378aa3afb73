use watch_list::base::{Item, SeriesCounter, Status};
use watch_list::extra::{ErrorStatus, ExecCmd, ParamType};
use watch_list::pipeline::{plan_has_filter, resolve_line, Event, Notice, Planned, Session};
use watch_list::store::AnimeBase;

fn store_of(lines: &[&str]) -> AnimeBase {
    let mut store = AnimeBase::new();
    for line in lines {
        store.push(Item::parse(line).unwrap());
    }
    store
}

fn sample() -> Session {
    Session::new(store_of(&[
        "\"A\" watch progress 5/12 score 7",
        "\"B\" plan progress 0/? score 0",
        "\"C\" watch progress 5/24 score 8",
        "\"D\" complete progress 12/12 score 10",
        "\"E\" watch progress 3/? score 5",
    ]))
}

fn names(session: &Session) -> Vec<&str> {
    session.store().list.iter().map(|i| i.name.as_str()).collect()
}

fn texts(session: &Session, notice: Notice) -> Vec<&str> {
    session.events().iter().filter(|e| e.notice == notice).map(|e| e.text.as_str()).collect()
}

#[test]
fn find_increment_and_store() {
    let store = store_of(&["\"X\" watch progress 5/12 score 7"]);
    let mut session = Session::new(store);
    assert!(session.run("f/\"X\"/+3/w").is_ok());
    assert_eq!(session.selection(), &vec![0]);
    let item = &session.store().list[0];
    assert_eq!(item.progress, 8);
    assert_eq!(item.status, Status::Watch);
    assert_eq!(item.maximum, SeriesCounter::Value(12));
    assert!(session.saved());
    assert!(session.updated());
    assert!(!session.deleted());
    let saved = texts(&session, Notice::Saved);
    assert_eq!(saved, vec!["\"X\" watch progress 8/12 score 7\n"]);
    let again = AnimeBase::load(saved[0]).unwrap();
    assert_eq!(again.list.len(), 1);
    assert_eq!(again.list[0].progress, 8);
    assert_eq!(again.list[0].maximum, SeriesCounter::Value(12));
    assert_eq!(again.serialize(), "\"X\" watch progress 8/12 score 7\n");
}

#[test]
fn find_filter_and_delete() {
    let mut session = sample();
    assert!(session.run("fsw/xp5/d").is_ok());
    assert_eq!(names(&session), vec!["D", "B", "E"]);
    assert!(session.selection().is_empty());
    assert!(session.deleted());
    assert!(!session.updated());
    assert!(!session.saved());
    assert_eq!(
        texts(&session, Notice::Deleted),
        vec![
            "'C', status: watch, progress:  5 / 24, rate:  8 / 10",
            "'A', status: watch, progress:  5 / 12, rate:  7 / 10",
        ]
    );
    assert_eq!(
        texts(&session, Notice::Filtered),
        vec![
            "'A', status: watch, progress:  5 / 12, rate:  7 / 10",
            "'C', status: watch, progress:  5 / 24, rate:  8 / 10",
        ]
    );
    assert!(texts(&session, Notice::Found).is_empty());
    let e = session.store().list.iter().find(|i| i.name == "E").unwrap();
    assert_eq!((e.status, e.progress), (Status::Watch, 3));
}

#[test]
fn a_bad_token_does_not_stop_the_run() {
    let mut with = sample();
    let mut without = sample();
    assert!(with.run("fsw/zz/+2/x/sr9/+q/w").is_ok());
    assert!(without.run("fsw/+2/sr9/w").is_ok());
    assert_eq!(with.store().list, without.store().list);
    assert_eq!(with.selection(), without.selection());
    assert_eq!(with.store().list[0].progress, 7);
    assert_eq!(with.store().list[0].rate, 9);
    assert_eq!(texts(&with, Notice::Saved), texts(&without, Notice::Saved));
    assert_eq!(texts(&with, Notice::Rejected(ErrorStatus::UnknownCommand)), vec!["zz", "x"]);
    assert_eq!(texts(&with, Notice::Rejected(ErrorStatus::IntParseError)), vec!["+q"]);
    assert!(texts(&without, Notice::Rejected(ErrorStatus::UnknownCommand)).is_empty());
}

#[test]
fn a_missing_argument_is_reported() {
    let mut session = sample();
    assert!(session.run("fsw/sn").is_ok());
    assert_eq!(texts(&session, Notice::Rejected(ErrorStatus::EmptyFieldError)), vec!["sn"]);
    assert_eq!(names(&session), vec!["A", "B", "C", "D", "E"]);
}

#[test]
fn the_whole_line_is_resolved_before_anything_runs() {
    let plan = resolve_line("f/\"One Piece\"/sm?/+5/-/sr7/sp23/ssc/sn/d.gray-man/sm24/w");
    let commands: Vec<ExecCmd> = plan.iter().map(|p| p.command.clone()).collect();
    assert_eq!(
        commands,
        vec![
            ExecCmd::Find("One Piece".to_owned()),
            ExecCmd::Maximum(SeriesCounter::OnGoing),
            ExecCmd::Increment(5),
            ExecCmd::Decrement(1),
            ExecCmd::Rate(7),
            ExecCmd::Progress(23),
            ExecCmd::Status(Status::Complete),
            ExecCmd::Rename("d.gray-man".to_owned()),
            ExecCmd::Maximum(SeriesCounter::Value(24)),
            ExecCmd::Write,
        ]
    );
    let tokens: Vec<&str> = plan.iter().map(|p| p.token.as_str()).collect();
    assert_eq!(tokens, vec!["f", "sm?", "+5", "-", "sr7", "sp23", "ssc", "sn", "sm24", "w"]);
    assert!(!plan_has_filter(&plan));
    assert!(plan_has_filter(&resolve_line("fsw/+1/xp5")));
    assert!(!plan_has_filter(&resolve_line("fsw/x/xq")));
    assert!(resolve_line("").is_empty());
}

#[test]
fn the_long_example() {
    let mut session = Session::new(store_of(&["\"One Piece\" watch progress 5/12 score 1"]));
    assert!(session.run("f/\"One Piece\"/sm?/+5/-/sr7/sp23/ssc/sn/d.gray-man/sm24/w").is_ok());
    assert_eq!(
        session.store().list[0],
        Item {
            name: "d.gray-man".to_owned(),
            status: Status::Watch,
            progress: 23,
            maximum: SeriesCounter::Value(24),
            rate: 7,
        }
    );
    assert_eq!(texts(&session, Notice::Saved), vec!["\"d.gray-man\" watch progress 23/24 score 7\n"]);
}

#[test]
fn setting_the_total_derives_the_status_and_cuts_the_progress() {
    let mut session = Session::new(store_of(&["\"One Piece\" hold progress 5/? score 1"]));
    assert!(session.run("f/\"One Piece\"/sp23").is_ok());
    let item = &session.store().list[0];
    assert_eq!((item.status, item.progress), (Status::Hold, 23));
    assert!(session.run("sm24").is_ok());
    let item = &session.store().list[0];
    assert_eq!((item.status, item.progress), (Status::Watch, 23));
    assert!(session.run("sm20").is_ok());
    let item = &session.store().list[0];
    assert_eq!((item.status, item.progress), (Status::Complete, 20));
    assert!(session.run("sp30").is_ok());
    let item = &session.store().list[0];
    assert_eq!((item.status, item.progress), (Status::Complete, 20));
    assert!(session.run("sp19").is_ok());
    let item = &session.store().list[0];
    assert_eq!((item.status, item.progress), (Status::Watch, 19));
}

#[test]
fn searches_add_to_the_selection_and_keep_repeats() {
    let mut session = sample();
    assert!(session.run("fsw/fp5/fm?").is_ok());
    assert_eq!(session.selection(), &vec![0, 2, 4, 0, 2, 1, 4]);
    assert_eq!(texts(&session, Notice::Found).len(), 7);
}

#[test]
fn a_twice_selected_item_is_changed_twice() {
    let mut session = sample();
    assert!(session.run("fsw/fp5/+1").is_ok());
    let progress: Vec<u16> = session.store().list.iter().map(|i| i.progress).collect();
    assert_eq!(progress, vec![7, 0, 7, 12, 4]);
}

#[test]
fn a_twice_selected_item_is_deleted_once() {
    let mut session = sample();
    assert!(session.run("fsw/fp5/d").is_ok());
    assert_eq!(names(&session), vec!["D", "B"]);
    assert_eq!(texts(&session, Notice::Deleted).len(), 3);
}

#[test]
fn a_filter_looks_at_the_selection_only() {
    let mut session = sample();
    assert!(session.run("fm?/xsw").is_ok());
    assert_eq!(session.selection(), &vec![4]);
    let mut session = sample();
    assert!(session.run("xsw").is_ok());
    assert!(session.selection().is_empty());
}

#[test]
fn a_filter_anywhere_keeps_searches_quiet() {
    let mut session = sample();
    assert!(session.run("fsw/+1/f/B/xsp").is_ok());
    assert!(texts(&session, Notice::Found).is_empty());
    assert_eq!(session.selection(), &vec![1]);
    assert_eq!(
        texts(&session, Notice::Filtered),
        vec!["'B', status: plan, progress:  0 / ?, rate:  0 / 10"]
    );
    let mut session = sample();
    assert!(session.run("fsw").is_ok());
    assert_eq!(
        texts(&session, Notice::Found),
        vec![
            "'A', status: watch, progress:  5 / 12, rate:  7 / 10",
            "'C', status: watch, progress:  5 / 24, rate:  8 / 10",
            "'E', status: watch, progress:  3 / ?, rate:  5 / 10",
        ]
    );
}

#[test]
fn append_selects_the_new_item() {
    let mut session = sample();
    assert!(session.run("a/\"Fresh one\"/sm26/+2/sr6").is_ok());
    assert_eq!(session.selection(), &vec![5]);
    assert_eq!(
        session.store().list[5],
        Item {
            name: "Fresh one".to_owned(),
            status: Status::Watch,
            progress: 2,
            maximum: SeriesCounter::Value(26),
            rate: 6,
        }
    );
    assert_eq!(
        texts(&session, Notice::Appended),
        vec!["'Fresh one', status: plan, progress:  0 / ?, rate:  0 / 10"]
    );
    assert!(session.updated());
}

#[test]
fn delete_leaves_nothing_selected() {
    let mut session = sample();
    assert!(session.run("fsw/d/+5/ssd").is_ok());
    assert_eq!(names(&session), vec!["D", "B"]);
    assert!(session.selection().is_empty());
    assert_eq!(session.store().list[0].progress, 12);
    assert_eq!(session.store().list[1].status, Status::Plan);
    assert!(session.closing().is_empty());
}

#[test]
fn the_full_listing() {
    let mut session = Session::new(store_of(&[
        "\"A\" watch progress 5/12 score 7",
        "\"B\" plan progress 0/? score 0",
    ]));
    assert!(session.run("i").is_ok());
    assert_eq!(
        session.events(),
        &vec![
            Event { notice: Notice::Listed, text: "'A', status: watch, progress:  5 / 12, rate:  7 / 10".to_owned() },
            Event { notice: Notice::Listed, text: "'B', status: plan, progress:  0 / ?, rate:  0 / 10".to_owned() },
        ]
    );
    assert!(session.selection().is_empty());
}

#[test]
fn a_status_command_that_names_no_status_is_passed_over() {
    let mut session = sample();
    assert!(session.run("fsw/ssq/ssh").is_ok());
    assert_eq!(texts(&session, Notice::BadStatus), vec!["ssq"]);
    for index in [0, 2, 4] {
        assert_eq!(session.store().list[index].status, Status::Hold);
    }
    let mut session = sample();
    assert!(session.run("fsw/ssq").is_ok());
    assert!(!session.updated());
    for item in &session.store().list {
        assert_ne!(item.status, Status::Error);
    }
}

#[test]
fn items_of_unreadable_status_can_be_searched_for() {
    let mut session = Session::new(store_of(&[
        "\"A\" seen progress 5/12 score 7",
        "\"B\" plan progress 0/? score 0",
    ]));
    assert!(session.run("fsq/ssw").is_ok());
    assert_eq!(session.selection(), &vec![0]);
    assert_eq!(session.store().list[0].status, Status::Watch);
}

#[test]
fn nothing_is_stored_without_the_write_command() {
    let mut session = sample();
    assert!(session.run("fsw/+1").is_ok());
    assert!(!session.saved());
    assert!(texts(&session, Notice::Saved).is_empty());
}

#[test]
fn each_write_command_stores_the_list_as_it_is_then() {
    let mut session = Session::new(store_of(&["\"A\" watch progress 5/12 score 7"]));
    assert!(session.run("w/fsw/+1/w/d/w").is_ok());
    assert_eq!(
        texts(&session, Notice::Saved),
        vec![
            "\"A\" watch progress 5/12 score 7\n",
            "\"A\" watch progress 6/12 score 7\n",
            "",
        ]
    );
}

#[test]
fn the_changed_items_are_listed_at_the_end() {
    let mut session = sample();
    assert!(session.run("fr10/fr5/sr6").is_ok());
    assert_eq!(
        session.closing(),
        vec![
            Event { notice: Notice::Updated, text: "'D', status: complete, progress: 12 / 12, rate:  6 / 10".to_owned() },
            Event { notice: Notice::Updated, text: "'E', status: watch, progress:  3 / ?, rate:  6 / 10".to_owned() },
        ]
    );
    let mut session = sample();
    assert!(session.run("fr10/fr5").is_ok());
    assert!(session.closing().is_empty());
}

#[test]
fn a_stored_run_ends_by_telling_whether_anything_had_changed() {
    let last = |line: &str| {
        let mut session = sample();
        assert!(session.run(line).is_ok());
        session.closing().last().map(|e| (e.notice, e.text.clone()))
    };
    assert_eq!(last("w"), Some((Notice::NothingToSave, String::new())));
    assert_eq!(last("fsw/i/w/zz"), Some((Notice::NothingToSave, String::new())));
    assert_eq!(last("a/New/w"), Some((Notice::NothingToSave, String::new())));
    assert_eq!(last("w/+1"), Some((Notice::ChangesSaved, String::new())));
    assert_eq!(last("sr1/w"), Some((Notice::ChangesSaved, String::new())));
    assert_eq!(last("d/w"), Some((Notice::ChangesSaved, String::new())));
    assert_eq!(last("fsw/d"), None);
    let mut session = sample();
    assert!(session.run("fr10/sr9/w").is_ok());
    let notices: Vec<Notice> = session.closing().iter().map(|e| e.notice).collect();
    assert_eq!(notices, vec![Notice::Updated, Notice::ChangesSaved]);
}

#[test]
fn a_pattern_that_does_not_compile_stops_the_run_there() {
    let mut session = sample();
    let failure = session.run("fsw/+1/f/(/+1/w").unwrap_err();
    assert_eq!(failure.at, 2);
    assert_eq!(failure.cause.pattern, "(");
    assert!(!failure.cause.cause.to_string().is_empty());
    assert_eq!(session.store().list[0].progress, 6);
    assert_eq!(session.selection(), &vec![0, 2, 4]);
    assert!(!session.saved());
    assert_eq!(texts(&session, Notice::Found).len(), 3);
}

#[test]
fn a_name_search_uses_the_pattern_as_an_expression() {
    let mut session = Session::new(store_of(&[
        "\"One Piece\" watch progress 5/12 score 7",
        "\"One Punch Man\" plan progress 0/? score 0",
        "\"Gintama\" plan progress 0/? score 0",
    ]));
    assert!(session.run("f/\"^One P[iu]\"/f/a$").is_ok());
    assert_eq!(session.selection(), &vec![0, 1, 2]);
    assert!(session.run("f/Pie.e|Gin").is_ok());
    assert_eq!(session.selection(), &vec![0, 1, 2, 0, 2]);
}

#[test]
fn one_command_at_a_time() {
    let mut session = sample();
    assert!(session.execute("fsw", &ExecCmd::FindParam(ParamType::Status(Status::Watch)), true).is_ok());
    assert!(session.events().is_empty());
    assert_eq!(session.selection(), &vec![0, 2, 4]);
    assert!(session.execute("sp1", &ExecCmd::Progress(1), true).is_ok());
    assert_eq!(session.store().list[2].progress, 1);
    let bad = session.execute("f", &ExecCmd::Find("[".to_owned()), true).err().unwrap();
    assert_eq!(bad.pattern, "[");
    assert_eq!(session.selection(), &vec![0, 2, 4]);
    let plan = vec![
        Planned { token: "d".to_owned(), command: ExecCmd::Delete },
        Planned { token: "i".to_owned(), command: ExecCmd::Info },
    ];
    assert!(session.run_plan(&plan, false).is_ok());
    assert_eq!(names(&session), vec!["D", "B"]);
    assert_eq!(texts(&session, Notice::Listed).len(), 2);
}

#[test]
fn found_positions_join_the_selection() {
    let mut session = sample();
    assert!(session.select(&vec![3, 1, 3], false));
    assert_eq!(session.selection(), &vec![3, 1, 3]);
    assert_eq!(
        texts(&session, Notice::Found),
        vec![
            "'D', status: complete, progress: 12 / 12, rate: 10 / 10",
            "'B', status: plan, progress:  0 / ?, rate:  0 / 10",
            "'D', status: complete, progress: 12 / 12, rate: 10 / 10",
        ]
    );
    assert!(session.select(&vec![0], true));
    assert_eq!(session.selection(), &vec![3, 1, 3, 0]);
    assert_eq!(texts(&session, Notice::Found).len(), 3);
    assert!(!session.select(&vec![0, 5], false));
    assert_eq!(session.selection(), &vec![3, 1, 3, 0]);
    assert_eq!(texts(&session, Notice::Found).len(), 3);
}

#[test]
fn the_store_is_handed_back() {
    let mut session = sample();
    assert!(session.run("fsw/d").is_ok());
    let store = session.into_store();
    assert_eq!(store.list.len(), 2);
    assert_eq!((store.name_len, store.series_len), (1, 2));
}

#[test]
fn the_columns_never_get_narrower() {
    let mut session = Session::new(store_of(&[
        "\"A long name\" watch progress 5/12000 score 7",
        "\"B\" plan progress 0/? score 0",
    ]));
    let before = (session.store().name_len, session.store().series_len);
    assert_eq!(before, (11, 5));
    for line in ["f/long/d", "fsp/sn/x/sp1/sm2", "a/y", "i/w/zz"] {
        assert!(session.run(line).is_ok());
        assert!(session.store().name_len >= before.0);
        assert!(session.store().series_len >= before.1);
    }
    assert_eq!(
        texts(&session, Notice::Appended),
        vec!["'          y', status: plan, progress:     0 / ?, rate:  0 / 10"]
    );
}

#[test]
fn every_selected_position_lies_within_the_store() {
    let lines = [
        "fsw/fp5/fm?/f/./d/i",
        "a/x/a/y/fsp/d/a/z/sr1",
        "fsw/xp5/d/fsc/fsw/+1/xsw",
        "f/A|B|C/d/f/./xsp/ssq/zz/w",
        "a/n/d/a/n/d/fm?/fm12/d/fr0",
    ];
    for line in lines {
        let mut session = sample();
        assert!(session.run(line).is_ok());
        let len = session.store().list.len();
        assert!(session.selection().iter().all(|&p| p < len));
        assert!(session.run(line).is_ok());
        let len = session.store().list.len();
        assert!(session.selection().iter().all(|&p| p < len));
    }
}
