use humboldti_note::action::{Action, Mode};
use humboldti_note::date::Date;
use humboldti_note::notes::{NotesError, SearchHit};
use humboldti_note::ui::app::{all_hits_dated, CalApp, CalEffect, Screen};

fn day(y: i32, m: u32, d: u32) -> Date {
    Date::from_ymd_opt(y, m, d).unwrap()
}

fn hit(date: Date, line: &str) -> SearchHit {
    SearchHit { path: "/notes/x.md".to_string(), date, line_number: 1, line: line.to_string() }
}

#[test]
fn calendar_keys_move_and_open() {
    let mut app = CalApp::new(day(2026, 3, 1));
    assert_eq!(app.screen.mode(), Mode::Calendar);
    assert_eq!(app.step(Action::NextDay), CalEffect::Stay);
    assert_eq!(app.calendar.selected, day(2026, 3, 2));
    assert_eq!(app.step(Action::Open), CalEffect::OpenNote(day(2026, 3, 2)));
    assert_eq!(app.step(Action::Quit), CalEffect::Quit);
}

#[test]
fn typing_a_query_then_searching() {
    let mut app = CalApp::new(day(2026, 3, 1));
    app.step(Action::EnterSearch);
    assert_eq!(app.screen, Screen::SearchInput);
    assert_eq!(app.screen.mode(), Mode::SearchInput);
    for c in "tokx".chars() {
        app.step(Action::InputChar(c));
    }
    app.step(Action::Backspace);
    app.step(Action::InputChar('e'));
    assert_eq!(app.search.query, "toke");
    assert_eq!(app.step(Action::Confirm), CalEffect::RunSearch);

    let hits = vec![hit(day(2026, 2, 1), "token"), hit(day(2026, 1, 1), "token")];
    assert!(all_hits_dated(&hits));
    app.search_finished(Ok(hits));
    assert_eq!(app.screen, Screen::SearchResults);
    assert_eq!(app.search.selected, 0);

    app.step(Action::NextResult);
    assert_eq!(app.step(Action::Confirm), CalEffect::OpenNote(day(2026, 1, 1)));
    assert_eq!(app.screen, Screen::Calendar);
    assert_eq!(app.calendar.selected, day(2026, 1, 1));
}

#[test]
fn a_bad_pattern_stays_in_the_query_with_the_error() {
    let mut app = CalApp::new(day(2026, 3, 1));
    app.step(Action::EnterSearch);
    app.step(Action::InputChar('['));
    app.search_finished(Err(NotesError::InvalidPattern { pattern: "[".to_string(), message: "oops".to_string() }));
    assert_eq!(app.screen, Screen::SearchInput);
    assert_eq!(app.search.error, Some("invalid search pattern `[`: oops".to_string()));
    assert_eq!(app.step(Action::Cancel), CalEffect::Stay);
    assert_eq!(app.screen, Screen::Calendar);
}

#[test]
fn confirming_an_empty_result_list_just_goes_back() {
    let mut app = CalApp::new(day(2026, 3, 1));
    app.step(Action::EnterSearch);
    app.search_finished(Ok(vec![]));
    assert_eq!(app.step(Action::Confirm), CalEffect::Stay);
    assert_eq!(app.screen, Screen::Calendar);
    assert_eq!(app.calendar.selected, day(2026, 3, 1));
}

#[test]
fn entering_search_again_starts_afresh() {
    let mut app = CalApp::new(day(2026, 3, 1));
    app.step(Action::EnterSearch);
    app.step(Action::InputChar('a'));
    app.step(Action::Cancel);
    app.step(Action::EnterSearch);
    assert_eq!(app.search.query, "");
    assert!(app.can_step(Action::PrevDay));
    let mut edge = CalApp::new(Date::min());
    assert!(!edge.can_step(Action::PrevDay));
    assert_eq!(edge.step(Action::NextDay), CalEffect::Stay);
}

#[test]
fn ctrl_c_quits_from_the_search_screens_too() {
    let mut app = CalApp::new(day(2026, 3, 1));
    app.step(Action::EnterSearch);
    assert_eq!(app.step(Action::Quit), CalEffect::Quit);
    app.search_finished(Ok(vec![]));
    assert_eq!(app.screen, Screen::SearchResults);
    assert_eq!(app.step(Action::Quit), CalEffect::Quit);
}
