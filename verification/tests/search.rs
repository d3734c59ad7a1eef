use humboldti_note::date::Date;
use humboldti_note::notes::search::{note_date_from_file_name, NoteText};
use humboldti_note::notes::{plan_append, search, Clock, NotesError};

fn day(y: i32, m: u32, d: u32) -> Date {
    Date::from_ymd_opt(y, m, d).unwrap()
}

fn note(date: Date, contents: &str) -> NoteText {
    NoteText { path: format!("/notes/{}.md", date.to_ymd()), date, contents: contents.to_string() }
}

#[test]
fn search_is_case_insensitive() {
    let date = day(2026, 8, 30);
    let hits = search("meeting", &vec![note(date, "## 10:00\nMeeting with the team\n")]).unwrap();

    assert_eq!(hits.len(), 1);
    assert_eq!(hits[0].date, date);
    assert_eq!(hits[0].line_number, 2);
    assert_eq!(hits[0].line, "Meeting with the team");
}

#[test]
fn search_sorts_newest_date_first() {
    let older = day(2026, 1, 1);
    let newer = day(2026, 6, 1);
    let notes = vec![note(older, "## 10:00\ntoken\n"), note(newer, "## 10:00\ntoken\n")];

    let hits = search("token", &notes).unwrap();

    assert_eq!(hits.len(), 2);
    assert_eq!(hits[0].date, newer);
    assert_eq!(hits[1].date, older);
}

#[test]
fn search_orders_hits_of_one_day_by_line() {
    let d = day(2026, 6, 1);
    let notes = vec![note(day(2026, 1, 1), "token\n"), note(d, "token a\nx\ntoken b\n")];

    let hits = search("token", &notes).unwrap();

    let order: Vec<(Date, usize)> = hits.iter().map(|h| (h.date, h.line_number)).collect();
    assert_eq!(order, vec![(d, 1), (d, 3), (day(2026, 1, 1), 1)]);
}

#[test]
fn search_ignores_files_that_are_not_dated_notes() {
    assert_eq!(note_date_from_file_name("2026-08-30.md"), Some(day(2026, 8, 30)));
    assert_eq!(note_date_from_file_name("token.txt"), None);
    assert_eq!(note_date_from_file_name("2026-02-30.md"), None);
    assert_eq!(note_date_from_file_name(".md"), None);
}

#[test]
fn search_rejects_invalid_regex() {
    let err = search("[", &vec![]).unwrap_err();
    assert!(matches!(err, NotesError::InvalidPattern { .. }));
    assert!(err.message().starts_with("invalid search pattern `[`: "));
}

#[test]
fn appended_text_can_be_found_by_search() {
    let today = day(2026, 8, 30);
    let at = |h: u32, m: u32| Clock { date: today, hour: h, minute: m, second: 0, nanosecond: 0 };

    let first = plan_append("牛乳を買った", "", 30, at(9, 0), None).unwrap();
    let contents = first.to_append.clone();
    let second = plan_append("卵も", &contents, 30, at(9, 1), None).unwrap();
    let contents = format!("{contents}{}", second.to_append);
    assert!(!first.merged);
    assert!(second.merged);

    let hits = search("牛乳", &vec![note(today, &contents)]).unwrap();
    assert_eq!(hits.len(), 1);
    assert_eq!(hits[0].line, "牛乳を買った");
}
