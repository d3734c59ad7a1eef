use humboldti_note::date::Date;
use humboldti_note::mcp::{
    append_note_reply, appended_text, hits_text, read_note_date, read_note_reply, search_notes_reply, PenMcp,
};
use humboldti_note::notes::search::NoteText;
use humboldti_note::notes::{search, AppendOutcome, NotesError, SearchHit};

fn day(y: i32, m: u32, d: u32) -> Date {
    Date::from_ymd_opt(y, m, d).unwrap()
}

fn notes() -> Vec<NoteText> {
    vec![NoteText {
        path: "/notes/2026/08/2026-08-30.md".to_string(),
        date: day(2026, 8, 30),
        contents: "## 10:00\nMeeting notes\n".to_string(),
    }]
}

#[test]
fn pen_mcp_remembers_its_settings() {
    let server = PenMcp::new("/notes".to_string(), 30);
    assert_eq!(server.notes_dir, "/notes");
    assert_eq!(server.merge_window_minutes, 30);
}

#[test]
fn search_notes_finds_matches() {
    let reply = search_notes_reply(&search("meeting", &notes()));
    assert!(!reply.is_error);
    assert!(reply.text.contains("Meeting notes"));
    assert_eq!(reply.text, "/notes/2026/08/2026-08-30.md:2: Meeting notes");
}

#[test]
fn search_notes_reports_no_matches() {
    let reply = search_notes_reply(&search("nothing", &notes()));
    assert!(!reply.is_error);
    assert_eq!(reply.text, "no matches");
}

#[test]
fn search_notes_reports_invalid_pattern_as_tool_error() {
    let reply = search_notes_reply(&search("[", &notes()));
    assert!(reply.is_error);
    assert!(reply.text.starts_with("invalid search pattern `[`"));
}

#[test]
fn read_note_returns_content() {
    let date = read_note_date("2026-08-30").unwrap();
    assert_eq!(date, day(2026, 8, 30));
    let reply = read_note_reply(date, Some("## 10:00\n内容\n".to_string()));
    assert!(!reply.is_error);
    assert!(reply.text.contains("内容"));
}

#[test]
fn read_note_reports_missing_note_as_tool_error() {
    let reply = read_note_reply(day(2026, 8, 30), None);
    assert!(reply.is_error);
    assert_eq!(reply.text, "no note found for 2026-08-30");
}

#[test]
fn read_note_rejects_bad_date_as_protocol_error() {
    assert_eq!(read_note_date("not-a-date").unwrap_err(), "date must be formatted as YYYY-MM-DD");
}

#[test]
fn append_note_writes_to_disk() {
    let outcome = AppendOutcome {
        path: "/notes/2026/08/2026-08-30.md".to_string(),
        heading: "21:07".to_string(),
        merged: false,
    };
    let reply = append_note_reply(&Ok(outcome));
    assert!(!reply.is_error);
    assert_eq!(reply.text, "/notes/2026/08/2026-08-30.md (new heading)");
    let refused = append_note_reply(&Err(NotesError::EmptyText));
    assert!(refused.is_error);
    assert_eq!(refused.text, "text to append must not be empty");
}

#[test]
fn appended_text_says_whether_it_merged() {
    assert_eq!(appended_text("/n/a.md", true), "/n/a.md (merged)");
    assert_eq!(appended_text("/n/a.md", false), "/n/a.md (new heading)");
}

#[test]
fn hits_are_listed_one_per_line() {
    let hits = vec![
        SearchHit { path: "/a.md".to_string(), date: day(2026, 1, 2), line_number: 3, line: "x".to_string() },
        SearchHit { path: "/b.md".to_string(), date: day(2026, 1, 1), line_number: 12, line: "y z".to_string() },
    ];
    assert_eq!(hits_text(&hits), "/a.md:3: x\n/b.md:12: y z");
    assert_eq!(hits_text(&vec![]), "no matches");
}
