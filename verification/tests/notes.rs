use humboldti_note::date::Date;
use humboldti_note::notes::carry_over::{carried_block, carry_over_candidates, carry_over_from};
use humboldti_note::notes::{as_todo, note_path, pending_heading, plan_append, Clock, NotesError};

fn day(y: i32, m: u32, d: u32) -> Date {
    Date::from_ymd_opt(y, m, d).unwrap()
}

fn at(h: u32, m: u32) -> Clock {
    Clock { date: day(2026, 8, 30), hour: h, minute: m, second: 0, nanosecond: 0 }
}

/// The note after appending `text` to `contents`, as `pen <text>` writes it.
fn appended(contents: &str, text: &str, now: Clock, previous: Option<(Date, &str)>) -> String {
    let plan = plan_append(text, contents, 30, now, previous).unwrap();
    format!("{contents}{}", plan.to_append)
}

#[test]
fn note_path_uses_year_month_day_layout() {
    assert_eq!(note_path("/notes", day(2026, 8, 30)), "/notes/2026/08/2026-08-30.md");
    assert_eq!(note_path("/notes/", day(2026, 8, 30)), "/notes/2026/08/2026-08-30.md");
}

#[test]
fn first_append_creates_file_with_heading() {
    let plan = plan_append("最初の思いつき", "", 30, at(21, 7), None).unwrap();
    assert!(!plan.merged);
    assert_eq!(plan.heading, "21:07");
    assert_eq!(plan.to_append, "## 21:07\n最初の思いつき\n");
}

#[test]
fn append_carries_over_unchecked_items_from_previous_day() {
    let yesterday = "## 10:00\n- [ ] 未完了タスク\n- [x] 完了済みタスク\n- [ ] もう1つの未完了\n";
    let contents = appended("", "今日の最初のメモ", at(21, 7), Some((day(2026, 8, 29), yesterday)));
    assert_eq!(
        contents,
        "<!-- carried over from 2026-08-29 -->\n- [ ] 未完了タスク\n- [ ] もう1つの未完了\n\n## 21:07\n今日の最初のメモ\n"
    );
}

#[test]
fn append_preserves_original_carry_over_date_across_multiple_days() {
    let yesterday =
        "<!-- carried over from 2026-08-28 -->\n- [ ] 古い未完了\n\n## 21:48\n- [ ] 昨日の新しい未完了\n";
    let contents = appended("", "今日の最初のメモ", at(21, 7), Some((day(2026, 8, 29), yesterday)));
    assert_eq!(
        contents,
        "<!-- carried over from 2026-08-28 -->\n- [ ] 古い未完了\n<!-- carried over from 2026-08-29 -->\n- [ ] 昨日の新しい未完了\n\n## 21:07\n今日の最初のメモ\n"
    );
}

#[test]
fn append_looks_back_past_days_with_no_note() {
    let candidates = carry_over_candidates(day(2026, 8, 30));
    assert_eq!(candidates[0], day(2026, 8, 29));
    assert_eq!(candidates[4], day(2026, 8, 25));
    assert_eq!(candidates.len(), 365);

    let older = "## 09:00\n- [ ] 積み残し\n";
    let contents = appended("", "今日の最初のメモ", at(21, 7), Some((candidates[4], older)));
    assert_eq!(contents, "<!-- carried over from 2026-08-25 -->\n- [ ] 積み残し\n\n## 21:07\n今日の最初のメモ\n");
}

#[test]
fn append_does_not_carry_over_on_second_append_of_the_day() {
    let yesterday = "## 10:00\n- [ ] 未完了\n";
    let previous = Some((day(2026, 8, 29), yesterday));
    let first = appended("", "最初", at(21, 7), previous);
    let second = appended(&first, "2つ目", at(22, 0), previous);
    assert_eq!(
        second,
        "<!-- carried over from 2026-08-29 -->\n- [ ] 未完了\n\n## 21:07\n最初\n\n## 22:00\n2つ目\n"
    );
}

#[test]
fn append_within_merge_window_reuses_heading() {
    let first = appended("", "最初の思いつき", at(21, 7), None);
    let plan = plan_append("マージ期間内の2つ目", &first, 30, at(21, 20), None).unwrap();

    assert!(plan.merged);
    assert_eq!(plan.heading, "21:07");
    assert_eq!(format!("{first}{}", plan.to_append), "## 21:07\n最初の思いつき\n\nマージ期間内の2つ目\n");
}

#[test]
fn append_after_merge_window_starts_new_heading() {
    let first = appended("", "最初の思いつき", at(21, 7), None);
    let plan = plan_append("期間を過ぎた3つ目", &first, 30, at(22, 0), None).unwrap();

    assert!(!plan.merged);
    assert_eq!(plan.heading, "22:00");
    assert_eq!(format!("{first}{}", plan.to_append), "## 21:07\n最初の思いつき\n\n## 22:00\n期間を過ぎた3つ目\n");
}

#[test]
fn empty_text_is_rejected() {
    let err = plan_append("   ", "", 30, at(21, 7), None).unwrap_err();
    assert!(matches!(err, NotesError::EmptyText));
    assert_eq!(err.message(), "text to append must not be empty");
}

#[test]
fn appended_text_is_trimmed() {
    let plan = plan_append("  buy milk \n", "", 30, at(9, 5), None).unwrap();
    assert_eq!(plan.to_append, "## 09:05\nbuy milk\n");
}

#[test]
fn as_todo_prefixes_plain_text() {
    assert_eq!(as_todo("buy milk"), "- [ ] buy milk");
    assert_eq!(as_todo("  buy milk  "), "- [ ] buy milk");
}

#[test]
fn as_todo_does_not_double_prefix_an_existing_checklist_item() {
    assert_eq!(as_todo("- [ ] buy milk"), "- [ ] buy milk");
    assert_eq!(as_todo("- [x] already done"), "- [x] already done");
}

#[test]
fn as_todo_leaves_empty_text_empty() {
    assert_eq!(as_todo(""), "");
    assert_eq!(as_todo("   "), "");
}

#[test]
fn as_todo_twice_is_as_todo_once() {
    for text in ["buy milk", "  - [ ] x ", "", "\tjot\n"] {
        assert_eq!(as_todo(&as_todo(text)), as_todo(text));
    }
}

#[test]
fn a_new_note_always_needs_a_heading() {
    assert_eq!(pending_heading("", 30, at(21, 7)), Some("## 21:07\n".to_string()));
    assert_eq!(pending_heading("## 21:00\nx\n", 30, at(21, 7)), None);
    assert_eq!(pending_heading("## 20:00\nx\n", 30, at(21, 7)), Some("\n## 21:07\n".to_string()));
}

#[test]
fn carried_lines_are_the_open_items_under_their_day() {
    let note = "<!-- carried over from 2026-08-20 -->\n- [ ] old\n  - [ ] nested old\n\n## 09:00\n- [x] done\n- [ ] new\ntext\n";
    let items = carry_over_from(day(2026, 8, 29), note);
    assert_eq!(
        items,
        vec![
            "<!-- carried over from 2026-08-20 -->".to_string(),
            "- [ ] old".to_string(),
            "  - [ ] nested old".to_string(),
            "<!-- carried over from 2026-08-29 -->".to_string(),
            "- [ ] new".to_string(),
        ]
    );
    assert_eq!(
        carried_block(&items),
        "<!-- carried over from 2026-08-20 -->\n- [ ] old\n  - [ ] nested old\n<!-- carried over from 2026-08-29 -->\n- [ ] new\n\n"
    );
    assert!(carry_over_from(day(2026, 8, 29), "## 09:00\n- [x] done\n").is_empty());
    assert_eq!(carried_block(&vec![]), "");
}

#[test]
fn note_errors_name_what_failed() {
    let e = NotesError::EditorExit { command: "no-such-editor".to_string(), status: "exit status: 127".to_string() };
    assert_eq!(e.message(), "editor `no-such-editor` exited with a non-zero status: exit status: 127");
    let e = NotesError::Io { path: "/n/a.md".to_string(), message: "denied".to_string() };
    assert_eq!(e.message(), "failed to access note file at /n/a.md: denied");
    let e = NotesError::EditorLaunch { command: "vi".to_string(), message: "not found".to_string() };
    assert_eq!(e.message(), "failed to launch editor `vi`: not found");
}
