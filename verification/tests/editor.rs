use humboldti_note::date::Date;
use humboldti_note::notes::editor::{
    choose_editor, editor_command_args, editor_or_default, plan_editor_seed, rollback_after_editor, Rollback,
};
use humboldti_note::notes::Clock;

fn day(y: i32, m: u32, d: u32) -> Date {
    Date::from_ymd_opt(y, m, d).unwrap()
}

fn at(h: u32, m: u32) -> Clock {
    Clock { date: day(2026, 8, 30), hour: h, minute: m, second: 0, nanosecond: 0 }
}

#[test]
fn editor_or_default_falls_back_to_vi() {
    assert_eq!(editor_or_default(None), "vi");
    assert_eq!(editor_or_default(Some("")), "vi");
    assert_eq!(editor_or_default(Some("   ")), "vi");
    assert_eq!(editor_or_default(Some(" code --wait ")), "code --wait");
}

#[test]
fn open_in_editor_prefers_configured_editor_over_editor_env_var() {
    assert_eq!(choose_editor("/bin/from_config.sh", Some("/bin/from_env.sh")), "/bin/from_config.sh");
    assert_eq!(choose_editor("", Some("/bin/from_env.sh")), "/bin/from_env.sh");
    assert_eq!(choose_editor("", None), "vi");
    assert_eq!(choose_editor("   ", Some("nano")), "vi");
}

#[test]
fn editor_command_accepts_a_quoted_path_with_spaces_and_arguments() {
    let editor = "'/tmp/dir with space/fake editor.sh' --wait 'two words'";
    let note = "/tmp/my notes $(touch pwned).md";
    assert_eq!(
        editor_command_args(editor, note),
        vec![
            "-c".to_string(),
            format!("{editor} \"$@\""),
            editor.to_string(),
            note.to_string(),
        ]
    );
}

#[test]
fn open_in_editor_creates_parent_dir_but_not_the_note_itself_for_a_past_date() {
    assert!(plan_editor_seed(day(2020, 1, 1), at(21, 7), "", 30, None).is_none());
}

#[test]
fn open_in_editor_rolls_back_todays_seeded_heading_if_nothing_was_written() {
    let seed = plan_editor_seed(day(2026, 8, 30), at(21, 7), "", 30, None).unwrap();
    assert_eq!(seed.addition, "## 21:07\n");
    assert_eq!(seed.seeded, "## 21:07\n");
    assert_eq!(rollback_after_editor(&seed, Some(&seed.seeded.clone())), Rollback::RemoveNote);
}

#[test]
fn open_in_editor_restores_an_existing_note_if_nothing_was_written() {
    let original = "## 00:00\n朝のメモ\n";
    let seed = plan_editor_seed(day(2026, 8, 30), at(21, 7), original, 0, None).unwrap();
    assert_eq!(seed.seeded, format!("{original}\n## 21:07\n"));
    assert!(!seed.original_was_empty);
    assert_eq!(rollback_after_editor(&seed, Some(&seed.seeded.clone())), Rollback::RestoreOriginal);
}

#[test]
fn open_in_editor_rolls_back_even_when_carry_over_items_exist_but_nothing_was_added() {
    let yesterday = "## 10:00\n- [ ] 未完了\n";
    let seed = plan_editor_seed(day(2026, 8, 30), at(21, 7), "", 30, Some((day(2026, 8, 29), yesterday))).unwrap();
    assert_eq!(seed.addition, "<!-- carried over from 2026-08-29 -->\n- [ ] 未完了\n\n## 21:07\n");
    assert_eq!(rollback_after_editor(&seed, Some(&seed.seeded.clone())), Rollback::RemoveNote);
}

#[test]
fn open_in_editor_seeds_carried_over_items_when_something_is_written() {
    let yesterday = "## 10:00\n- [ ] 未完了\n";
    let seed = plan_editor_seed(day(2026, 8, 30), at(21, 7), "", 30, Some((day(2026, 8, 29), yesterday))).unwrap();
    let after = format!("{}新しいメモ\n", seed.seeded);
    assert_eq!(rollback_after_editor(&seed, Some(&after)), Rollback::Keep);
    assert!(after.contains("- [ ] 未完了"));
    assert!(after.contains("<!-- carried over from 2026-08-29 -->"));
}

#[test]
fn open_in_editor_keeps_seeded_heading_when_editor_writes_something() {
    let seed = plan_editor_seed(day(2026, 8, 30), at(21, 7), "", 30, None).unwrap();
    let after = format!("{}思いつき\n", seed.seeded);
    assert_eq!(rollback_after_editor(&seed, Some(&after)), Rollback::Keep);
    assert!(after.starts_with("## "));
}

#[test]
fn open_in_editor_leaves_an_unreadable_todays_note_untouched() {
    let seed = plan_editor_seed(day(2026, 8, 30), at(21, 7), "x\n", 0, None).unwrap();
    assert_eq!(rollback_after_editor(&seed, None), Rollback::Keep);
}

#[test]
fn no_seed_within_the_merge_window() {
    assert!(plan_editor_seed(day(2026, 8, 30), at(21, 7), "## 21:00\nx\n", 30, None).is_none());
}
