use humboldti_note::width::{pad, truncate, width, wrap};

#[test]
fn width_cases() {
    assert_eq!(width("abc"), 3);
    assert_eq!(width("日本語"), 6);
    assert_eq!(width("a日b"), 4);
    assert_eq!(width(""), 0);
}

#[test]
fn truncate_never_splits_a_wide_char() {
    assert_eq!(width(&truncate("日本語", 5)), 5);
    assert_eq!(truncate("日本語", 5), "日本…");
}

#[test]
fn truncate_leaves_fitting_text_alone() {
    assert_eq!(truncate("abc", 3), "abc");
    assert_eq!(truncate("abcd", 3), "ab…");
    assert_eq!(truncate("abcd", 0), "");
}

#[test]
fn pad_reaches_exact_width() {
    assert_eq!(width(&pad("日本", 10)), 10);
    assert_eq!(width(&pad("日本語日本語", 6)), 6);
}

#[test]
fn wrap_breaks_at_max_width() {
    let lines = wrap("日本語日本語", 4);
    assert_eq!(lines, vec!["日本", "語日", "本語"]);
    for line in &lines {
        assert!(width(line) <= 4);
    }
}

#[test]
fn wrap_keeps_every_line_and_the_text() {
    assert_eq!(wrap("ab\ncd", 10), vec!["ab", "cd"]);
    assert_eq!(wrap("abcde", 2).concat(), "abcde");
}

#[test]
fn wrap_gives_back_the_text_without_newlines() {
    let lines = wrap("ab\n\ncd", 1);
    assert_eq!(lines, vec!["a", "b", "", "c", "d"]);
    assert_eq!(lines.concat(), "abcd");
}
