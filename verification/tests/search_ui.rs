use humboldti_note::date::Date;
use humboldti_note::notes::SearchHit;
use humboldti_note::ui::search::{
    bordered_title, input_line, no_matches, result_line, results_title, scroll_offset, SearchState,
};
use humboldti_note::width::width;

fn hit(date: &str, line_number: usize, line: &str) -> SearchHit {
    let parts: Vec<u32> = date.split('-').map(|p| p.parse().unwrap()).collect();
    SearchHit {
        path: "/notes/dummy.md".to_string(),
        date: Date::from_ymd_opt(parts[0] as i32, parts[1], parts[2]).unwrap(),
        line_number,
        line: line.to_string(),
    }
}

#[test]
fn select_next_and_prev_do_not_panic_on_empty_results() {
    let mut state = SearchState::new();
    state.select_next();
    state.select_prev();
    assert_eq!(state.selected, 0);
    assert!(state.selected_hit().is_none());
}

#[test]
fn select_next_and_prev_clamp_at_bounds() {
    let mut state = SearchState::new();
    state.results = vec![hit("2026-08-01", 1, "one"), hit("2026-08-02", 1, "two")];

    state.select_prev();
    assert_eq!(state.selected, 0);

    state.select_next();
    state.select_next();
    state.select_next();
    assert_eq!(state.selected, 1);
    assert_eq!(state.selected_hit().unwrap().line, "two");
}

#[test]
fn results_list_truncates_long_lines_to_terminal_width() {
    let long_line = "a very long line that should be truncated to fit the pane";
    let row = result_line(&hit("2026-08-30", 3, long_line), 38);
    assert!(row.starts_with("2026-08-30 L3"));
    assert!(!row.contains(long_line));
    assert_eq!(width(&row), 38);
    assert!(row.ends_with('…'));
}

#[test]
fn scroll_offset_keeps_the_selection_visible_and_moves_as_little_as_possible() {
    assert_eq!(scroll_offset(0, 4, 5, 20), 0);
    assert_eq!(scroll_offset(0, 5, 5, 20), 1);
    assert_eq!(scroll_offset(3, 5, 5, 20), 3);
    assert_eq!(scroll_offset(3, 2, 5, 20), 2);
    assert_eq!(scroll_offset(15, 19, 10, 20), 10);
    assert_eq!(scroll_offset(2, 2, 10, 3), 0);
    assert_eq!(scroll_offset(3, 7, 0, 20), 3);
}

#[test]
fn results_list_scrolls_to_keep_the_selection_on_screen() {
    let mut state = SearchState::new();
    state.results = (1..=10).map(|d| hit(&format!("2026-08-{d:02}"), 1, "x")).collect();
    for _ in 0..6 {
        state.select_next();
    }
    let offset = scroll_offset(state.offset, state.selected, 3, state.results.len());
    assert_eq!(offset, 4);
    let shown: Vec<String> = state.results[offset..offset + 3].iter().map(|h| result_line(h, 38)).collect();
    assert!(shown.iter().any(|l| l.contains("2026-08-07")));
    assert!(!shown.iter().any(|l| l.contains("2026-08-01")));
}

#[test]
fn empty_results_show_a_placeholder() {
    assert_eq!(no_matches(), "no matches");
}

#[test]
fn titles_name_the_query_and_fit_the_border() {
    assert_eq!(input_line("token"), "/token");
    assert_eq!(results_title("x", 10, "j k: move"), "Search results for \"x\" (10) — j k: move");
    assert_eq!(bordered_title("Search (Enter: search, Esc: cancel)", 12), "Search (E…");
    assert_eq!(bordered_title("short", 40), "short");
}
