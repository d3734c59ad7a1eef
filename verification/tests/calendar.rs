use humboldti_note::action::Action;
use humboldti_note::date::Date;
use humboldti_note::ui::calendar::{
    cell_look, density_bucket, keeps_in_range, month_grid, preview_lines, shift_month, shift_year, shows_preview,
    weekday_header_cells, CalendarRequest, CalendarState, Color, CELL_WIDTH, MIN_WIDTH_FOR_PREVIEW,
};
use humboldti_note::width::width;

fn day(y: i32, m: u32, d: u32) -> Date {
    Date::from_ymd_opt(y, m, d).unwrap()
}

#[test]
fn month_grid_starts_on_sunday_and_covers_six_weeks() {
    let grid = month_grid(day(2026, 8, 15));

    assert_eq!(grid.len(), 6);
    for week in &grid {
        assert_eq!(week.len(), 7);
        assert_eq!(week[0].num_days_from_sunday(), 0);
    }
    assert!(!day(2026, 8, 1).is_before(&grid[0][0]));
    assert!(!grid[5][6].is_before(&day(2026, 8, 31)));
    assert_eq!(grid[0][0], day(2026, 7, 26));
    assert_eq!(grid[5][6], day(2026, 9, 5));
}

#[test]
fn apply_moves_selection_by_day_and_week() {
    let mut state = CalendarState::new(day(2026, 3, 1));

    assert!(state.apply(Action::NextDay).is_none());
    assert_eq!(state.selected, day(2026, 3, 2));

    assert!(state.apply(Action::PrevDay).is_none());
    assert!(state.apply(Action::PrevDay).is_none());
    assert_eq!(state.selected, day(2026, 2, 28));

    assert!(state.apply(Action::NextWeek).is_none());
    assert_eq!(state.selected, day(2026, 3, 7));

    assert!(state.apply(Action::PrevWeek).is_none());
    assert_eq!(state.selected, day(2026, 2, 28));
}

#[test]
fn apply_moves_selection_by_month_and_year() {
    let mut state = CalendarState::new(day(2026, 3, 15));

    assert!(state.apply(Action::NextMonth).is_none());
    assert_eq!(state.selected, day(2026, 4, 15));

    assert!(state.apply(Action::PrevMonth).is_none());
    assert!(state.apply(Action::PrevMonth).is_none());
    assert_eq!(state.selected, day(2026, 2, 15));

    assert!(state.apply(Action::NextYear).is_none());
    assert_eq!(state.selected, day(2027, 2, 15));

    assert!(state.apply(Action::PrevYear).is_none());
    assert_eq!(state.selected, day(2026, 2, 15));
}

#[test]
fn shift_month_clamps_to_the_last_valid_day() {
    assert_eq!(shift_month(day(2026, 1, 31), 1), day(2026, 2, 28));
    assert_eq!(shift_month(day(2026, 1, 15), -1), day(2025, 12, 15));
}

#[test]
fn shift_year_clamps_leap_day_to_february_end() {
    assert_eq!(shift_year(day(2024, 2, 29), 1), day(2025, 2, 28));
}

#[test]
fn apply_open_and_quit_bubble_up_as_requests() {
    let mut state = CalendarState::new(day(2026, 3, 1));

    match state.apply(Action::Open) {
        Some(CalendarRequest::Open(date)) => assert_eq!(date, state.selected),
        _ => panic!("expected CalendarRequest::Open"),
    }
    assert!(matches!(state.apply(Action::Quit), Some(CalendarRequest::Quit)));
    assert!(matches!(state.apply(Action::EnterSearch), Some(CalendarRequest::Search)));
}

#[test]
fn next_then_previous_returns_to_the_same_day() {
    let mut state = CalendarState::new(day(2024, 12, 31));
    state.apply(Action::NextWeek);
    state.apply(Action::PrevWeek);
    assert_eq!(state.selected, day(2024, 12, 31));
}

#[test]
fn density_bucket_increases_with_size() {
    assert_eq!(density_bucket(0), (Color::Reset, None));

    let (light_bg, light_fg) = density_bucket(1);
    let (heavy_bg, heavy_fg) = density_bucket(1000);
    assert_ne!(light_bg, Color::Reset);
    assert_ne!(light_bg, heavy_bg);

    assert_eq!(light_fg, Some(Color::White));
    assert_eq!(heavy_fg, Some(Color::Black));
    assert_eq!(density_bucket(799), (Color::Green, Some(Color::White)));
    assert_eq!(density_bucket(800), (Color::LightGreen, Some(Color::Black)));
}

#[test]
fn weekday_header_fits_within_grid_width() {
    let cells = weekday_header_cells();
    assert_eq!(cells.len(), 7);
    assert!(cells[0].starts_with("日"));
    assert!(cells[6].starts_with("土"));
    let total: usize = cells.iter().map(|c| width(c)).sum();
    assert_eq!(total, CELL_WIDTH as usize * 7);
}

#[test]
fn preview_pane_is_hidden_below_min_width() {
    assert!(!shows_preview(MIN_WIDTH_FOR_PREVIEW - 1));
    assert!(shows_preview(MIN_WIDTH_FOR_PREVIEW));
}

#[test]
fn preview_shows_a_placeholder_for_a_day_without_a_note() {
    assert_eq!(preview_lines("", 40, 5), vec!["no notes for this day".to_string()]);
    assert_eq!(preview_lines("a\nb\nc\n", 40, 2), vec!["a".to_string(), "b".to_string()]);
}

#[test]
fn cells_outside_the_month_are_grayed_and_the_selection_reversed() {
    let selected = day(2026, 8, 15);
    let other = cell_look(day(2026, 7, 31), selected, 0);
    assert_eq!(other.fg, Some(Color::DarkGray));
    assert!(!other.reversed);
    let chosen = cell_look(selected, selected, 1000);
    assert_eq!(chosen.label, "15    ");
    assert_eq!(chosen.bg, Color::LightGreen);
    assert_eq!(chosen.fg, Some(Color::Black));
    assert!(chosen.reversed);
}

#[test]
fn moves_past_the_calendar_range_are_refused() {
    assert!(!keeps_in_range(Date::min(), Action::PrevDay));
    assert!(keeps_in_range(Date::min(), Action::NextDay));
    assert!(!keeps_in_range(day(262142, 12, 31), Action::NextWeek));
    assert!(!keeps_in_range(day(262142, 6, 1), Action::NextYear));
    assert!(keeps_in_range(day(262142, 6, 1), Action::NextMonth));
    assert!(!keeps_in_range(day(262142, 12, 1), Action::NextMonth));
}
