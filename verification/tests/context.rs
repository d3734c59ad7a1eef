use humboldti_note::date::Date;
use humboldti_note::notes::context::{context_dates, estimate_tokens, ContextCollector, ContextOutput};

fn day(y: i32, m: u32, d: u32) -> Date {
    Date::from_ymd_opt(y, m, d).unwrap()
}

/// Gathers as `pen context` does, with the notes held in memory.
fn gather(notes: &[(Date, &str)], since_days: u32, max_tokens: usize, today: Date) -> ContextOutput {
    let mut collector = ContextCollector::new(max_tokens);
    for date in context_dates(since_days, today) {
        if let Some((_, text)) = notes.iter().find(|(d, _)| *d == date) {
            if !collector.offer(date, text.to_string()) {
                break;
            }
        }
    }
    collector.finish()
}

#[test]
fn estimate_tokens_rounds_up_half_a_token() {
    assert_eq!(estimate_tokens(""), 0);
    assert_eq!(estimate_tokens("ab"), 1);
    assert_eq!(estimate_tokens("abc"), 2);
    assert_eq!(estimate_tokens("日本語"), 2);
}

#[test]
fn context_collects_days_within_range_oldest_first() {
    let today = day(2026, 8, 31);
    let notes = [(today, "today"), (day(2026, 8, 30), "yesterday"), (day(2026, 8, 26), "too old")];

    let out = gather(&notes, 3, 10_000, today);

    assert_eq!(out.days.len(), 2);
    assert_eq!(out.days[0].0, day(2026, 8, 30));
    assert_eq!(out.days[1].0, today);
}

#[test]
fn context_skips_days_with_no_note() {
    let today = day(2026, 8, 31);
    let notes = [(today, "today"), (day(2026, 8, 29), "two days ago")];

    let out = gather(&notes, 3, 10_000, today);

    assert_eq!(out.days.len(), 2);
    assert_eq!(out.days[0].0, day(2026, 8, 29));
    assert_eq!(out.days[1].0, today);
}

#[test]
fn context_stops_at_a_day_boundary_when_budget_would_be_exceeded() {
    let today = day(2026, 8, 31);
    let notes = [(today, "0123456789"), (day(2026, 8, 30), "0123456789")];

    let out = gather(&notes, 7, 6, today);

    assert_eq!(out.days.len(), 1);
    assert_eq!(out.days[0].0, today);
    assert_eq!(out.estimated_tokens, 5);
}

#[test]
fn context_with_a_huge_range_does_not_overflow() {
    let today = day(2026, 8, 31);
    let notes = [(today, "today")];

    let out = gather(&notes, u32::MAX, 4000, today);

    assert_eq!(out.days.len(), 1);
}

#[test]
fn context_near_the_earliest_representable_date_does_not_overflow() {
    let out = gather(&[], 30, 4000, Date::min());
    assert!(out.days.is_empty());
    assert_eq!(context_dates(30, Date::min()), vec![Date::min()]);
}

#[test]
fn context_returns_a_single_day_even_if_it_alone_exceeds_the_budget() {
    let today = day(2026, 8, 31);
    let notes = [(today, "0123456789")];

    let out = gather(&notes, 7, 1, today);

    assert_eq!(out.days.len(), 1);
    assert_eq!(out.days[0].0, today);
    assert_eq!(out.estimated_tokens, 5);
}

#[test]
fn context_dates_run_back_from_today() {
    let today = day(2026, 3, 2);
    assert_eq!(context_dates(3, today), vec![today, day(2026, 3, 1), day(2026, 2, 28)]);
    assert_eq!(context_dates(0, today), vec![today]);
}

#[test]
fn markdown_heads_each_day_and_ends_with_the_estimate() {
    let out = ContextOutput {
        days: vec![(day(2026, 8, 30), "a\n".to_string()), (day(2026, 8, 31), "b\n".to_string())],
        estimated_tokens: 2,
    };
    assert_eq!(
        out.to_markdown(4000),
        "# 2026-08-30\na\n\n# 2026-08-31\nb\n\n<!-- estimated tokens: 2 / budget: 4000 -->"
    );
    let empty = ContextOutput { days: vec![], estimated_tokens: 0 };
    assert_eq!(empty.to_markdown(4000), "no notes in range");
}
