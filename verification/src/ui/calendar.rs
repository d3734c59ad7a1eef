//! The calendar screen: moving the selected day, the month grid, and how a
//! day's cell looks.
use vstd::prelude::*;

use crate::action::Action;
use crate::date::{self, backward, day_number, days_in_month, forward, month_len, weekday_from_sunday, Date, MAX_YEAR, MIN_YEAR};
use crate::text::{decimal, decimal_spec, views};
use crate::width::{self, padded, wrapped};

verus! {

broadcast use vstd::string::group_string_axioms;

/// Below this many columns the preview pane is dropped and only the grid is shown.
pub const MIN_WIDTH_FOR_PREVIEW: u16 = 100;

/// Columns of one day cell.
pub const CELL_WIDTH: u16 = 6;

/// The weekday headers, Sunday first.
pub open spec fn weekday_headers() -> Seq<Seq<char>> {
    seq!["日"@, "月"@, "火"@, "水"@, "木"@, "金"@, "土"@]
}

/// The header row of the grid: each weekday name padded to a cell.
pub fn weekday_header_cells() -> (cells: Vec<String>)
    ensures
        views(cells@) == weekday_headers().map_values(|h: Seq<char>| padded(h, CELL_WIDTH as nat)),
{
    let names: [&str; 7] = ["日", "月", "火", "水", "木", "金", "土"];
    proof {
        reveal_strlit("日");
        reveal_strlit("月");
        reveal_strlit("火");
        reveal_strlit("水");
        reveal_strlit("木");
        reveal_strlit("金");
        reveal_strlit("土");
    }
    let ghost want = weekday_headers().map_values(|h: Seq<char>| padded(h, CELL_WIDTH as nat));
    assert(names@.map_values(|n: &str| n@) =~= weekday_headers());
    assert(forall|k: int| 0 <= k < 7 ==> (#[trigger] weekday_headers()[k]).len() == 1);
    let mut cells: Vec<String> = Vec::new();
    let mut i: usize = 0;
    while i < 7
        invariant
            i <= 7,
            names@.map_values(|n: &str| n@) == weekday_headers(),
            forall|k: int| 0 <= k < 7 ==> (#[trigger] weekday_headers()[k]).len() == 1,
            want == weekday_headers().map_values(|h: Seq<char>| padded(h, CELL_WIDTH as nat)),
            views(cells@) == want.take(i as int),
        decreases 7 - i,
    {
        let name = names[i];
        assert(name@ == weekday_headers()[i as int]);
        assert(name@.len() == 1);
        let cell = width::pad(name, CELL_WIDTH as usize);
        proof {
            crate::text::lemma_views_push(cells@, cell);
            assert(want.take(i + 1) == want.take(i as int).push(want[i as int]));
        }
        cells.push(cell);
        i += 1;
    }
    assert(want.take(7) == want);
    cells
}

/// The state of the calendar screen: the selected day.
pub struct CalendarState {
    pub selected: Date,
}

/// What the calendar screen asks of the program around it.
#[derive(Debug, Clone, Copy, PartialEq, Eq, Structural)]
pub enum CalendarRequest {
    Open(Date),
    Search,
    Quit,
}

/// The month `delta` months away: the same day of the month, or the last day
/// of the target month when it is shorter (31 January plus one month is the
/// end of February).
pub open spec fn shift_month_spec(d: Date, delta: int) -> Date {
    let total = d.year * 12 + (d.month - 1) + delta;
    let y = total / 12;
    let m = total % 12 + 1;
    let day = if (d.day as int) <= month_len(y, m) {
        d.day as int
    } else {
        month_len(y, m)
    };
    Date { year: y as i32, month: m as u32, day: day as u32 }
}

/// Whether the month `delta` months away is inside the calendar range.
pub open spec fn month_shift_in_range(d: Date, delta: int) -> bool {
    let total = d.year * 12 + (d.month - 1) + delta;
    MIN_YEAR <= total / 12 <= MAX_YEAR
}

/// The same day `delta` years away, or the end of February when the day is
/// a 29 February and the target year is not a leap year.
pub open spec fn shift_year_spec(d: Date, delta: int) -> Date {
    let y = d.year + delta;
    let day = if (d.day as int) <= month_len(y, d.month as int) {
        d.day as int
    } else {
        month_len(y, d.month as int)
    };
    Date { year: y as i32, month: d.month, day: day as u32 }
}

pub open spec fn year_shift_in_range(d: Date, delta: int) -> bool {
    MIN_YEAR <= d.year + delta <= MAX_YEAR
}

/// Moving by months: the month count (twelve to a year, `year * 12 +
/// month - 1`) moves by exactly `delta`, the day stays where the target
/// month has it and becomes the month's last day otherwise, and the result
/// is a valid date.
pub proof fn lemma_month_shift_moves_the_month_count(d: Date, delta: int)
    requires
        d.wf(),
        month_shift_in_range(d, delta),
    ensures
        shift_month_spec(d, delta).year * 12 + (shift_month_spec(d, delta).month - 1) == d.year * 12 + (d.month
            - 1) + delta,
        1 <= shift_month_spec(d, delta).month <= 12,
        shift_month_spec(d, delta).day == if (d.day as int) <= month_len(
            shift_month_spec(d, delta).year as int,
            shift_month_spec(d, delta).month as int,
        ) {
            d.day as int
        } else {
            month_len(shift_month_spec(d, delta).year as int, shift_month_spec(d, delta).month as int)
        },
        shift_month_spec(d, delta).wf(),
{
    let total = d.year * 12 + (d.month - 1) + delta;
    vstd::arithmetic::div_mod::lemma_fundamental_div_mod(total, 12);
    assert(0 <= total % 12 < 12);
    let y = total / 12;
    let m = total % 12 + 1;
    assert(28 <= month_len(y, m) <= 31);
}

/// Moving a month forward and back again (or back and forward) returns to
/// the same day when that day exists in every month (the 28th or before).
pub proof fn lemma_month_shift_undone(d: Date, delta: int)
    requires
        d.wf(),
        d.day <= 28,
        month_shift_in_range(d, delta),
    ensures
        month_shift_in_range(shift_month_spec(d, delta), -delta),
        shift_month_spec(shift_month_spec(d, delta), -delta) == d,
{
    let e = shift_month_spec(d, delta);
    lemma_month_shift_moves_the_month_count(d, delta);
    let total = e.year * 12 + (e.month - 1) - delta;
    assert(total == d.year * 12 + (d.month - 1));
    vstd::arithmetic::div_mod::lemma_fundamental_div_mod(total, 12);
    vstd::arithmetic::div_mod::lemma_fundamental_div_mod_converse(total, 12, d.year as int, d.month - 1);
    lemma_month_shift_moves_the_month_count(e, -delta);
}

/// Moving by years: the year moves by exactly `delta`, the month stays, and
/// the day stays where the target year has it (the 29th of February
/// becomes the 28th in a common year).
pub proof fn lemma_year_shift_moves_the_year(d: Date, delta: int)
    requires
        d.wf(),
        year_shift_in_range(d, delta),
    ensures
        shift_year_spec(d, delta).year == d.year + delta,
        shift_year_spec(d, delta).month == d.month,
        shift_year_spec(d, delta).day == if (d.day as int) <= month_len(d.year + delta, d.month as int) {
            d.day as int
        } else {
            month_len(d.year + delta, d.month as int)
        },
        shift_year_spec(d, delta).wf(),
{
}

/// Moves `date` by `delta` months, keeping the day of the month where the
/// target month has it and taking the month's last day otherwise.
pub fn shift_month(date: Date, delta: i32) -> (r: Date)
    requires
        date.wf(),
        month_shift_in_range(date, delta as int),
    ensures
        r == shift_month_spec(date, delta as int),
        r.wf(),
{
    let total: i64 = date.year as i64 * 12 + (date.month as i64 - 1) + delta as i64;
    let shifted: i64 = total + 12 * 262144;
    let y: i64 = shifted / 12 - 262144;
    let m: i64 = shifted % 12 + 1;
    assert(y == total / 12 && m == total % 12 + 1);
    let len = days_in_month(y as i32, m as u32);
    let day = if date.day <= len {
        date.day
    } else {
        len
    };
    Date { year: y as i32, month: m as u32, day }
}

/// Moves `date` by `delta` years, taking the end of the month when the day
/// does not exist in the target year.
pub fn shift_year(date: Date, delta: i32) -> (r: Date)
    requires
        date.wf(),
        year_shift_in_range(date, delta as int),
    ensures
        r == shift_year_spec(date, delta as int),
        r.wf(),
{
    let y: i32 = date.year + delta;
    let len = days_in_month(y, date.month);
    let day = if date.day <= len {
        date.day
    } else {
        len
    };
    Date { year: y, month: date.month, day }
}

/// Whether applying `action` keeps the selection inside the calendar range.
pub open spec fn can_apply(d: Date, action: Action) -> bool {
    match action {
        Action::PrevDay => backward(d, 1) is Some,
        Action::NextDay => forward(d, 1) is Some,
        Action::PrevWeek => backward(d, 7) is Some,
        Action::NextWeek => forward(d, 7) is Some,
        Action::PrevMonth => month_shift_in_range(d, -1),
        Action::NextMonth => month_shift_in_range(d, 1),
        Action::PrevYear => year_shift_in_range(d, -1),
        Action::NextYear => year_shift_in_range(d, 1),
        _ => true,
    }
}

/// The selection after `action`.
pub open spec fn apply_selected(d: Date, action: Action) -> Date {
    match action {
        Action::PrevDay => backward(d, 1)->0,
        Action::NextDay => forward(d, 1)->0,
        Action::PrevWeek => backward(d, 7)->0,
        Action::NextWeek => forward(d, 7)->0,
        Action::PrevMonth => shift_month_spec(d, -1),
        Action::NextMonth => shift_month_spec(d, 1),
        Action::PrevYear => shift_year_spec(d, -1),
        Action::NextYear => shift_year_spec(d, 1),
        _ => d,
    }
}

/// What `action` asks of the program around the calendar screen.
pub open spec fn apply_request(d: Date, action: Action) -> Option<CalendarRequest> {
    match action {
        Action::Open => Some(CalendarRequest::Open(d)),
        Action::Quit => Some(CalendarRequest::Quit),
        Action::EnterSearch => Some(CalendarRequest::Search),
        _ => None,
    }
}

proof fn lemma_forward_prefix(d: Date, n: nat, i: nat)
    requires
        i <= n,
        forward(d, n) is Some,
    ensures
        forward(d, i) is Some,
    decreases n - i,
{
    if i < n {
        lemma_forward_prefix(d, n, i + 1);
    }
}

proof fn lemma_backward_prefix(d: Date, n: nat, i: nat)
    requires
        i <= n,
        backward(d, n) is Some,
    ensures
        backward(d, i) is Some,
    decreases n - i,
{
    if i < n {
        lemma_backward_prefix(d, n, i + 1);
    }
}

proof fn lemma_forward_wf(d: Date, n: nat)
    requires
        d.wf(),
        forward(d, n) is Some,
    ensures
        forward(d, n)->0.wf(),
        day_number(forward(d, n)->0) == day_number(d) + n,
    decreases n,
{
    if n > 0 {
        lemma_forward_wf(d, (n - 1) as nat);
        date::lemma_next_day_number(forward(d, (n - 1) as nat)->0);
    }
}

proof fn lemma_backward_wf(d: Date, n: nat)
    requires
        d.wf(),
        backward(d, n) is Some,
    ensures
        backward(d, n)->0.wf(),
        day_number(backward(d, n)->0) == day_number(d) - n,
    decreases n,
{
    if n > 0 {
        lemma_backward_wf(d, (n - 1) as nat);
        let e = backward(d, (n - 1) as nat)->0;
        date::lemma_prev_next(e);
        date::lemma_next_day_number(e.prev()->0);
    }
}

/// `n` days after `d`.
pub fn add_days(d: Date, n: u32) -> (r: Date)
    requires
        d.wf(),
        forward(d, n as nat) is Some,
    ensures
        r == forward(d, n as nat)->0,
        r.wf(),
{
    let mut cur = d;
    let mut i: u32 = 0;
    while i < n
        invariant
            i <= n,
            d.wf(),
            forward(d, n as nat) is Some,
            forward(d, i as nat) == Some(cur),
            cur.wf(),
        decreases n - i,
    {
        proof {
            lemma_forward_prefix(d, n as nat, (i + 1) as nat);
        }
        cur = cur.succ_opt().unwrap();
        i += 1;
    }
    cur
}

/// `n` days before `d`.
pub fn sub_days(d: Date, n: u32) -> (r: Date)
    requires
        d.wf(),
        backward(d, n as nat) is Some,
    ensures
        r == backward(d, n as nat)->0,
        r.wf(),
{
    let mut cur = d;
    let mut i: u32 = 0;
    while i < n
        invariant
            i <= n,
            d.wf(),
            backward(d, n as nat) is Some,
            backward(d, i as nat) == Some(cur),
            cur.wf(),
        decreases n - i,
    {
        proof {
            lemma_backward_prefix(d, n as nat, (i + 1) as nat);
        }
        cur = cur.pred_opt().unwrap();
        i += 1;
    }
    cur
}

proof fn lemma_forward_none_stays(d: Date, i: nat, n: nat)
    requires
        i <= n,
        forward(d, i) is None,
    ensures
        forward(d, n) is None,
    decreases n - i,
{
    if i < n {
        assert(forward(d, (i + 1) as nat) is None);
        lemma_forward_none_stays(d, (i + 1) as nat, n);
    }
}

proof fn lemma_backward_none_stays(d: Date, i: nat, n: nat)
    requires
        i <= n,
        backward(d, i) is None,
    ensures
        backward(d, n) is None,
    decreases n - i,
{
    if i < n {
        assert(backward(d, (i + 1) as nat) is None);
        lemma_backward_none_stays(d, (i + 1) as nat, n);
    }
}

proof fn lemma_backward_front(d: Date, n: nat)
    requires
        d.prev() is Some,
    ensures
        backward(d, n + 1) == backward(d.prev()->0, n),
    decreases n,
{
    let p = d.prev()->0;
    if n > 0 {
        lemma_backward_front(d, (n - 1) as nat);
        assert(backward(d, n) == backward(p, (n - 1) as nat));
        assert(backward(d, n + 1) == match backward(d, n) {
            Some(e) => e.prev(),
            None => None,
        });
        assert(backward(p, n) == match backward(p, (n - 1) as nat) {
            Some(e) => e.prev(),
            None => None,
        });
    } else {
        assert(backward(d, 1) == match backward(d, 0) {
            Some(e) => e.prev(),
            None => None,
        });
    }
}

proof fn lemma_back_after_forward(d: Date, n: nat)
    requires
        d.wf(),
        forward(d, n) is Some,
    ensures
        backward(forward(d, n)->0, n) == Some(d),
    decreases n,
{
    if n > 0 {
        lemma_forward_prefix(d, n, (n - 1) as nat);
        let e = forward(d, (n - 1) as nat)->0;
        lemma_forward_wf(d, (n - 1) as nat);
        date::lemma_prev_next(e);
        let f = e.next()->0;
        assert(forward(d, n) == Some(f));
        lemma_backward_front(f, (n - 1) as nat);
        lemma_back_after_forward(d, (n - 1) as nat);
    }
}

/// Moving the selection a day (or a week) forward and then back again
/// returns to the day it started from.
pub proof fn lemma_forward_then_back_returns(d: Date, action: Action)
    requires
        d.wf(),
        action == Action::NextDay || action == Action::NextWeek,
        can_apply(d, action),
    ensures
        ({
            let back = if action == Action::NextDay {
                Action::PrevDay
            } else {
                Action::PrevWeek
            };
            &&& can_apply(apply_selected(d, action), back)
            &&& apply_selected(apply_selected(d, action), back) == d
        }),
{
    let n: nat = if action == Action::NextDay {
        1
    } else {
        7
    };
    lemma_back_after_forward(d, n);
}

/// What each move does to the selection: a day or a week moves the running
/// day count by one or seven, a month moves the month count (`year * 12 +
/// month - 1`) by one, a year moves the year by one and keeps the month; the
/// selection stays a valid date.
pub proof fn lemma_moves_by_their_unit(d: Date, action: Action)
    requires
        d.wf(),
        can_apply(d, action),
    ensures
        apply_selected(d, action).wf(),
        action == Action::NextDay ==> day_number(apply_selected(d, action)) == day_number(d) + 1,
        action == Action::PrevDay ==> day_number(apply_selected(d, action)) == day_number(d) - 1,
        action == Action::NextWeek ==> day_number(apply_selected(d, action)) == day_number(d) + 7,
        action == Action::PrevWeek ==> day_number(apply_selected(d, action)) == day_number(d) - 7,
        action == Action::NextMonth ==> apply_selected(d, action).year * 12 + apply_selected(d, action).month
            == d.year * 12 + d.month + 1,
        action == Action::PrevMonth ==> apply_selected(d, action).year * 12 + apply_selected(d, action).month
            == d.year * 12 + d.month - 1,
        action == Action::NextYear ==> apply_selected(d, action).year == d.year + 1
            && apply_selected(d, action).month == d.month,
        action == Action::PrevYear ==> apply_selected(d, action).year == d.year - 1
            && apply_selected(d, action).month == d.month,
{
    match action {
        Action::NextDay => lemma_forward_wf(d, 1),
        Action::NextWeek => lemma_forward_wf(d, 7),
        Action::PrevDay => lemma_backward_wf(d, 1),
        Action::PrevWeek => lemma_backward_wf(d, 7),
        Action::NextMonth => lemma_month_shift_moves_the_month_count(d, 1),
        Action::PrevMonth => lemma_month_shift_moves_the_month_count(d, -1),
        Action::NextYear => lemma_year_shift_moves_the_year(d, 1),
        Action::PrevYear => lemma_year_shift_moves_the_year(d, -1),
        _ => {},
    }
}

/// Whether the day `n` days after `d` is inside the calendar range.
fn forward_exists(d: Date, n: u32) -> (r: bool)
    requires
        d.wf(),
    ensures
        r == forward(d, n as nat) is Some,
{
    let mut cur = d;
    let mut i: u32 = 0;
    while i < n
        invariant
            i <= n,
            d.wf(),
            forward(d, i as nat) == Some(cur),
            cur.wf(),
        decreases n - i,
    {
        match cur.succ_opt() {
            Some(e) => {
                cur = e;
            },
            None => {
                proof {
                    assert(forward(d, (i + 1) as nat) is None);
                    lemma_forward_none_stays(d, (i + 1) as nat, n as nat);
                }
                return false;
            },
        }
        i += 1;
    }
    true
}

/// Whether the day `n` days before `d` is inside the calendar range.
fn backward_exists(d: Date, n: u32) -> (r: bool)
    requires
        d.wf(),
    ensures
        r == backward(d, n as nat) is Some,
{
    let mut cur = d;
    let mut i: u32 = 0;
    while i < n
        invariant
            i <= n,
            d.wf(),
            backward(d, i as nat) == Some(cur),
            cur.wf(),
        decreases n - i,
    {
        match cur.pred_opt() {
            Some(e) => {
                cur = e;
            },
            None => {
                proof {
                    assert(backward(d, (i + 1) as nat) is None);
                    lemma_backward_none_stays(d, (i + 1) as nat, n as nat);
                }
                return false;
            },
        }
        i += 1;
    }
    true
}

/// Whether moving the selection by `action` stays inside the calendar range
/// (beyond it there is no date to select).
pub fn keeps_in_range(d: Date, action: Action) -> (r: bool)
    requires
        d.wf(),
    ensures
        r == can_apply(d, action),
{
    match action {
        Action::PrevDay => backward_exists(d, 1),
        Action::NextDay => forward_exists(d, 1),
        Action::PrevWeek => backward_exists(d, 7),
        Action::NextWeek => forward_exists(d, 7),
        Action::PrevMonth | Action::NextMonth => {
            let delta: i64 = if action == Action::PrevMonth {
                -1
            } else {
                1
            };
            let total: i64 = d.year as i64 * 12 + (d.month as i64 - 1) + delta;
            MIN_YEAR as i64 * 12 <= total && total < (MAX_YEAR as i64 + 1) * 12
        },
        Action::PrevYear => d.year > MIN_YEAR,
        Action::NextYear => d.year < MAX_YEAR,
        _ => true,
    }
}

impl CalendarState {
    /// The calendar with `today` selected.
    pub fn new(today: Date) -> (s: CalendarState)
        ensures
            s.selected == today,
    {
        CalendarState { selected: today }
    }

    /// Moves the selection or turns `action` into a request for the program
    /// around the screen (opening a note, searching, quitting). Search-screen
    /// actions mean nothing here.
    pub fn apply(&mut self, action: Action) -> (r: Option<CalendarRequest>)
        requires
            old(self).selected.wf(),
            can_apply(old(self).selected, action),
        ensures
            final(self).selected == apply_selected(old(self).selected, action),
            final(self).selected.wf(),
            r == apply_request(old(self).selected, action),
    {
        match action {
            Action::PrevDay => {
                self.selected = sub_days(self.selected, 1);
                None
            },
            Action::NextDay => {
                self.selected = add_days(self.selected, 1);
                None
            },
            Action::PrevWeek => {
                self.selected = sub_days(self.selected, 7);
                None
            },
            Action::NextWeek => {
                self.selected = add_days(self.selected, 7);
                None
            },
            Action::PrevMonth => {
                self.selected = shift_month(self.selected, -1);
                None
            },
            Action::NextMonth => {
                self.selected = shift_month(self.selected, 1);
                None
            },
            Action::PrevYear => {
                self.selected = shift_year(self.selected, -1);
                None
            },
            Action::NextYear => {
                self.selected = shift_year(self.selected, 1);
                None
            },
            Action::Open => Some(CalendarRequest::Open(self.selected)),
            Action::Quit => Some(CalendarRequest::Quit),
            Action::EnterSearch => Some(CalendarRequest::Search),
            Action::InputChar(_) | Action::Backspace | Action::Confirm | Action::Cancel
            | Action::NextResult | Action::PrevResult => None,
        }
    }
}

/// The first day of `d`'s month.
pub open spec fn month_start(d: Date) -> Date {
    Date { day: 1, ..d }
}

/// The Sunday on or before the first day of `d`'s month, where the grid begins.
pub open spec fn grid_start(d: Date) -> Option<Date> {
    backward(month_start(d), weekday_from_sunday(month_start(d)) as nat)
}

/// Whether the whole six-week grid around `d`'s month is inside the range.
pub open spec fn grid_in_range(d: Date) -> bool {
    grid_start(d) matches Some(s) && forward(s, 41) is Some
}

/// Whether the six-week grid around `selected`'s month can be drawn: near
/// the ends of the calendar range it would run past them.
pub fn grid_fits(selected: Date) -> (r: bool)
    requires
        selected.wf(),
    ensures
        r == grid_in_range(selected),
{
    let first = Date { day: 1, ..selected };
    let leading = first.num_days_from_sunday();
    if !backward_exists(first, leading) {
        return false;
    }
    let start = sub_days(first, leading);
    forward_exists(start, 41)
}

/// The month of `selected` as a Sunday-first grid of six weeks, with days of
/// the neighbouring months filling the rows.
pub fn month_grid(selected: Date) -> (grid: Vec<Vec<Date>>)
    requires
        selected.wf(),
        grid_in_range(selected),
    ensures
        grid@.len() == 6,
        forall|r: int| 0 <= r < 6 ==> #[trigger] grid@[r]@.len() == 7,
        forall|r: int, c: int|
            0 <= r < 6 && 0 <= c < 7 ==> grid@[r]@[c] == forward(grid_start(selected)->0, (7 * r + c) as nat)->0,
{
    let first = Date { day: 1, ..selected };
    let leading = first.num_days_from_sunday();
    let start = sub_days(first, leading);
    let ghost s = start;
    let mut grid: Vec<Vec<Date>> = Vec::new();
    let mut row: usize = 0;
    while row < 6
        invariant
            row <= 6,
            start.wf(),
            s == start,
            s == grid_start(selected)->0,
            forward(s, 41) is Some,
            grid@.len() == row,
            forall|r: int| 0 <= r < row ==> #[trigger] grid@[r]@.len() == 7,
            forall|r: int, c: int|
                0 <= r < row && 0 <= c < 7 ==> grid@[r]@[c] == forward(s, (7 * r + c) as nat)->0,
        decreases 6 - row,
    {
        let mut week: Vec<Date> = Vec::new();
        let mut col: usize = 0;
        while col < 7
            invariant
                col <= 7,
                row < 6,
                start.wf(),
                s == start,
                forward(s, 41) is Some,
                week@.len() == col,
                forall|c: int| 0 <= c < col ==> week@[c] == forward(s, (7 * row + c) as nat)->0,
            decreases 7 - col,
        {
            proof {
                lemma_forward_prefix(s, 41, (7 * row + col) as nat);
            }
            let cell = add_days(start, (row * 7 + col) as u32);
            week.push(cell);
            col += 1;
        }
        grid.push(week);
        row += 1;
    }
    grid
}

proof fn lemma_prev_weekday(d: Date)
    requires
        d.wf(),
        d.prev() is Some,
    ensures
        weekday_from_sunday(d) == (weekday_from_sunday(d.prev()->0) + 1) % 7,
{
    date::lemma_prev_next(d);
    date::lemma_next_weekday(d.prev()->0);
}

#[verifier::spinoff_prover]
proof fn lemma_backward_weekday(d: Date, n: nat)
    requires
        d.wf(),
        backward(d, n) is Some,
        n <= weekday_from_sunday(d),
    ensures
        weekday_from_sunday(backward(d, n)->0) == weekday_from_sunday(d) - n,
    decreases n,
{
    if n > 0 {
        lemma_backward_prefix(d, n, (n - 1) as nat);
        lemma_backward_weekday(d, (n - 1) as nat);
        lemma_backward_wf(d, (n - 1) as nat);
        lemma_prev_weekday(backward(d, (n - 1) as nat)->0);
    }
}

#[verifier::spinoff_prover]
proof fn lemma_forward_weekday(d: Date, n: nat)
    requires
        d.wf(),
        forward(d, n) is Some,
    ensures
        weekday_from_sunday(forward(d, n)->0) == (weekday_from_sunday(d) + n) % 7,
    decreases n,
{
    if n > 0 {
        lemma_forward_prefix(d, n, (n - 1) as nat);
        lemma_forward_weekday(d, (n - 1) as nat);
        lemma_forward_wf(d, (n - 1) as nat);
        date::lemma_next_weekday(forward(d, (n - 1) as nat)->0);
    }
}

/// The month grid is Sunday-first and covers the whole month: every row
/// begins on a Sunday, the first cell is on or before the 1st, and the last
/// cell is on or after the month's last day.
pub proof fn lemma_month_grid_shape(selected: Date, r: nat)
    requires
        selected.wf(),
        grid_in_range(selected),
        r < 6,
    ensures
        weekday_from_sunday(forward(grid_start(selected)->0, 7 * r)->0) == 0,
        day_number(grid_start(selected)->0) <= day_number(month_start(selected)),
        day_number(forward(grid_start(selected)->0, 41)->0) >= day_number(month_start(selected)) + month_len(
            selected.year as int,
            selected.month as int,
        ) - 1,
{
    let m = month_start(selected);
    let w = weekday_from_sunday(m) as nat;
    let s = grid_start(selected)->0;
    lemma_backward_weekday(m, w);
    lemma_backward_wf(m, w);
    lemma_forward_prefix(s, 41, 7 * r);
    lemma_forward_weekday(s, 7 * r);
    lemma_forward_wf(s, 41);
}

/// A terminal color, named as ratatui names them.
#[derive(Debug, Clone, Copy, PartialEq, Eq, Structural)]
pub enum Color {
    Reset,
    Green,
    LightGreen,
    White,
    Black,
    DarkGray,
}

/// Background and text color of a day cell by the size of its note: nothing
/// written, some, or a lot. The text color is always set explicitly against
/// a colored background, so that it stays readable in light and dark themes.
pub open spec fn density_spec(size: u64) -> (Color, Option<Color>) {
    if size == 0 {
        (Color::Reset, None)
    } else if size <= 799 {
        (Color::Green, Some(Color::White))
    } else {
        (Color::LightGreen, Some(Color::Black))
    }
}

/// The colors of a day cell whose note is `size` bytes long.
pub fn density_bucket(size: u64) -> (r: (Color, Option<Color>))
    ensures
        r == density_spec(size),
{
    if size == 0 {
        (Color::Reset, None)
    } else if size <= 799 {
        (Color::Green, Some(Color::White))
    } else {
        (Color::LightGreen, Some(Color::Black))
    }
}

/// How one day cell is drawn.
pub struct CellLook {
    pub label: String,
    pub bg: Color,
    pub fg: Option<Color>,
    pub reversed: bool,
}

/// A day cell: the day number padded to the cell width, colored by the size
/// of its note, grayed out when it belongs to a neighbouring month, and shown
/// reversed when selected.
pub fn cell_look(date: Date, selected: Date, note_size: u64) -> (look: CellLook)
    requires
        date.wf(),
    ensures
        look.label@ == padded(decimal_spec(date.day as nat), CELL_WIDTH as nat),
        look.bg == density_spec(note_size).0,
        look.fg == (if date.month != selected.month {
            Some(Color::DarkGray)
        } else {
            density_spec(note_size).1
        }),
        look.reversed == (date == selected),
{
    let day = decimal(date.day as u64);
    proof {
        lemma_decimal_short(date.day as nat);
    }
    let label = width::pad(day.as_str(), CELL_WIDTH as usize);
    let (bg, fg) = density_bucket(note_size);
    let fg = if date.month != selected.month {
        Some(Color::DarkGray)
    } else {
        fg
    };
    CellLook { label, bg, fg, reversed: date == selected }
}

proof fn lemma_decimal_short(n: nat)
    requires
        n < 100,
    ensures
        decimal_spec(n).len() <= 2,
{
    if n >= 10 {
        assert(n / 10 < 10);
        assert(decimal_spec(n / 10).len() == 1);
    }
}

/// Whether the preview pane fits beside the grid.
pub fn shows_preview(width: u16) -> (r: bool)
    ensures
        r == (width >= MIN_WIDTH_FOR_PREVIEW),
{
    width >= MIN_WIDTH_FOR_PREVIEW
}

/// The preview of the selected day's note: its text (or a placeholder when
/// there is none) wrapped to the pane width, cut to the pane height.
pub fn preview_lines(content: &str, width: usize, height: usize) -> (lines: Vec<String>)
    requires
        width::width_fits(content@),
    ensures
        views(lines@) == ({
            let text = if content@.len() == 0 {
                "no notes for this day"@
            } else {
                content@
            };
            let all = wrapped(text, width as nat);
            if all.len() <= height {
                all
            } else {
                all.take(height as int)
            }
        }),
{
    let placeholder = "no notes for this day";
    proof {
        reveal_strlit("no notes for this day");
    }
    let all = if content.is_empty() {
        width::wrap(placeholder, width)
    } else {
        width::wrap(content, width)
    };
    let mut lines: Vec<String> = Vec::new();
    let mut i: usize = 0;
    while i < all.len() && i < height
        invariant
            i <= all.len(),
            i <= height,
            views(lines@) == views(all@).take(i as int),
        decreases all.len() - i,
    {
        let line = all[i].clone();
        proof {
            crate::text::lemma_views_push(lines@, line);
            assert(views(all@).take(i + 1) == views(all@).take(i as int).push(all@[i as int]@));
        }
        lines.push(line);
        i += 1;
    }
    proof {
        let text = if content@.len() == 0 {
            "no notes for this day"@
        } else {
            content@
        };
        assert(views(all@) == wrapped(text, width as nat));
        if all.len() <= height {
            assert(views(all@).take(all.len() as int) == views(all@));
        } else {
            assert(i == height);
        }
    }
    lines
}

} // verus!
