//! Calendar dates of the proleptic Gregorian calendar, over the range that
//! `chrono::NaiveDate` covers, and the `YYYY-MM-DD` text of a date.
use chrono::Datelike;
use vstd::prelude::*;

use crate::text::{decimal_padded, push_char, push_str, zero_padded};

verus! {

broadcast use vstd::string::group_string_axioms;

/// The earliest year a date can have (`chrono::NaiveDate::MIN` is its 1 January).
pub const MIN_YEAR: i32 = -262143;

/// The latest year a date can have (`chrono::NaiveDate::MAX` is its 31 December).
pub const MAX_YEAR: i32 = 262142;

/// A calendar date. Every date this crate makes is `wf`.
#[derive(Debug, Clone, Copy, PartialEq, Eq, Structural)]
pub struct Date {
    pub year: i32,
    pub month: u32,
    pub day: u32,
}

pub open spec fn is_leap(y: int) -> bool {
    (y % 4 == 0 && y % 100 != 0) || y % 400 == 0
}

/// Days in month `m` of year `y`.
pub open spec fn month_len(y: int, m: int) -> int {
    if m == 2 {
        if is_leap(y) {
            29
        } else {
            28
        }
    } else if m == 4 || m == 6 || m == 9 || m == 11 {
        30
    } else {
        31
    }
}

pub open spec fn valid_ymd(y: int, m: int, d: int) -> bool {
    &&& MIN_YEAR <= y <= MAX_YEAR
    &&& 1 <= m <= 12
    &&& 1 <= d <= month_len(y, m)
}

impl Date {
    pub open spec fn wf(self) -> bool {
        valid_ymd(self.year as int, self.month as int, self.day as int)
    }

    /// The earliest date, `-262143-01-01`.
    pub open spec fn spec_min() -> Date {
        Date { year: MIN_YEAR, month: 1, day: 1 }
    }

    /// The next day, if there is one.
    pub open spec fn next(self) -> Option<Date> {
        if (self.day as int) < month_len(self.year as int, self.month as int) {
            Some(Date { day: (self.day + 1) as u32, ..self })
        } else if self.month < 12 {
            Some(Date { month: (self.month + 1) as u32, day: 1, ..self })
        } else if self.year < MAX_YEAR {
            Some(Date { year: (self.year + 1) as i32, month: 1, day: 1 })
        } else {
            None
        }
    }

    /// The previous day, if there is one.
    pub open spec fn prev(self) -> Option<Date> {
        if self.day > 1 {
            Some(Date { day: (self.day - 1) as u32, ..self })
        } else if self.month > 1 {
            Some(
                Date {
                    month: (self.month - 1) as u32,
                    day: month_len(self.year as int, self.month - 1) as u32,
                    ..self
                },
            )
        } else if self.year > MIN_YEAR {
            Some(Date { year: (self.year - 1) as i32, month: 12, day: 31 })
        } else {
            None
        }
    }

    /// `self` comes strictly before `other`.
    pub open spec fn before(self, other: Date) -> bool {
        ||| self.year < other.year
        ||| (self.year == other.year && self.month < other.month)
        ||| (self.year == other.year && self.month == other.month && self.day < other.day)
    }
}

/// `n` steps forward from `d` (`None` once past the latest date).
pub open spec fn forward(d: Date, n: nat) -> Option<Date>
    decreases n,
{
    if n == 0 {
        Some(d)
    } else {
        match forward(d, (n - 1) as nat) {
            Some(e) => e.next(),
            None => None,
        }
    }
}

/// `n` steps back from `d` (`None` once past the earliest date).
pub open spec fn backward(d: Date, n: nat) -> Option<Date>
    decreases n,
{
    if n == 0 {
        Some(d)
    } else {
        match backward(d, (n - 1) as nat) {
            Some(e) => e.prev(),
            None => None,
        }
    }
}

/// Days before 1 January of `y` in the cumulative month table.
pub open spec fn days_before_month(y: int, m: int) -> int {
    let base: int = if m == 1 {
        0
    } else if m == 2 {
        31
    } else if m == 3 {
        59
    } else if m == 4 {
        90
    } else if m == 5 {
        120
    } else if m == 6 {
        151
    } else if m == 7 {
        181
    } else if m == 8 {
        212
    } else if m == 9 {
        243
    } else if m == 10 {
        273
    } else if m == 11 {
        304
    } else {
        334
    };
    if m > 2 && is_leap(y) {
        base + 1
    } else {
        base
    }
}

/// Days before 1 January of the shifted year `yy` (the year plus 262400, a
/// multiple of 400 that keeps every year of the range positive).
pub open spec fn days_before_shifted_year(yy: int) -> int {
    365 * (yy - 1) + (yy - 1) / 4 - (yy - 1) / 100 + (yy - 1) / 400
}

/// A running day count: consecutive dates have consecutive numbers.
pub open spec fn day_number(d: Date) -> int {
    days_before_shifted_year(d.year + 262400) + days_before_month(d.year as int, d.month as int) + d.day - 1
}

/// Day of the week counted from Sunday (0) to Saturday (6).
pub open spec fn weekday_from_sunday(d: Date) -> int {
    (day_number(d) + 1) % 7
}

proof fn lemma_shifted_leap(y: int)
    ensures
        is_leap(y) == is_leap(y + 262400),
{
    assert((y + 262400) % 4 == y % 4);
    assert((y + 262400) % 100 == y % 100);
    assert((y + 262400) % 400 == y % 400);
}

proof fn lemma_year_length(yy: int)
    requires
        yy >= 1,
    ensures
        days_before_shifted_year(yy + 1) == days_before_shifted_year(yy) + 365 + (if is_leap(yy) {
            1int
        } else {
            0int
        }),
{
    let a = yy - 1;
    assert(yy / 4 - a / 4 == (if yy % 4 == 0 { 1int } else { 0int }));
    assert(yy / 100 - a / 100 == (if yy % 100 == 0 { 1int } else { 0int }));
    assert(yy / 400 - a / 400 == (if yy % 400 == 0 { 1int } else { 0int }));
}

/// Consecutive days have consecutive day numbers.
pub proof fn lemma_next_day_number(d: Date)
    requires
        d.wf(),
        d.next() is Some,
    ensures
        d.next()->0.wf(),
        day_number(d.next()->0) == day_number(d) + 1,
{
    let n = d.next()->0;
    if (d.day as int) < month_len(d.year as int, d.month as int) {
    } else if d.month < 12 {
    } else {
        lemma_shifted_leap(d.year as int);
        lemma_year_length(d.year + 262400);
    }
}

/// The previous day is the day whose next day is this one.
pub proof fn lemma_prev_next(d: Date)
    requires
        d.wf(),
    ensures
        d.prev() matches Some(p) ==> p.wf() && p.next() == Some(d),
        d.next() matches Some(n) ==> n.wf() && n.prev() == Some(d),
{
}

/// The weekday advances by one from one day to the next.
pub proof fn lemma_next_weekday(d: Date)
    requires
        d.wf(),
        d.next() is Some,
    ensures
        weekday_from_sunday(d.next()->0) == (weekday_from_sunday(d) + 1) % 7,
{
    lemma_next_day_number(d);
}

impl Date {
    /// The date `y-m-d` if it exists in the calendar range.
    pub fn from_ymd_opt(y: i32, m: u32, d: u32) -> (r: Option<Date>)
        ensures
            r is Some <==> valid_ymd(y as int, m as int, d as int),
            r matches Some(date) ==> date == (Date { year: y, month: m, day: d }),
    {
        if y < MIN_YEAR || y > MAX_YEAR || m < 1 || m > 12 {
            return None;
        }
        if d < 1 || d > days_in_month(y, m) {
            return None;
        }
        Some(Date { year: y, month: m, day: d })
    }

    /// Whether the fields name a date of the calendar.
    pub fn is_valid(&self) -> (r: bool)
        ensures
            r == self.wf(),
    {
        Date::from_ymd_opt(self.year, self.month, self.day).is_some()
    }

    /// `-262143-01-01`.
    pub fn min() -> (d: Date)
        ensures
            d == Date::spec_min(),
            d.wf(),
    {
        Date { year: MIN_YEAR, month: 1, day: 1 }
    }

    /// The next day, or `None` after the latest date.
    pub fn succ_opt(&self) -> (r: Option<Date>)
        requires
            self.wf(),
        ensures
            r == self.next(),
            r matches Some(n) ==> n.wf(),
    {
        if self.day < days_in_month(self.year, self.month) {
            Some(Date { day: self.day + 1, ..*self })
        } else if self.month < 12 {
            Some(Date { month: self.month + 1, day: 1, ..*self })
        } else if self.year < MAX_YEAR {
            Some(Date { year: self.year + 1, month: 1, day: 1 })
        } else {
            None
        }
    }

    /// The previous day, or `None` before the earliest date.
    pub fn pred_opt(&self) -> (r: Option<Date>)
        requires
            self.wf(),
        ensures
            r == self.prev(),
            r matches Some(p) ==> p.wf(),
    {
        if self.day > 1 {
            Some(Date { day: self.day - 1, ..*self })
        } else if self.month > 1 {
            Some(Date { month: self.month - 1, day: days_in_month(self.year, self.month - 1), ..*self })
        } else if self.year > MIN_YEAR {
            Some(Date { year: self.year - 1, month: 12, day: 31 })
        } else {
            None
        }
    }

    /// Whether `self` comes strictly before `other`.
    pub fn is_before(&self, other: &Date) -> (r: bool)
        ensures
            r == self.before(*other),
    {
        self.year < other.year || (self.year == other.year && self.month < other.month) || (self.year
            == other.year && self.month == other.month && self.day < other.day)
    }

    /// Day of the week, counted from Sunday (0) to Saturday (6).
    pub fn num_days_from_sunday(&self) -> (w: u32)
        requires
            self.wf(),
        ensures
            w as int == weekday_from_sunday(*self),
            w < 7,
    {
        let yy: i64 = self.year as i64 + 262400;
        let a: i64 = yy - 1;
        let by: i64 = 365 * a + a / 4 - a / 100 + a / 400;
        let leap = is_leap_year(self.year);
        let m = self.month;
        let base: i64 = if m == 1 {
            0
        } else if m == 2 {
            31
        } else if m == 3 {
            59
        } else if m == 4 {
            90
        } else if m == 5 {
            120
        } else if m == 6 {
            151
        } else if m == 7 {
            181
        } else if m == 8 {
            212
        } else if m == 9 {
            243
        } else if m == 10 {
            273
        } else if m == 11 {
            304
        } else {
            334
        };
        let bm: i64 = if m > 2 && leap {
            base + 1
        } else {
            base
        };
        let n: i64 = by + bm + self.day as i64 - 1;
        ((n + 1) % 7) as u32
    }
}

/// Whether `y` is a leap year.
pub fn is_leap_year(y: i32) -> (r: bool)
    ensures
        r == is_leap(y as int),
{
    (y % 4 == 0 && y % 100 != 0) || y % 400 == 0
}

/// Days in month `m` of year `y`.
pub fn days_in_month(y: i32, m: u32) -> (n: u32)
    ensures
        n as int == month_len(y as int, m as int),
{
    if m == 2 {
        if is_leap_year(y) {
            29
        } else {
            28
        }
    } else if m == 4 || m == 6 || m == 9 || m == 11 {
        30
    } else {
        31
    }
}

/// The year as `%Y` writes it: four digits, zero-padded, for years 0 to
/// 9999; otherwise a sign and at least four digits.
pub open spec fn year_text(y: int) -> Seq<char> {
    if 0 <= y <= 9999 {
        zero_padded(y as nat, 4)
    } else if y > 9999 {
        seq!['+'] + zero_padded(y as nat, 4)
    } else {
        seq!['-'] + zero_padded((-y) as nat, 4)
    }
}

/// A date as `%Y-%m-%d`.
pub open spec fn ymd_text(d: Date) -> Seq<char> {
    year_text(d.year as int) + seq!['-'] + zero_padded(d.month as nat, 2) + seq!['-'] + zero_padded(
        d.day as nat,
        2,
    )
}

/// The year as `%Y` writes it.
pub fn year_string(y: i32) -> (s: String)
    requires
        MIN_YEAR <= y <= MAX_YEAR,
    ensures
        s@ == year_text(y as int),
{
    if 0 <= y && y <= 9999 {
        decimal_padded(y as u64, 4)
    } else if y > 9999 {
        let mut s = String::new();
        push_char(&mut s, '+');
        let d = decimal_padded(y as u64, 4);
        push_str(&mut s, d.as_str());
        s
    } else {
        let mut s = String::new();
        push_char(&mut s, '-');
        let d = decimal_padded((-(y as i64)) as u64, 4);
        push_str(&mut s, d.as_str());
        s
    }
}

impl Date {
    /// The date as `YYYY-MM-DD` (chrono's `%Y-%m-%d`).
    pub fn to_ymd(&self) -> (s: String)
        requires
            self.wf(),
        ensures
            s@ == ymd_text(*self),
    {
        let mut s = year_string(self.year);
        push_char(&mut s, '-');
        let m = decimal_padded(self.month as u64, 2);
        push_str(&mut s, m.as_str());
        push_char(&mut s, '-');
        let d = decimal_padded(self.day as u64, 2);
        push_str(&mut s, d.as_str());
        s
    }
}

/// What `chrono::NaiveDate::parse_from_str(s, "%Y-%m-%d")` reads from `s`.
pub uninterp spec fn chrono_ymd(s: Seq<char>) -> Option<Date>;

/// `chrono::NaiveDate::parse_from_str(s, "%Y-%m-%d")`.
///
/// Claims only that what it returns is a date of chrono's calendar range (a
/// `NaiveDate` cannot hold anything else); which texts parse, and to what,
/// is left to the name.
#[verifier::external_body]
pub fn parse_ymd(s: &str) -> (r: Option<Date>)
    ensures
        r == chrono_ymd(s@),
        r matches Some(d) ==> d.wf(),
{
    match chrono::NaiveDate::parse_from_str(s, "%Y-%m-%d") {
        Ok(d) => Some(Date { year: d.year(), month: d.month(), day: d.day() }),
        Err(_) => None,
    }
}

} // verus!
