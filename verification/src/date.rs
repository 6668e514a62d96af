//! Calendar dates in the proleptic Gregorian calendar, held as plain
//! year/month/day fields, together with their linear day numbering.

use vstd::prelude::*;

verus! {

/// A calendar date. Valid dates (see [`Date::wf`]) have a four-digit year
/// (0 through 9999), a month from 1 through 12, and a day from 1 through the
/// month's length in that year.
#[derive(Clone, Copy, PartialEq, Eq, Structural, Debug)]
pub struct Date {
    pub year: u32,
    pub month: u32,
    pub day: u32,
}

/// The Gregorian leap-year rule.
pub open spec fn is_leap_year(y: int) -> bool {
    (y % 4 == 0 && y % 100 != 0) || y % 400 == 0
}

/// How many days month `m` has in year `y` (for `1 <= m <= 12`).
pub open spec fn days_in_month(y: int, m: int) -> int {
    if m == 2 {
        if is_leap_year(y) {
            29
        } else {
            28
        }
    } else if m == 4 || m == 6 || m == 9 || m == 11 {
        30
    } else {
        31
    }
}

/// How many days of year `y` pass before the first of month `m`
/// (meaningful for `1 <= m <= 13`; `m == 13` gives the length of the year).
pub open spec fn days_before_month(y: int, m: int) -> int
    decreases m,
{
    if m <= 1 {
        0
    } else {
        days_before_month(y, m - 1) + days_in_month(y, m - 1)
    }
}

/// How many days pass in all years before year `y`.
pub open spec fn days_before_year(y: int) -> int
    decreases y,
{
    if y <= 0 {
        0
    } else {
        days_before_year(y - 1) + days_before_month(y - 1, 13)
    }
}

/// The date's index in the linear count of days starting at 0000-01-01.
/// Two valid dates compare chronologically exactly as their day numbers do.
pub open spec fn day_number(d: Date) -> int {
    days_before_year(d.year as int) + days_before_month(d.year as int, d.month as int) + d.day - 1
}

/// Strict lexicographic order on the (year, month, day) triple.
pub open spec fn lex_lt(a: Date, b: Date) -> bool {
    a.year < b.year || (a.year == b.year && (a.month < b.month || (a.month == b.month
        && a.day < b.day)))
}

impl Date {
    /// A well-formed calendar date: four-digit year, real month, and a day
    /// that exists in that month of that year.
    pub open spec fn wf(self) -> bool {
        self.year <= 9999 && 1 <= self.month <= 12 && 1 <= self.day <= days_in_month(
            self.year as int,
            self.month as int,
        )
    }

    /// Runtime check of [`Date::wf`], for callers outside verified code.
    pub fn is_well_formed(&self) -> (r: bool)
        ensures
            r == self.wf(),
    {
        self.year <= 9999 && 1 <= self.month && self.month <= 12 && 1 <= self.day && self.day
            <= days_in_month_of(self.year, self.month)
    }
}

/// Executable twin of [`days_in_month`].
pub fn days_in_month_of(year: u32, month: u32) -> (r: u32)
    requires
        1 <= month <= 12,
    ensures
        r == days_in_month(year as int, month as int),
{
    if month == 2 {
        if (year % 4 == 0 && year % 100 != 0) || year % 400 == 0 {
            29
        } else {
            28
        }
    } else if month == 4 || month == 6 || month == 9 || month == 11 {
        30
    } else {
        31
    }
}

/// `days_before_month` grows with the month.
pub proof fn lemma_days_before_month_monotone(y: int, m1: int, m2: int)
    requires
        1 <= m1 <= m2 <= 13,
    ensures
        days_before_month(y, m1) <= days_before_month(y, m2),
    decreases m2 - m1,
{
    if m1 < m2 {
        lemma_days_before_month_monotone(y, m1, m2 - 1);
        assert(days_in_month(y, m2 - 1) >= 28);
    }
}

/// `days_before_year` grows with the year.
pub proof fn lemma_days_before_year_monotone(y1: int, y2: int)
    requires
        0 <= y1 <= y2,
    ensures
        days_before_year(y1) <= days_before_year(y2),
    decreases y2 - y1,
{
    if y1 < y2 {
        lemma_days_before_year_monotone(y1, y2 - 1);
        lemma_days_before_month_monotone(y2 - 1, 1, 13);
    }
}

/// A valid date's offset within its year lies strictly below the year's
/// length, so its day number lies below the next year's first day number.
pub proof fn lemma_day_number_in_year(d: Date)
    requires
        d.wf(),
    ensures
        0 <= days_before_month(d.year as int, d.month as int) + d.day - 1,
        days_before_month(d.year as int, d.month as int) + d.day - 1 < days_before_month(
            d.year as int,
            13,
        ),
        days_before_year(d.year as int) <= day_number(d) < days_before_year(d.year as int + 1),
{
    let y = d.year as int;
    let m = d.month as int;
    lemma_days_before_month_monotone(y, 1, m);
    lemma_days_before_month_monotone(y, m + 1, 13);
    assert(days_before_month(y, m + 1) == days_before_month(y, m) + days_in_month(y, m));
    assert(days_before_year(y + 1) == days_before_year(y) + days_before_month(y, 13));
}

/// Lexicographically earlier valid dates have strictly smaller day numbers.
proof fn lemma_lex_lt_day_number(a: Date, b: Date)
    requires
        a.wf(),
        b.wf(),
        lex_lt(a, b),
    ensures
        day_number(a) < day_number(b),
{
    let ya = a.year as int;
    let yb = b.year as int;
    lemma_day_number_in_year(a);
    lemma_day_number_in_year(b);
    if ya < yb {
        lemma_days_before_year_monotone(ya + 1, yb);
    } else {
        let ma = a.month as int;
        let mb = b.month as int;
        if ma < mb {
            assert(days_before_month(ya, ma + 1) == days_before_month(ya, ma) + days_in_month(
                ya,
                ma,
            ));
            lemma_days_before_month_monotone(ya, ma + 1, mb);
        }
    }
}

/// Day numbers order valid dates exactly as the lexicographic order on
/// (year, month, day) does; in particular, equal day numbers mean equal dates.
pub proof fn lemma_day_number_order(a: Date, b: Date)
    requires
        a.wf(),
        b.wf(),
    ensures
        day_number(a) < day_number(b) <==> lex_lt(a, b),
        day_number(a) == day_number(b) <==> a == b,
{
    if lex_lt(a, b) {
        lemma_lex_lt_day_number(a, b);
    }
    if lex_lt(b, a) {
        lemma_lex_lt_day_number(b, a);
    }
}

/// Chronological comparison of two valid dates: `a` is on or before `b`
/// exactly when `a`'s day number is at most `b`'s.
pub fn date_le(a: &Date, b: &Date) -> (r: bool)
    requires
        a.wf(),
        b.wf(),
    ensures
        r == (day_number(*a) <= day_number(*b)),
{
    proof {
        lemma_day_number_order(*a, *b);
    }
    if a.year != b.year {
        a.year < b.year
    } else if a.month != b.month {
        a.month < b.month
    } else {
        a.day <= b.day
    }
}

/// The day after `d`: increments the day, rolling over at month and year
/// boundaries. Advances the day number by exactly one.
pub fn next_day(d: &Date) -> (r: Date)
    requires
        d.wf(),
        !(d.year == 9999 && d.month == 12 && d.day == 31),
    ensures
        r.wf(),
        day_number(r) == day_number(*d) + 1,
{
    let y = d.year;
    let m = d.month;
    if d.day < days_in_month_of(y, m) {
        Date { year: y, month: m, day: d.day + 1 }
    } else if m < 12 {
        proof {
            assert(days_before_month(y as int, m as int + 1) == days_before_month(y as int, m as int)
                + days_in_month(y as int, m as int));
        }
        Date { year: y, month: m + 1, day: 1 }
    } else {
        proof {
            assert(days_before_month(y as int, 13) == days_before_month(y as int, 12)
                + days_in_month(y as int, 12));
            assert(days_before_year(y as int + 1) == days_before_year(y as int)
                + days_before_month(y as int, 13));
        }
        Date { year: y + 1, month: 1, day: 1 }
    }
}

} // verus!
