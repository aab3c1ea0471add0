//! Calendar dates in the proleptic Gregorian calendar, modelled as plain
//! year/month/day values with an explicit validity predicate, together with
//! the day-counting arithmetic the birthday calculation is built on.

use vstd::prelude::*;
use vstd::arithmetic::div_mod::{
    lemma_fundamental_div_mod, lemma_fundamental_div_mod_converse_div,
    lemma_fundamental_div_mod_converse_mod, lemma_hoist_over_denominator,
    lemma_mod_multiples_vanish,
};

verus! {

/// Earliest year a `Date` may carry; keeps all day arithmetic far from overflow.
pub const MIN_YEAR: i32 = -262143;

/// Latest year a `Date` may carry.
pub const MAX_YEAR: i32 = 262142;

/// A year has an extra day exactly when it is divisible by 4 but not by 100,
/// or divisible by 400.
pub open spec fn is_leap_year(y: int) -> bool {
    (y % 4 == 0 && y % 100 != 0) || y % 400 == 0
}

/// Number of days in month `m` (1-based) of year `y`.
pub open spec fn days_in_month(y: int, m: int) -> int {
    if m == 2 {
        if is_leap_year(y) {
            29
        } else {
            28
        }
    } else if m == 4 || m == 6 || m == 9 || m == 11 {
        30
    } else {
        31
    }
}

/// Number of days of year `y` that lie strictly before month `m`.
pub open spec fn days_before_month(y: int, m: int) -> int {
    let base = if m == 1 {
        0int
    } else if m == 2 {
        31
    } else if m == 3 {
        59
    } else if m == 4 {
        90
    } else if m == 5 {
        120
    } else if m == 6 {
        151
    } else if m == 7 {
        181
    } else if m == 8 {
        212
    } else if m == 9 {
        243
    } else if m == 10 {
        273
    } else if m == 11 {
        304
    } else {
        334
    };
    base + if m > 2 && is_leap_year(y) {
        1int
    } else {
        0int
    }
}

/// 1-based index of the day `y-m-d` within its year (January 1 is 1).
pub open spec fn ordinal_of(y: int, m: int, d: int) -> int {
    days_before_month(y, m) + d
}

/// Number of days in all years strictly before year `y`, counted from the
/// start of year 1 (so `days_before_year(1) == 0`).
pub open spec fn days_before_year(y: int) -> int {
    365 * (y - 1) + (y - 1) / 4 - (y - 1) / 100 + (y - 1) / 400
}

/// Whether `y-m-d` names an actual calendar day within the supported years.
pub open spec fn valid_ymd(y: int, m: int, d: int) -> bool {
    &&& MIN_YEAR <= y <= MAX_YEAR
    &&& 1 <= m <= 12
    &&& 1 <= d <= days_in_month(y, m)
}

/// A calendar date (no time of day, no time zone).
#[derive(Clone, Copy, PartialEq, Eq, Structural, Debug)]
pub struct Date {
    year: i32,
    month: u32,
    day: u32,
}

/// Absolute position of a date on the day axis: dates compare and subtract
/// as their day numbers do.
pub open spec fn day_number(d: Date) -> int {
    days_before_year(d.spec_year()) + ordinal_of(d.spec_year(), d.spec_month(), d.spec_day())
}

impl Date {
    pub closed spec fn spec_year(&self) -> int {
        self.year as int
    }

    pub closed spec fn spec_month(&self) -> int {
        self.month as int
    }

    pub closed spec fn spec_day(&self) -> int {
        self.day as int
    }

    pub open spec fn wf(&self) -> bool {
        valid_ymd(self.spec_year(), self.spec_month(), self.spec_day())
    }

    /// Builds the date `year-month-day`, or `None` if that triple does not
    /// name an actual calendar day in the supported range.
    pub fn from_ymd_opt(year: i32, month: u32, day: u32) -> (r: Option<Date>)
        ensures
            r is Some <==> valid_ymd(year as int, month as int, day as int),
            r matches Some(d) ==> d.wf() && d.spec_year() == year as int && d.spec_month()
                == month as int && d.spec_day() == day as int,
    {
        if year < MIN_YEAR || year > MAX_YEAR {
            return None;
        }
        if month < 1 || month > 12 {
            return None;
        }
        if day < 1 || day > month_length(year, month) {
            return None;
        }
        Some(Date { year, month, day })
    }

    /// The same month and day in another year, or `None` if that day does
    /// not exist there (February 29 outside leap years, or a year out of
    /// the supported range).
    pub fn with_year(&self, year: i32) -> (r: Option<Date>)
        ensures
            r is Some <==> valid_ymd(year as int, self.spec_month(), self.spec_day()),
            r matches Some(d) ==> d.wf() && d.spec_year() == year as int && d.spec_month()
                == self.spec_month() && d.spec_day() == self.spec_day(),
    {
        Date::from_ymd_opt(year, self.month, self.day)
    }

    pub fn year(&self) -> (y: i32)
        ensures
            y as int == self.spec_year(),
    {
        self.year
    }

    pub fn month(&self) -> (m: u32)
        ensures
            m as int == self.spec_month(),
    {
        self.month
    }

    pub fn day(&self) -> (d: u32)
        ensures
            d as int == self.spec_day(),
    {
        self.day
    }

    /// 1-based day-of-year of this date.
    pub fn ordinal(&self) -> (r: u32)
        requires
            self.wf(),
        ensures
            r as int == ordinal_of(self.spec_year(), self.spec_month(), self.spec_day()),
    {
        month_prefix_days(self.year, self.month) + self.day
    }

    /// The ordinal this date's month and day would have in `year`: where the
    /// birthday calculation ranks a birthday within the current year.
    pub fn ordinal_in(&self, year: i32) -> (r: u32)
        requires
            MIN_YEAR <= year <= MAX_YEAR,
            self.wf(),
        ensures
            r as int == ordinal_of(year as int, self.spec_month(), self.spec_day()),
    {
        month_prefix_days(year, self.month) + self.day
    }

    /// Day number of this date; differences of day numbers count calendar days.
    pub fn day_number(&self) -> (n: i64)
        requires
            self.wf(),
        ensures
            n as int == day_number(*self),
            -200_000_000 <= n <= 200_000_000,
    {
        year_prefix_days(self.year) + self.ordinal() as i64
    }
}

/// Whether year `y` is a leap year.
pub fn leap_year(year: i32) -> (r: bool)
    requires
        MIN_YEAR <= year <= MAX_YEAR,
    ensures
        r == is_leap_year(year as int),
{
    let z: u64 = (year + 262_400) as u64;
    proof {
        lemma_mod_multiples_vanish(65_600, year as int, 4);
        lemma_mod_multiples_vanish(2_624, year as int, 100);
        lemma_mod_multiples_vanish(656, year as int, 400);
    }
    (z % 4 == 0 && z % 100 != 0) || z % 400 == 0
}

/// Number of days in month `month` of year `year`.
pub fn month_length(year: i32, month: u32) -> (r: u32)
    requires
        MIN_YEAR <= year <= MAX_YEAR,
        1 <= month <= 12,
    ensures
        r as int == days_in_month(year as int, month as int),
{
    if month == 2 {
        if leap_year(year) {
            29
        } else {
            28
        }
    } else if month == 4 || month == 6 || month == 9 || month == 11 {
        30
    } else {
        31
    }
}

/// Number of days of `year` that lie strictly before `month`.
fn month_prefix_days(year: i32, month: u32) -> (r: u32)
    requires
        MIN_YEAR <= year <= MAX_YEAR,
        1 <= month <= 12,
    ensures
        r as int == days_before_month(year as int, month as int),
{
    let base: u32 = if month == 1 {
        0
    } else if month == 2 {
        31
    } else if month == 3 {
        59
    } else if month == 4 {
        90
    } else if month == 5 {
        120
    } else if month == 6 {
        151
    } else if month == 7 {
        181
    } else if month == 8 {
        212
    } else if month == 9 {
        243
    } else if month == 10 {
        273
    } else if month == 11 {
        304
    } else {
        334
    };
    if month > 2 && leap_year(year) {
        base + 1
    } else {
        base
    }
}

/// Number of days in all supported years strictly before `year`.
fn year_prefix_days(year: i32) -> (n: i64)
    requires
        MIN_YEAR <= year <= MAX_YEAR,
    ensures
        n as int == days_before_year(year as int),
        -200_000_000 <= n <= 200_000_000,
{
    let y = year as i64;
    let z: u64 = (y - 1 + 262_400) as u64;
    let q4: i64 = (z / 4) as i64;
    let q100: i64 = (z / 100) as i64;
    let q400: i64 = (z / 400) as i64;
    proof {
        lemma_hoist_over_denominator(year - 1, 65_600, 4nat);
        lemma_hoist_over_denominator(year - 1, 2_624, 100nat);
        lemma_hoist_over_denominator(year - 1, 656, 400nat);
    }
    365 * (y - 1) + (q4 - 65_600) - (q100 - 2_624) + (q400 - 656)
}

/// Stepping the dividend by one raises the quotient exactly at multiples of `d`.
proof fn lemma_div_step(x: int, d: int)
    requires
        1 <= d,
    ensures
        x / d == (x - 1) / d + if x % d == 0 {
            1int
        } else {
            0int
        },
{
    let q = (x - 1) / d;
    let r = (x - 1) % d;
    lemma_fundamental_div_mod(x - 1, d);
    if r + 1 < d {
        assert(x == q * d + (r + 1)) by (nonlinear_arith)
            requires
                x - 1 == d * q + r,
        ;
        lemma_fundamental_div_mod_converse_div(x, d, q, r + 1);
        lemma_fundamental_div_mod_converse_mod(x, d, q, r + 1);
    } else {
        assert(x == (q + 1) * d + 0) by (nonlinear_arith)
            requires
                x - 1 == d * q + r && r + 1 == d,
        ;
        lemma_fundamental_div_mod_converse_div(x, d, q + 1, 0);
        lemma_fundamental_div_mod_converse_mod(x, d, q + 1, 0);
    }
}

/// A multiple of 400 is a multiple of 100 and of 4; a multiple of 100 is a
/// multiple of 4.
proof fn lemma_divisibility_chain(y: int)
    ensures
        y % 400 == 0 ==> y % 100 == 0 && y % 4 == 0,
        y % 100 == 0 ==> y % 4 == 0,
{
    if y % 400 == 0 {
        lemma_fundamental_div_mod(y, 400);
        let q = y / 400;
        assert(y == (4 * q) * 100 + 0) by (nonlinear_arith)
            requires
                y == 400 * q,
        ;
        lemma_fundamental_div_mod_converse_mod(y, 100, 4 * q, 0);
    }
    if y % 100 == 0 {
        lemma_fundamental_div_mod(y, 100);
        let q = y / 100;
        assert(y == (25 * q) * 4 + 0) by (nonlinear_arith)
            requires
                y == 100 * q,
        ;
        lemma_fundamental_div_mod_converse_mod(y, 4, 25 * q, 0);
    }
}

/// Moving from year `y` to year `y + 1` adds exactly the length of year `y`.
pub proof fn lemma_days_before_year_step(y: int)
    ensures
        days_before_year(y + 1) == days_before_year(y) + if is_leap_year(y) {
            366int
        } else {
            365int
        },
{
    lemma_div_step(y, 4);
    lemma_div_step(y, 100);
    lemma_div_step(y, 400);
    lemma_divisibility_chain(y);
}

/// The day-of-year of any actual calendar day lies between 1 and the length
/// of its year.
pub proof fn lemma_ordinal_bounds(y: int, m: int, d: int)
    requires
        1 <= m <= 12,
        1 <= d <= days_in_month(y, m),
    ensures
        1 <= ordinal_of(y, m, d) <= if is_leap_year(y) {
            366int
        } else {
            365int
        },
{
}

/// The calendar day right after `y-m-d`.
pub open spec fn next_ymd(y: int, m: int, d: int) -> (int, int, int) {
    if d < days_in_month(y, m) {
        (y, m, d + 1)
    } else if m < 12 {
        (y, m + 1, 1)
    } else {
        (y + 1, 1, 1)
    }
}

/// Day numbers count calendar days: stepping to the next calendar day raises
/// the day number by exactly one.
pub proof fn lemma_day_number_successor(y: int, m: int, d: int)
    requires
        valid_ymd(y, m, d),
    ensures
        ({
            let (ny, nm, nd) = next_ymd(y, m, d);
            &&& y < MAX_YEAR ==> valid_ymd(ny, nm, nd)
            &&& (days_before_year(ny) + ordinal_of(ny, nm, nd)) == (days_before_year(y)
                + ordinal_of(y, m, d)) + 1
        }),
{
    if !(d < days_in_month(y, m)) && !(m < 12) {
        lemma_days_before_year_step(y);
    }
}

/// Calendar order on dates: by year, then month, then day.
pub open spec fn date_lt(a: Date, b: Date) -> bool {
    ||| a.spec_year() < b.spec_year()
    ||| (a.spec_year() == b.spec_year() && a.spec_month() < b.spec_month())
    ||| (a.spec_year() == b.spec_year() && a.spec_month() == b.spec_month() && a.spec_day()
        < b.spec_day())
}

/// Each year adds at least 365 days to the day count.
proof fn lemma_days_before_year_mono(y1: int, y2: int)
    requires
        y1 <= y2,
    ensures
        days_before_year(y1) + 365 * (y2 - y1) <= days_before_year(y2),
    decreases y2 - y1,
{
    if y1 < y2 {
        lemma_days_before_year_mono(y1, y2 - 1);
        lemma_days_before_year_step(y2 - 1);
    }
}

/// Within one year, a later month-and-day has a strictly larger ordinal.
proof fn lemma_ordinal_strict(y: int, m1: int, d1: int, m2: int, d2: int)
    requires
        1 <= m1 <= 12,
        1 <= d1 <= days_in_month(y, m1),
        1 <= m2 <= 12,
        1 <= d2 <= days_in_month(y, m2),
        m1 < m2 || (m1 == m2 && d1 < d2),
    ensures
        ordinal_of(y, m1, d1) < ordinal_of(y, m2, d2),
{
}

/// An earlier date has a strictly smaller day number.
proof fn lemma_date_lt_day_number(a: Date, b: Date)
    requires
        a.wf(),
        b.wf(),
        date_lt(a, b),
    ensures
        day_number(a) < day_number(b),
{
    if a.spec_year() < b.spec_year() {
        lemma_ordinal_bounds(a.spec_year(), a.spec_month(), a.spec_day());
        lemma_ordinal_bounds(b.spec_year(), b.spec_month(), b.spec_day());
        lemma_days_before_year_step(a.spec_year());
        lemma_days_before_year_mono(a.spec_year() + 1, b.spec_year());
    } else {
        lemma_ordinal_strict(
            a.spec_year(),
            a.spec_month(),
            a.spec_day(),
            b.spec_month(),
            b.spec_day(),
        );
    }
}

/// Calendar order and day-number order agree: a date lies strictly before
/// another exactly when its day number is strictly smaller.
pub proof fn lemma_day_number_orders(a: Date, b: Date)
    requires
        a.wf(),
        b.wf(),
    ensures
        date_lt(a, b) <==> day_number(a) < day_number(b),
{
    if date_lt(a, b) {
        lemma_date_lt_day_number(a, b);
    } else if !(a.spec_year() == b.spec_year() && a.spec_month() == b.spec_month() && a.spec_day()
        == b.spec_day()) {
        lemma_date_lt_day_number(b, a);
    }
}

/// A day in year `ty + 1` lies 1 to 731 days after any day in year `ty`.
pub proof fn lemma_next_year_gap(ty: int, tm: int, td: int, nm: int, nd: int)
    requires
        valid_ymd(ty, tm, td),
        1 <= nm <= 12,
        1 <= nd <= days_in_month(ty + 1, nm),
    ensures
        1 <= (days_before_year(ty + 1) + ordinal_of(ty + 1, nm, nd)) - (days_before_year(ty)
            + ordinal_of(ty, tm, td)) <= 731,
{
    lemma_days_before_year_step(ty);
    lemma_ordinal_bounds(ty, tm, td);
    lemma_ordinal_bounds(ty + 1, nm, nd);
}

} // verus!
