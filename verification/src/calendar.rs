//! The month page of the calendar: which weekday the month starts on, how
//! many days it has, how long the month before it is, and which days can be
//! chosen. Dates follow the proleptic Gregorian calendar of `chrono`.

use chrono::{Datelike, NaiveDate};
use vstd::prelude::*;

verus! {

/// The earliest year that `chrono` dates can hold.
pub const MIN_YEAR: i32 = -262143;

/// The latest year that `chrono` dates can hold.
pub const MAX_YEAR: i32 = 262142;

/// Leap years of the Gregorian calendar.
pub open spec fn is_leap_year(y: int) -> bool {
    y % 4 == 0 && (y % 100 != 0 || y % 400 == 0)
}

/// Number of days in month `m` of year `y`.
pub open spec fn days_in_month(y: int, m: int) -> int {
    if m == 2 {
        if is_leap_year(y) {
            29
        } else {
            28
        }
    } else if m == 4 || m == 6 || m == 9 || m == 11 {
        30
    } else {
        31
    }
}

/// `y-m-d` is a date that `chrono` can represent.
pub open spec fn is_valid_date(y: int, m: int, d: int) -> bool {
    &&& MIN_YEAR <= y <= MAX_YEAR
    &&& 1 <= m <= 12
    &&& 1 <= d <= days_in_month(y, m)
}

/// Days from 0001-01-01 to January 1st of year `y`.
pub open spec fn days_before_year(y: int) -> int {
    let p = y - 1;
    365 * p + p / 4 - p / 100 + p / 400
}

/// Days from January 1st of year `y` to the first of month `m`.
pub open spec fn days_before_month(y: int, m: int) -> int {
    let common: int = if m == 1 {
        0
    } else if m == 2 {
        31
    } else if m == 3 {
        59
    } else if m == 4 {
        90
    } else if m == 5 {
        120
    } else if m == 6 {
        151
    } else if m == 7 {
        181
    } else if m == 8 {
        212
    } else if m == 9 {
        243
    } else if m == 10 {
        273
    } else if m == 11 {
        304
    } else {
        334
    };
    let extra: int = if m > 2 && is_leap_year(y) {
        1
    } else {
        0
    };
    common + extra
}

/// Days from 0001-01-01 to `y-m-d`.
pub open spec fn day_number(y: int, m: int, d: int) -> int {
    days_before_year(y) + days_before_month(y, m) + d - 1
}

/// Day of the week of `y-m-d`, counted from Sunday as 0; 0001-01-01 was a
/// Monday.
pub open spec fn weekday_from_sunday(y: int, m: int, d: int) -> int {
    (day_number(y, m, d) + 1) % 7
}

/// The day before `y-m-d`.
pub open spec fn previous_date(y: int, m: int, d: int) -> (int, int, int) {
    if d > 1 {
        (y, m, d - 1)
    } else if m > 1 {
        (y, m - 1, days_in_month(y, m - 1))
    } else {
        (y - 1, 12, 31)
    }
}

/// English name of month `m`.
pub open spec fn month_name_text(m: int) -> Seq<char> {
    if m == 1 {
        "January"@
    } else if m == 2 {
        "February"@
    } else if m == 3 {
        "March"@
    } else if m == 4 {
        "April"@
    } else if m == 5 {
        "May"@
    } else if m == 6 {
        "June"@
    } else if m == 7 {
        "July"@
    } else if m == 8 {
        "August"@
    } else if m == 9 {
        "September"@
    } else if m == 10 {
        "October"@
    } else if m == 11 {
        "November"@
    } else {
        "December"@
    }
}

/// `chrono::NaiveDate::from_ymd_opt(year, month, day).is_some()`: the
/// contract claims that exactly the Gregorian dates of years `MIN_YEAR` to
/// `MAX_YEAR` exist.
#[verifier::external_body]
fn date_exists(year: i32, month: u32, day: u32) -> (out: bool)
    ensures
        out == is_valid_date(year as int, month as int, day as int),
{
    NaiveDate::from_ymd_opt(year, month, day).is_some()
}

/// `Datelike::weekday` and `Weekday::num_days_from_sunday` on
/// `NaiveDate::from_ymd_opt(year, month, day)`: the contract claims the
/// proleptic Gregorian weekday, Sunday being 0.
#[verifier::external_body]
fn weekday_number(year: i32, month: u32, day: u32) -> (out: u32)
    requires
        is_valid_date(year as int, month as int, day as int),
    ensures
        out == weekday_from_sunday(year as int, month as int, day as int),
{
    NaiveDate::from_ymd_opt(year, month, day).unwrap().weekday().num_days_from_sunday()
}

/// `NaiveDate::signed_duration_since` followed by `TimeDelta::num_days`: the
/// contract claims the number of days from the first date to the second.
#[verifier::external_body]
fn days_between(from: (i32, u32, u32), to: (i32, u32, u32)) -> (out: i64)
    requires
        is_valid_date(from.0 as int, from.1 as int, from.2 as int),
        is_valid_date(to.0 as int, to.1 as int, to.2 as int),
    ensures
        out == day_number(to.0 as int, to.1 as int, to.2 as int) - day_number(
            from.0 as int,
            from.1 as int,
            from.2 as int,
        ),
{
    let start = NaiveDate::from_ymd_opt(from.0, from.1, from.2).unwrap();
    let end = NaiveDate::from_ymd_opt(to.0, to.1, to.2).unwrap();
    end.signed_duration_since(start).num_days()
}

/// `NaiveDate::pred_opt`, read back as year, month and day: the contract
/// claims the previous calendar day, and none before the first day of
/// `MIN_YEAR`.
#[verifier::external_body]
fn day_before(year: i32, month: u32, day: u32) -> (out: Option<(i32, u32, u32)>)
    requires
        is_valid_date(year as int, month as int, day as int),
    ensures
        out is None <==> (year == MIN_YEAR && month == 1 && day == 1),
        out matches Some(p) ==> (p.0 as int, p.1 as int, p.2 as int) == previous_date(
            year as int,
            month as int,
            day as int,
        ),
{
    match NaiveDate::from_ymd_opt(year, month, day).unwrap().pred_opt() {
        Some(date) => Some((date.year(), date.month(), date.day())),
        None => None,
    }
}

/// `NaiveDate::format("%B")` on the first of the month: the contract claims
/// the English month name.
#[verifier::external_body]
fn month_name(year: i32, month: u32) -> (out: String)
    requires
        is_valid_date(year as int, month as int, 1),
    ensures
        out@ == month_name_text(month as int),
{
    NaiveDate::from_ymd_opt(year, month, 1).unwrap().format("%B").to_string()
}

/// A calendar date.
#[derive(Clone, Copy, Debug, PartialEq, Eq, Structural)]
pub struct CalendarDate {
    pub year: i32,
    pub month: u32,
    pub day: u32,
}

/// One month of the calendar.
pub struct MonthPage {
    pub year: i32,
    pub month: u32,
    /// The month's English name.
    pub label: String,
    /// Days of the first week that belong to the month before, counted from
    /// Sunday.
    pub leading: u32,
    /// Number of days in the month.
    pub days: u32,
    /// Number of days in the month before.
    pub previous_days: u32,
}

/// A page exists for month `m` of year `y` when its first day, the first
/// day of the month after and the day before it are all representable.
pub open spec fn page_exists(y: int, m: int) -> bool {
    &&& MIN_YEAR <= y <= MAX_YEAR
    &&& 1 <= m <= 12
    &&& (m == 12 ==> y + 1 <= MAX_YEAR)
    &&& !(y == MIN_YEAR && m == 1)
}

/// `p` is the page of month `m` of year `y`.
pub open spec fn describes_month(p: MonthPage, y: int, m: int) -> bool {
    &&& p.year == y
    &&& p.month == m
    &&& p.label@ == month_name_text(m)
    &&& p.leading == weekday_from_sunday(y, m, 1)
    &&& p.days == days_in_month(y, m)
    &&& p.previous_days == (if m == 1 {
        31
    } else {
        days_in_month(y, m - 1)
    })
}

/// The value of `m as i32`.
pub open spec fn month_as_i32(m: u32) -> int {
    if m < 0x8000_0000 {
        m as int
    } else {
        m as int - 0x1_0000_0000
    }
}

/// Whether `x` fits in an `i32`.
pub open spec fn fits_i32(x: int) -> bool {
    i32::MIN <= x <= i32::MAX
}

/// The month count `12 * y + (m - 1) + delta`, when it and each partial sum
/// fit in an `i32`.
pub open spec fn shifted_index(y: int, m: int, delta: int) -> Option<int> {
    let a = y * 12;
    let b = a + (m - 1);
    let c = b + delta;
    if fits_i32(a) && fits_i32(b) && fits_i32(c) {
        Some(c)
    } else {
        None
    }
}

/// Year and month that are `delta` months after month `m` of year `y`.
pub open spec fn shift_target(y: int, m: int, delta: int) -> Option<(int, int)> {
    match shifted_index(y, m, delta) {
        Some(c) => Some((c / 12, c % 12 + 1)),
        None => None,
    }
}

/// The day `day` of the page's month when it exists and is a weekday.
pub open spec fn selectable(y: int, m: int, day: int) -> bool {
    is_valid_date(y, m, day) && weekday_from_sunday(y, m, day) != 0 && weekday_from_sunday(
        y,
        m,
        day,
    ) != 6
}

proof fn lemma_year_length(y: int)
    ensures
        days_before_year(y + 1) - days_before_year(y) == if is_leap_year(y) {
            366int
        } else {
            365int
        },
{
    let p = y - 1;
    assert(y / 4 - p / 4 == if y % 4 == 0 {
        1int
    } else {
        0int
    });
    assert(y / 100 - p / 100 == if y % 100 == 0 {
        1int
    } else {
        0int
    });
    assert(y / 400 - p / 400 == if y % 400 == 0 {
        1int
    } else {
        0int
    });
    assert(y % 400 == 0 ==> y % 100 == 0 && y % 4 == 0);
    assert(y % 100 == 0 ==> y % 4 == 0);
}

/// The first of the next month comes `days_in_month` days after the first
/// of this one.
proof fn lemma_month_length(y: int, m: int)
    requires
        1 <= m <= 12,
    ensures
        m < 12 ==> day_number(y, m + 1, 1) - day_number(y, m, 1) == days_in_month(y, m),
        m == 12 ==> day_number(y + 1, 1, 1) - day_number(y, m, 1) == days_in_month(y, m),
{
    if m == 12 {
        lemma_year_length(y);
    }
}

impl MonthPage {
    /// The page of month `month` of `year`, when that month and its
    /// neighbours can be represented.
    pub fn new(year: i32, month: u32) -> (out: Option<Self>)
        ensures
            out is Some <==> page_exists(year as int, month as int),
            out matches Some(p) ==> describes_month(p, year as int, month as int),
    {
        if !date_exists(year, month, 1) {
            return None;
        }
        let (next_year, next_month) = if month == 12 {
            (year + 1, 1u32)
        } else {
            (year, month + 1)
        };
        if !date_exists(next_year, next_month, 1) {
            return None;
        }
        proof {
            lemma_month_length(year as int, month as int);
        }
        let days = days_between((year, month, 1), (next_year, next_month, 1));
        let label = month_name(year, month);
        let leading = weekday_number(year, month, 1);
        let previous = day_before(year, month, 1);
        match previous {
            None => None,
            Some(p) => Some(
                MonthPage { year, month, label, leading, days: days as u32, previous_days: p.2 },
            ),
        }
    }

    /// The page `delta` months after this one (before it when `delta` is
    /// negative), when the month count fits in an `i32` and that page
    /// exists.
    pub fn shifted(&self, delta: i32) -> (out: Option<Self>)
        requires
            self.month != 0x8000_0000,
        ensures
            out is Some <==> (shift_target(self.year as int, month_as_i32(self.month), delta as int)
                matches Some(t) && page_exists(t.0, t.1)),
            out matches Some(p) ==> describes_month(
                p,
                shift_target(self.year as int, month_as_i32(self.month), delta as int).unwrap().0,
                shift_target(self.year as int, month_as_i32(self.month), delta as int).unwrap().1,
            ),
    {
        let m = self.month;
        let month = m as i32;
        assert(month == month_as_i32(m)) by (bit_vector)
            requires
                m != 0x8000_0000u32,
                month == m as i32,
        ;
        let a = match self.year.checked_mul(12) {
            Some(a) => a,
            None => return None,
        };
        let b = match a.checked_add(month - 1) {
            Some(b) => b,
            None => return None,
        };
        let index = match b.checked_add(delta) {
            Some(c) => c,
            None => return None,
        };
        let year = match index.checked_div_euclid(12) {
            Some(y) => y,
            None => return None,
        };
        let rem = match index.checked_rem_euclid(12) {
            Some(r) => r,
            None => return None,
        };
        Self::new(year, (rem + 1) as u32)
    }

    /// Day `day` of this page's month, when that date exists and is not a
    /// Saturday or a Sunday.
    pub fn selectable_date(&self, day: u32) -> (out: Option<CalendarDate>)
        ensures
            out is Some <==> selectable(self.year as int, self.month as int, day as int),
            out matches Some(d) ==> d == (CalendarDate { year: self.year, month: self.month, day }),
    {
        if !date_exists(self.year, self.month, day) {
            return None;
        }
        let weekday = weekday_number(self.year, self.month, day);
        if weekday == 0 || weekday == 6 {
            None
        } else {
            Some(CalendarDate { year: self.year, month: self.month, day })
        }
    }

    /// Day `day` of the month `offset` months away, when that page exists
    /// and the day is a weekday of it.
    pub fn selectable_offset_date(&self, offset: i32, day: u32) -> (out: Option<CalendarDate>)
        requires
            self.month != 0x8000_0000,
        ensures
            out is Some <==> (shift_target(self.year as int, month_as_i32(self.month), offset as int)
                matches Some(t) && page_exists(t.0, t.1) && selectable(t.0, t.1, day as int)),
            out matches Some(d) ==> d.year == shift_target(
                self.year as int,
                month_as_i32(self.month),
                offset as int,
            ).unwrap().0 && d.month == shift_target(
                self.year as int,
                month_as_i32(self.month),
                offset as int,
            ).unwrap().1 && d.day == day,
    {
        match self.shifted(offset) {
            Some(page) => page.selectable_date(day),
            None => None,
        }
    }
}

/// Shifting a page by `delta` months and then by `-delta` months leads back
/// to the same month.
pub proof fn lemma_shift_round_trip(y: int, m: int, delta: int)
    requires
        page_exists(y, m),
        -0x8000_0000 < delta < 0x8000_0000,
        shift_target(y, m, delta) matches Some(t) && page_exists(t.0, t.1),
    ensures
        shift_target(shift_target(y, m, delta).unwrap().0, shift_target(y, m, delta).unwrap().1, -delta)
            == Some((y, m)),
{
    let c = shifted_index(y, m, delta)->0;
    let t = shift_target(y, m, delta)->0;
    assert(t.0 * 12 + (t.1 - 1) == c);
    assert(shifted_index(t.0, t.1, -delta) == Some(y * 12 + (m - 1)));
    let back = y * 12 + (m - 1);
    assert(back / 12 == y && back % 12 + 1 == m);
}

/// Shifting by `a` months and then by `b` months is shifting by `a + b`
/// months, whenever both steps are possible.
pub proof fn lemma_shift_composes(y: int, m: int, a: int, b: int)
    requires
        page_exists(y, m),
        shift_target(y, m, a) matches Some(t) && page_exists(t.0, t.1) && shift_target(
            t.0,
            t.1,
            b,
        ) is Some,
    ensures
        shift_target(shift_target(y, m, a).unwrap().0, shift_target(y, m, a).unwrap().1, b) == shift_target(
            y,
            m,
            a + b,
        ),
{
    let c = shifted_index(y, m, a)->0;
    let t = shift_target(y, m, a)->0;
    assert(t.0 * 12 + (t.1 - 1) == c);
}

/// A day can be chosen exactly when it is a date of the calendar and falls
/// on Monday to Friday; Saturdays and Sundays cannot be chosen.
pub proof fn lemma_weekdays_are_selectable(y: int, m: int, d: int)
    ensures
        selectable(y, m, d) <==> is_valid_date(y, m, d) && 1 <= weekday_from_sunday(y, m, d) <= 5,
        is_valid_date(y, m, d) && (weekday_from_sunday(y, m, d) == 0 || weekday_from_sunday(y, m, d)
            == 6) ==> !selectable(y, m, d),
{
    assert(0 <= weekday_from_sunday(y, m, d) < 7);
}

/// Days of the week run on without a gap: the weekday of each date is the
/// one after that of the day before it, within a month, from the last day
/// of a month to the first of the next and from New Year's Eve to New
/// Year's Day; 1970-01-01 was a Thursday and 2000-01-01 a Saturday.
pub proof fn lemma_weekdays_run_on(y: int, m: int, d: int)
    requires
        is_valid_date(y, m, d),
    ensures
        0 <= weekday_from_sunday(y, m, d) < 7,
        d < days_in_month(y, m) ==> weekday_from_sunday(y, m, d + 1) == (weekday_from_sunday(y, m, d)
            + 1) % 7,
        d == days_in_month(y, m) && m < 12 ==> weekday_from_sunday(y, m + 1, 1) == (
        weekday_from_sunday(y, m, d) + 1) % 7,
        d == days_in_month(y, m) && m == 12 ==> weekday_from_sunday(y + 1, 1, 1) == (
        weekday_from_sunday(y, m, d) + 1) % 7,
        weekday_from_sunday(1970, 1, 1) == 4,
        weekday_from_sunday(2000, 1, 1) == 6,
{
    let a = day_number(y, m, d) + 1;
    assert((a + 1) % 7 == (a % 7 + 1) % 7) by {
        vstd::arithmetic::div_mod::lemma_add_mod_noop(a, 1, 7);
    }
    assert(d == days_in_month(y, m) ==> day_number(y, m, d) + 1 == if m < 12 {
        day_number(y, m + 1, 1)
    } else {
        day_number(y + 1, 1, 1)
    }) by {
        lemma_month_length(y, m);
    }
    assert(days_before_year(1970) == 719162);
    assert(days_before_year(2000) == 730119);
}

/// The twelve months of a year add up to the year's length: 366 days in a
/// leap year and 365 otherwise.
pub proof fn lemma_months_fill_the_year(y: int)
    ensures
        days_in_month(y, 1) + days_in_month(y, 2) + days_in_month(y, 3) + days_in_month(y, 4)
            + days_in_month(y, 5) + days_in_month(y, 6) + days_in_month(y, 7) + days_in_month(y, 8)
            + days_in_month(y, 9) + days_in_month(y, 10) + days_in_month(y, 11) + days_in_month(
            y,
            12,
        ) == days_before_year(y + 1) - days_before_year(y),
        days_before_year(y + 1) - days_before_year(y) == if is_leap_year(y) {
            366int
        } else {
            365int
        },
{
    lemma_year_length(y);
}

/// Shifting a page by one month goes to the next calendar month, by minus
/// one to the one before, by twelve to the same month of the next year,
/// and by nothing to the same month.
pub proof fn lemma_shift_steps(y: int, m: int)
    requires
        page_exists(y, m),
    ensures
        shift_target(y, m, 0) == Some((y, m)),
        shift_target(y, m, 1) == Some(if m == 12 { (y + 1, 1int) } else { (y, m + 1) }),
        shift_target(y, m, -1) == Some(if m == 1 { (y - 1, 12int) } else { (y, m - 1) }),
        shift_target(y, m, 12) == Some((y + 1, m)),
{
    let b = y * 12 + (m - 1);
    assert(fits_i32(y * 12));
    assert((b + 0) / 12 == y && (b + 0) % 12 == m - 1);
    if m == 12 {
        assert((b + 1) / 12 == y + 1 && (b + 1) % 12 == 0);
    } else {
        assert((b + 1) / 12 == y && (b + 1) % 12 == m);
    }
    if m == 1 {
        assert((b - 1) / 12 == y - 1 && (b - 1) % 12 == 11);
    } else {
        assert((b - 1) / 12 == y && (b - 1) % 12 == m - 2);
    }
    assert((b + 12) / 12 == y + 1 && (b + 12) % 12 == m - 1);
}

/// Each month starts on the weekday that follows the last day of the month
/// before: the leading days of a month are those of the month before plus
/// its length, counted round the week.
pub proof fn lemma_next_month_starts_where_this_ends(y: int, m: int)
    requires
        1 <= m <= 12,
    ensures
        m < 12 ==> weekday_from_sunday(y, m + 1, 1) == (weekday_from_sunday(y, m, 1)
            + days_in_month(y, m)) % 7,
        m == 12 ==> weekday_from_sunday(y + 1, 1, 1) == (weekday_from_sunday(y, m, 1)
            + days_in_month(y, m)) % 7,
{
    lemma_month_length(y, m);
    let a = day_number(y, m, 1) + 1;
    let n = days_in_month(y, m);
    assert((a + n) % 7 == (a % 7 + n) % 7) by {
        vstd::arithmetic::div_mod::lemma_add_mod_noop(a, n, 7);
        vstd::arithmetic::div_mod::lemma_mod_twice(n, 7);
        vstd::arithmetic::div_mod::lemma_add_mod_noop(a % 7, n, 7);
        vstd::arithmetic::div_mod::lemma_mod_twice(a, 7);
    }
}

/// Every month page starts on a day of the week and has between 28 and 31
/// days, as has the month before it.
pub proof fn lemma_month_page_ranges(y: int, m: int)
    requires
        page_exists(y, m),
    ensures
        0 <= weekday_from_sunday(y, m, 1) < 7,
        28 <= days_in_month(y, m) <= 31,
        m > 1 ==> 28 <= days_in_month(y, m - 1) <= 31,
{
}

} // verus!
