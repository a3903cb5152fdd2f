//! Proleptic Gregorian calendar dates and their day-number arithmetic.
//!
//! A [`Date`] is a plain year/month/day triple.  Its day number counts days
//! from 1970-01-01 (day `0`), which gives the store a totally ordered
//! integer key and gives the schedulers exact wake instants in seconds.

use vstd::prelude::*;
use vstd::string::StrSliceExecFns;

verus! {

/// Largest supported day number: 9999-12-31.
pub const MAX_EPOCH_DAYS: i64 = 2_932_896;

/// Day number of 1970-01-01 counted from 0001-01-01 (day `0`).
pub const EPOCH_OFFSET_DAYS: i64 = 719_162;

/// One calendar date in UTC.
#[derive(Debug, Clone, Copy, PartialEq, Eq, Structural, Hash)]
pub struct Date {
    pub year: i32,
    pub month: u8,
    pub day: u8,
}

/// Gregorian leap-year rule.
pub open spec fn is_leap_year(y: int) -> bool {
    (y % 4 == 0 && y % 100 != 0) || y % 400 == 0
}

/// Days in month `m` of year `y`.
pub open spec fn days_in_month(y: int, m: int) -> int {
    if m == 2 {
        if is_leap_year(y) {
            29
        } else {
            28
        }
    } else if m == 4 || m == 6 || m == 9 || m == 11 {
        30
    } else {
        31
    }
}

/// Days of year `y` that precede the first day of month `m`.
pub open spec fn days_before_month(y: int, m: int) -> int {
    let base: int = if m == 1 {
        0
    } else if m == 2 {
        31
    } else if m == 3 {
        59
    } else if m == 4 {
        90
    } else if m == 5 {
        120
    } else if m == 6 {
        151
    } else if m == 7 {
        181
    } else if m == 8 {
        212
    } else if m == 9 {
        243
    } else if m == 10 {
        273
    } else if m == 11 {
        304
    } else {
        334
    };
    base + if m > 2 && is_leap_year(y) {
        1int
    } else {
        0int
    }
}

/// Leap years among `1..y`.
pub open spec fn leap_years_before(y: int) -> int {
    (y - 1) / 4 - (y - 1) / 100 + (y - 1) / 400
}

/// Day number of a date, counted from 0001-01-01 as day `0`.
pub open spec fn day_number(d: Date) -> int {
    365 * (d.year - 1) + leap_years_before(d.year as int) + days_before_month(
        d.year as int,
        d.month as int,
    ) + d.day - 1
}

/// Day number counted from 1970-01-01 as day `0`.
pub open spec fn epoch_days(d: Date) -> int {
    day_number(d) - EPOCH_OFFSET_DAYS
}

/// First day of the month following the one `d` lies in.
pub open spec fn next_month_of(d: Date) -> Date {
    if d.month == 12 {
        Date { year: (d.year + 1) as i32, month: 1u8, day: 1u8 }
    } else {
        Date { year: d.year, month: (d.month + 1) as u8, day: 1u8 }
    }
}

impl Date {
    /// A structurally and calendrically valid date within the supported
    /// year range.
    pub open spec fn valid(self) -> bool {
        &&& 1 <= self.year <= 9999
        &&& 1 <= self.month <= 12
        &&& 1 <= self.day <= days_in_month(self.year as int, self.month as int)
    }

    /// Build a date, checking calendar validity.
    pub fn new(year: i32, month: u8, day: u8) -> (r: Option<Date>)
        ensures
            r is Some <==> (Date { year, month, day }).valid(),
            r is Some ==> r == Some(Date { year, month, day }),
    {
        let d = Date { year, month, day };
        if d.check_valid() {
            Some(d)
        } else {
            None
        }
    }

    /// Executable validity check.
    pub fn check_valid(&self) -> (r: bool)
        ensures
            r == self.valid(),
    {
        if self.year < 1 || self.year > 9999 {
            return false;
        }
        if self.month < 1 || self.month > 12 {
            return false;
        }
        let dim: u8 = days_in_month_exec(self.year, self.month);
        1 <= self.day && self.day <= dim
    }

    /// Day number from 1970-01-01; negative for earlier dates.
    pub fn to_epoch_days(&self) -> (r: i64)
        requires
            self.valid(),
        ensures
            r == epoch_days(*self),
            -EPOCH_OFFSET_DAYS <= r <= MAX_EPOCH_DAYS,
    {
        proof {
            lemma_day_number_range(*self);
        }
        let y: u64 = (self.year - 1) as u64;
        let leaps: u64 = y / 4 - y / 100 + y / 400;
        let before_month: u64 = days_before_month_exec(self.year, self.month) as u64;
        let dn: i64 = (365 * y + leaps + before_month) as i64 + (self.day as i64) - 1;
        dn - EPOCH_OFFSET_DAYS
    }

    /// Midnight UTC of this date, in seconds from the Unix epoch.
    pub fn to_epoch_secs(&self) -> (r: i64)
        requires
            self.valid(),
        ensures
            r == epoch_days(*self) * 86_400,
    {
        self.to_epoch_days() * 86_400
    }

    /// First day of the following calendar month.
    pub fn next_month_start(&self) -> (r: Date)
        requires
            self.valid(),
            self.year < 9999 || self.month < 12,
        ensures
            r.valid(),
            r == next_month_of(*self),
            self.month == 12 ==> r == (Date { year: (self.year + 1) as i32, month: 1u8, day: 1u8 }),
            self.month < 12 ==> r == (Date { year: self.year, month: (self.month + 1) as u8, day: 1u8 }),
    {
        if self.month == 12 {
            Date { year: self.year + 1, month: 1, day: 1 }
        } else {
            Date { year: self.year, month: self.month + 1, day: 1 }
        }
    }
}

/// Executable `year_len`.
pub fn year_len_exec(y: i32) -> (r: u16)
    requires
        1 <= y <= 9999,
    ensures
        r == year_len(y as int),
{
    if is_leap_year_exec(y) {
        366
    } else {
        365
    }
}

/// Recover the date a day number falls on, walking years from 1970 and
/// then months from January.
pub fn from_epoch_days(days: i64) -> (r: Date)
    requires
        0 <= days <= MAX_EPOCH_DAYS,
    ensures
        r == date_of_epoch_days(days as int),
        r.valid(),
        epoch_days(r) == days,
{
    let mut year: i32 = 1970;
    let mut rem: i64 = days;
    while rem >= 366 || (rem >= 365 && !is_leap_year_exec(year))
        invariant
            1970 <= year <= 9999,
            0 <= rem <= days <= MAX_EPOCH_DAYS,
            day_number(Date { year, month: 1u8, day: 1u8 }) == EPOCH_OFFSET_DAYS + days - rem,
            year_of(days as int, 1970) == year_of(rem as int, year as int),
            days_into_year(days as int, 1970) == days_into_year(rem as int, year as int),
        decreases rem,
    {
        let yl = year_len_exec(year);
        assert(rem >= yl);
        proof {
            if year == 9999 {
                assert(9998int / 4 == 2499 && 9998int / 100 == 99 && 9998int / 400 == 24);
                assert(day_number(Date { year: 9999i32, month: 1u8, day: 1u8 }) == 3_651_694);
                assert(false);
            }
            lemma_year_step(year as int);
        }
        rem = rem - yl as i64;
        year = year + 1;
    }
    proof {
        assert(rem < year_len(year as int));
        assert(year_of(rem as int, year as int) == year);
        assert(days_into_year(rem as int, year as int) == rem);
    }
    let ghost rem_year = rem as int;
    let mut month: u8 = 1;
    while month < 12 && rem >= days_in_month_exec(year, month) as i64
        invariant
            1970 <= year <= 9999,
            1 <= month <= 12,
            0 <= rem <= rem_year < year_len(year as int),
            days_before_month(year as int, month as int) == rem_year - rem,
            day_number(Date { year, month, day: 1u8 }) == EPOCH_OFFSET_DAYS + days - rem,
            year_of(days as int, 1970) == year as int,
            days_into_year(days as int, 1970) == rem_year,
            month_of(year as int, rem_year, 1) == month_of(year as int, rem as int, month as int),
            days_into_month(year as int, rem_year, 1) == days_into_month(
                year as int,
                rem as int,
                month as int,
            ),
        decreases 12 - month,
    {
        let dim = days_in_month_exec(year, month);
        rem = rem - dim as i64;
        month = month + 1;
    }
    proof {
        if month == 12 && rem >= days_in_month(year as int, 12) {
            assert(false);
        }
        assert(month_of(year as int, rem as int, month as int) == month);
        assert(days_into_month(year as int, rem as int, month as int) == rem);
    }
    let d = Date { year, month, day: (rem + 1) as u8 };
    d
}

/// Executable leap-year rule.
pub fn is_leap_year_exec(y: i32) -> (r: bool)
    requires
        1 <= y <= 9999,
    ensures
        r == is_leap_year(y as int),
{
    (y % 4 == 0 && y % 100 != 0) || y % 400 == 0
}

/// Executable `days_in_month`.
pub fn days_in_month_exec(y: i32, m: u8) -> (r: u8)
    requires
        1 <= y <= 9999,
    ensures
        r == days_in_month(y as int, m as int),
{
    if m == 2 {
        if is_leap_year_exec(y) {
            29
        } else {
            28
        }
    } else if m == 4 || m == 6 || m == 9 || m == 11 {
        30
    } else {
        31
    }
}

/// Executable `days_before_month`.
pub fn days_before_month_exec(y: i32, m: u8) -> (r: u16)
    requires
        1 <= y <= 9999,
        1 <= m <= 12,
    ensures
        r == days_before_month(y as int, m as int),
{
    let base: u16 = if m == 1 {
        0
    } else if m == 2 {
        31
    } else if m == 3 {
        59
    } else if m == 4 {
        90
    } else if m == 5 {
        120
    } else if m == 6 {
        151
    } else if m == 7 {
        181
    } else if m == 8 {
        212
    } else if m == 9 {
        243
    } else if m == 10 {
        273
    } else if m == 11 {
        304
    } else {
        334
    };
    if m > 2 && is_leap_year_exec(y) {
        base + 1
    } else {
        base
    }
}

/// A decimal digit.
pub open spec fn is_digit(c: char) -> bool {
    '0' as int <= c as int <= '9' as int
}

/// Numeric value of a decimal digit.
pub open spec fn digit_val(c: char) -> int {
    c as int - '0' as int
}

/// The `YYYY-MM-DD` shape: ten characters, digits in the year, month and
/// day positions, dashes between them.
pub open spec fn date_str_shape(s: Seq<char>) -> bool {
    &&& s.len() == 10
    &&& is_digit(s[0])
    &&& is_digit(s[1])
    &&& is_digit(s[2])
    &&& is_digit(s[3])
    &&& s[4] == '-'
    &&& is_digit(s[5])
    &&& is_digit(s[6])
    &&& s[7] == '-'
    &&& is_digit(s[8])
    &&& is_digit(s[9])
}

/// The date a well-shaped `YYYY-MM-DD` string denotes.
pub open spec fn date_str_value(s: Seq<char>) -> Date {
    Date {
        year: (1000 * digit_val(s[0]) + 100 * digit_val(s[1]) + 10 * digit_val(s[2]) + digit_val(
            s[3],
        )) as i32,
        month: (10 * digit_val(s[5]) + digit_val(s[6])) as u8,
        day: (10 * digit_val(s[8]) + digit_val(s[9])) as u8,
    }
}

/// Executable digit test.
pub fn is_digit_exec(c: char) -> (r: bool)
    ensures
        r == is_digit(c),
{
    let u = c as u32;
    48 <= u && u <= 57
}

/// Parse a `YYYY-MM-DD` string into a calendar date.  Returns `None` when
/// the string does not have that shape or the digits name no valid date.
pub fn parse_date(s: &str) -> (r: Option<Date>)
    ensures
        r is Some <==> date_str_shape(s@) && date_str_value(s@).valid(),
        r is Some ==> r == Some(date_str_value(s@)),
{
    let n = s.unicode_len();
    if n != 10 {
        return None;
    }
    let c0 = s.get_char(0);
    let c1 = s.get_char(1);
    let c2 = s.get_char(2);
    let c3 = s.get_char(3);
    let c4 = s.get_char(4);
    let c5 = s.get_char(5);
    let c6 = s.get_char(6);
    let c7 = s.get_char(7);
    let c8 = s.get_char(8);
    let c9 = s.get_char(9);
    if !(is_digit_exec(c0) && is_digit_exec(c1) && is_digit_exec(c2) && is_digit_exec(c3) && c4
        == '-' && is_digit_exec(c5) && is_digit_exec(c6) && c7 == '-' && is_digit_exec(c8)
        && is_digit_exec(c9)) {
        return None;
    }
    let year: u32 = 1000 * (c0 as u32 - 48) + 100 * (c1 as u32 - 48) + 10 * (c2 as u32 - 48) + (
    c3 as u32 - 48);
    let month: u8 = (10 * (c5 as u32 - 48) + (c6 as u32 - 48)) as u8;
    let day: u8 = (10 * (c8 as u32 - 48) + (c9 as u32 - 48)) as u8;
    Date::new(year as i32, month, day)
}

/// The leap-year count grows with the year and stays within simple bounds.
pub proof fn lemma_leap_years_before_bounds(y: int)
    requires
        1 <= y <= 9999,
    ensures
        0 <= leap_years_before(y),
        y <= 9998 ==> leap_years_before(y) <= 2523,
{
    vstd::arithmetic::div_mod::lemma_div_is_ordered_by_denominator(y - 1, 4, 100);
    vstd::arithmetic::div_mod::lemma_div_pos_is_pos(y - 1, 400);
    if y <= 9998 {
        vstd::arithmetic::div_mod::lemma_div_is_ordered(y - 1, 9997, 4);
        vstd::arithmetic::div_mod::lemma_div_is_ordered(y - 1, 9997, 400);
        vstd::arithmetic::div_mod::lemma_div_pos_is_pos(y - 1, 100);
    }
}

/// Days in year `y`.
pub open spec fn year_len(y: int) -> int {
    365 + if is_leap_year(y) {
        1int
    } else {
        0int
    }
}

/// The year reached from January 1st of year `y` after `days` more days.
pub open spec fn year_of(days: int, y: int) -> int
    recommends
        days >= 0,
    decreases days,
{
    if 0 <= days - year_len(y) {
        year_of(days - year_len(y), y + 1)
    } else {
        y
    }
}

/// Days left inside the year reached by [`year_of`].
pub open spec fn days_into_year(days: int, y: int) -> int
    recommends
        days >= 0,
    decreases days,
{
    if 0 <= days - year_len(y) {
        days_into_year(days - year_len(y), y + 1)
    } else {
        days
    }
}

/// The month reached from the first day of month `m` of year `y` after
/// `days` more days.
pub open spec fn month_of(y: int, days: int, m: int) -> int
    recommends
        days >= 0,
        1 <= m <= 12,
    decreases 12 - m,
{
    if m < 12 && 0 <= days - days_in_month(y, m) {
        month_of(y, days - days_in_month(y, m), m + 1)
    } else {
        m
    }
}

/// Days left inside the month reached by [`month_of`].
pub open spec fn days_into_month(y: int, days: int, m: int) -> int
    recommends
        days >= 0,
        1 <= m <= 12,
    decreases 12 - m,
{
    if m < 12 && 0 <= days - days_in_month(y, m) {
        days_into_month(y, days - days_in_month(y, m), m + 1)
    } else {
        days
    }
}

/// The date a given day number falls on, reconstructed by walking years
/// from 1970 and then months from January.
pub open spec fn date_of_epoch_days(days: int) -> Date {
    let y = year_of(days, 1970);
    let rem = days_into_year(days, 1970);
    let m = month_of(y, rem, 1);
    let d = days_into_month(y, rem, 1);
    Date { year: y as i32, month: m as u8, day: (d + 1) as u8 }
}

/// How truncating division moves when its dividend steps by one.
proof fn lemma_div_step(x: int, d: int)
    requires
        x >= 1,
        d >= 1,
    ensures
        x / d == (x - 1) / d + if x % d == 0 {
            1int
        } else {
            0int
        },
{
    let q = (x - 1) / d;
    let r = (x - 1) % d;
    vstd::arithmetic::div_mod::lemma_fundamental_div_mod(x - 1, d);
    if r == d - 1 {
        assert((q + 1) * d == q * d + d) by (nonlinear_arith);
        vstd::arithmetic::div_mod::lemma_fundamental_div_mod_converse(x, d, q + 1, 0);
    } else {
        vstd::arithmetic::div_mod::lemma_fundamental_div_mod_converse(x, d, q, r + 1);
    }
}

/// A multiple of 400 is a multiple of 4 and of 100.
proof fn lemma_mod_400(y: int)
    requires
        y >= 1,
        y % 400 == 0,
    ensures
        y % 4 == 0,
        y % 100 == 0,
{
    let k = y / 400;
    vstd::arithmetic::div_mod::lemma_fundamental_div_mod(y, 400);
    assert(y == 400 * k);
    assert(400 * k == 4 * (100 * k)) by (nonlinear_arith);
    assert(400 * k == 100 * (4 * k)) by (nonlinear_arith);
    vstd::arithmetic::div_mod::lemma_fundamental_div_mod_converse(y, 4, 100 * k, 0);
    vstd::arithmetic::div_mod::lemma_fundamental_div_mod_converse(y, 100, 4 * k, 0);
}

/// A multiple of 100 is a multiple of 4.
proof fn lemma_mod_100(y: int)
    requires
        y >= 1,
        y % 100 == 0,
    ensures
        y % 4 == 0,
{
    let k = y / 100;
    vstd::arithmetic::div_mod::lemma_fundamental_div_mod(y, 100);
    assert(y == 100 * k);
    assert(100 * k == 4 * (25 * k)) by (nonlinear_arith);
    vstd::arithmetic::div_mod::lemma_fundamental_div_mod_converse(y, 4, 25 * k, 0);
}

/// Stepping from January 1st of one year to the next adds one year's days.
pub proof fn lemma_year_step(y: int)
    requires
        1 <= y <= 9998,
    ensures
        day_number(Date { year: (y + 1) as i32, month: 1u8, day: 1u8 }) == day_number(
            Date { year: y as i32, month: 1u8, day: 1u8 },
        ) + year_len(y),
{
    lemma_div_step(y, 4);
    lemma_div_step(y, 100);
    lemma_div_step(y, 400);
    if y % 400 == 0 {
        lemma_mod_400(y);
    }
    if y % 100 == 0 {
        lemma_mod_100(y);
    }
}

/// Every valid date's day number lies between day 0 and 9999-12-31's.
pub proof fn lemma_day_number_range(d: Date)
    requires
        d.valid(),
    ensures
        0 <= day_number(d) <= EPOCH_OFFSET_DAYS + MAX_EPOCH_DAYS,
{
    let y = d.year as int;
    lemma_leap_years_before_bounds(y);
    if y == 9999 {
        assert(9998int / 4 == 2499 && 9998int / 100 == 99 && 9998int / 400 == 24);
        assert(leap_years_before(9999) == 2424);
        assert(9999int % 4 == 3);
        assert(!is_leap_year(9999));
    }
}

} // verus!
