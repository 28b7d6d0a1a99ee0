//! The proleptic Gregorian calendar: dates and times of day in UTC, and
//! their conversion to and from seconds since the Unix epoch.

use crate::time::Timestamp;
use vstd::arithmetic::div_mod::{lemma_fundamental_div_mod, lemma_fundamental_div_mod_converse};
use vstd::prelude::*;

verus! {

/// Whether `y` is a leap year of the proleptic Gregorian calendar.
pub open spec fn is_leap_year(y: int) -> bool {
    y % 4 == 0 && (y % 100 != 0 || y % 400 == 0)
}

/// The number of leap years in `1..=y` (extended to all integers, so that
/// `leap_count(b) - leap_count(a)` counts the leap years in `a+1..=b`).
#[verifier::opaque]
pub open spec fn leap_count(y: int) -> int {
    y / 4 - y / 100 + y / 400
}

/// Days from 1970-01-01 to January 1 of year `y`.
pub open spec fn days_before_year(y: int) -> int {
    365 * (y - 1970) + leap_count(y - 1) - leap_count(1969)
}

/// Days in `month` (1 to 12) of a year that is a leap year or not.
pub open spec fn month_days(leap: bool, month: int) -> int {
    if month == 2 {
        if leap { 29 } else { 28 }
    } else if month == 4 || month == 6 || month == 9 || month == 11 {
        30
    } else {
        31
    }
}

/// Days from January 1 to the first day of `month` (1 to 12) of a year that
/// is a leap year or not.
pub open spec fn days_before_month(leap: bool, month: int) -> int {
    let l: int = if leap { 1 } else { 0 };
    if month <= 1 {
        0
    } else if month == 2 {
        31
    } else if month == 3 {
        59 + l
    } else if month == 4 {
        90 + l
    } else if month == 5 {
        120 + l
    } else if month == 6 {
        151 + l
    } else if month == 7 {
        181 + l
    } else if month == 8 {
        212 + l
    } else if month == 9 {
        243 + l
    } else if month == 10 {
        273 + l
    } else if month == 11 {
        304 + l
    } else {
        334 + l
    }
}

/// Seconds from the Unix epoch to the given calendar date and time of day.
pub open spec fn civil_seconds(
    year: int,
    month: int,
    day: int,
    hour: int,
    minute: int,
    second: int,
) -> int {
    86400 * (days_before_year(year) + days_before_month(is_leap_year(year), month) + day - 1) + 3600
        * hour + 60 * minute + second
}

/// A point in time as a date and time of day in UTC.
#[derive(Clone, Copy, Debug, Default, PartialEq, Eq, Hash, Structural)]
pub struct DateTime {
    /// The year.
    pub year: i64,
    /// The month of the year, from 1 to 12.
    pub month: u8,
    /// The day of the month, from 1 to 31.
    pub day: u8,
    /// The hour of the day, from 0 to 23.
    pub hour: u8,
    /// The minute of the hour, from 0 to 59.
    pub minute: u8,
    /// The second of the minute, from 0 to 59.
    pub second: u8,
    /// The nanoseconds, from 0 to 999_999_999.
    pub nanos: u32,
}

/// The year of the earliest representable timestamp.
pub const MIN_YEAR: i64 = -292_277_022_657;

/// The year of the latest representable timestamp.
pub const MAX_YEAR: i64 = 292_277_026_596;

/// `a` comes no later than `b`, comparing field by field from the year down.
pub open spec fn lex_le(a: DateTime, b: DateTime) -> bool {
    if a.year != b.year {
        a.year < b.year
    } else if a.month != b.month {
        a.month < b.month
    } else if a.day != b.day {
        a.day < b.day
    } else if a.hour != b.hour {
        a.hour < b.hour
    } else if a.minute != b.minute {
        a.minute < b.minute
    } else if a.second != b.second {
        a.second < b.second
    } else {
        a.nanos <= b.nanos
    }
}

impl DateTime {
    /// The date and time of the earliest representable timestamp.
    pub open spec fn spec_min() -> DateTime {
        DateTime {
            year: MIN_YEAR,
            month: 1,
            day: 27,
            hour: 8,
            minute: 29,
            second: 52,
            nanos: 0,
        }
    }

    /// The date and time of the latest representable timestamp.
    pub open spec fn spec_max() -> DateTime {
        DateTime {
            year: MAX_YEAR,
            month: 12,
            day: 4,
            hour: 15,
            minute: 30,
            second: 7,
            nanos: 999_999_999,
        }
    }

    /// The date and time of the earliest representable timestamp.
    pub fn min_value() -> (r: DateTime)
        ensures
            r == DateTime::spec_min(),
    {
        DateTime { year: MIN_YEAR, month: 1, day: 27, hour: 8, minute: 29, second: 52, nanos: 0 }
    }

    /// The date and time of the latest representable timestamp.
    pub fn max_value() -> (r: DateTime)
        ensures
            r == DateTime::spec_max(),
    {
        DateTime {
            year: MAX_YEAR,
            month: 12,
            day: 4,
            hour: 15,
            minute: 30,
            second: 7,
            nanos: 999_999_999,
        }
    }

    /// A real calendar date and time of day within the representable range.
    pub open spec fn spec_is_valid(self) -> bool {
        &&& lex_le(DateTime::spec_min(), self)
        &&& lex_le(self, DateTime::spec_max())
        &&& 1 <= self.month <= 12
        &&& 1 <= self.day <= month_days(is_leap_year(self.year as int), self.month as int)
        &&& self.hour < 24
        &&& self.minute < 60
        &&& self.second < 60
        &&& self.nanos < 1_000_000_000
    }

    /// Seconds from the Unix epoch to this date and time (nanoseconds aside).
    pub open spec fn spec_seconds(self) -> int {
        civil_seconds(
            self.year as int,
            self.month as int,
            self.day as int,
            self.hour as int,
            self.minute as int,
            self.second as int,
        )
    }

    /// Whether this comes no later than `other`.
    pub fn le(&self, other: &DateTime) -> (r: bool)
        ensures
            r == lex_le(*self, *other),
    {
        if self.year != other.year {
            return self.year < other.year;
        }
        if self.month != other.month {
            return self.month < other.month;
        }
        if self.day != other.day {
            return self.day < other.day;
        }
        if self.hour != other.hour {
            return self.hour < other.hour;
        }
        if self.minute != other.minute {
            return self.minute < other.minute;
        }
        if self.second != other.second {
            return self.second < other.second;
        }
        self.nanos <= other.nanos
    }

    /// Returns `true` if this is a valid calendar date and time within the
    /// range of a timestamp.
    pub fn is_valid(&self) -> (r: bool)
        ensures
            r == self.spec_is_valid(),
    {
        DateTime::min_value().le(self) && self.le(&DateTime::max_value()) && self.month > 0
            && self.month <= 12 && self.day > 0 && self.day <= days_in_month(self.year, self.month)
            && self.hour < 24 && self.minute < 60 && self.second < 60 && self.nanos < 1_000_000_000
    }
}

proof fn lemma_leap_count_shift(y: int, c: int)
    ensures
        leap_count(y + 400 * c) == leap_count(y) + 97 * c,
{
    reveal(leap_count);
    assert((y + 400 * c) / 4 == y / 4 + 100 * c);
    assert((y + 400 * c) / 100 == y / 100 + 4 * c);
    assert((y + 400 * c) / 400 == y / 400 + c);
}

/// The leap years from 2001 to the year before `2000 + r`, for `r` in one
/// 400 year cycle, counted by centuries and four year cycles.
proof fn lemma_leaps_in_cycle(r: int, k: int, q: int, rr: int)
    requires
        0 <= k <= 3,
        0 <= q <= 24,
        0 <= rr <= 3,
        r == 100 * k + 4 * q + rr,
    ensures
        leap_count(1999 + r) - leap_count(2000) == if r == 0 {
            -1
        } else if q == 0 && rr == 0 {
            24 * k
        } else {
            24 * k + q - if rr == 0 { 1int } else { 0int }
        },
        leap_count(2000) == 485,
{
    reveal(leap_count);
    if r == 0 {
        assert((1999 + r) / 400 == 4);
    } else if q == 0 && rr == 0 {
        assert((1999 + r) / 400 == 5);
        assert((1999 + r) / 4 == 499 + 25 * k);
        assert((1999 + r) / 100 == 19 + k);
    } else {
        assert((1999 + r) / 400 == 5);
        assert((1999 + r) / 100 == 20 + k);
        if rr == 0 {
            assert((1999 + r) / 4 == 499 + 25 * k + q);
        } else {
            assert((1999 + r) / 4 == 500 + 25 * k + q);
        }
    }
}

proof fn lemma_leap_year_cycle(r: int, k: int, q: int, rr: int, c: int)
    requires
        0 <= k <= 3,
        0 <= q <= 24,
        0 <= rr <= 3,
        r == 100 * k + 4 * q + rr,
    ensures
        is_leap_year(2000 + r + 400 * c) == (r == 0 || (!(q == 0 && rr == 0) && rr == 0)),
{
    let y = 2000 + r + 400 * c;
    lemma_fundamental_div_mod_converse(y, 4, 500 + 25 * k + q + 100 * c, rr);
    lemma_fundamental_div_mod_converse(y, 400, 5 + c, r);
    if q == 0 && rr == 0 {
        lemma_fundamental_div_mod_converse(y, 100, 20 + k + 4 * c, 0);
    } else {
        lemma_fundamental_div_mod_converse(y, 100, 20 + k + 4 * c, 4 * q + rr);
    }
}

proof fn lemma_leap_count_values()
    ensures
        leap_count(1969) == 477,
        leap_count(2000) == 485,
{
    reveal(leap_count);
}

/// `y` and `y - 1` fall in different blocks of `d` exactly where `d` divides `y`.
proof fn lemma_div_step(y: int, d: int)
    requires
        d > 0,
    ensures
        y / d - (y - 1) / d == if y % d == 0 { 1int } else { 0int },
{
    let qq = y / d;
    let rr = y % d;
    lemma_fundamental_div_mod(y, d);
    if rr == 0 {
        assert(y - 1 == (qq - 1) * d + (d - 1)) by (nonlinear_arith)
            requires
                y == d * qq + rr,
                rr == 0,
        ;
        lemma_fundamental_div_mod_converse(y - 1, d, qq - 1, d - 1);
    } else {
        assert(y - 1 == qq * d + (rr - 1)) by (nonlinear_arith)
            requires
                y == d * qq + rr,
        ;
        lemma_fundamental_div_mod_converse(y - 1, d, qq, rr - 1);
    }
}

proof fn lemma_leap_step(y: int)
    ensures
        leap_count(y) == leap_count(y - 1) + if is_leap_year(y) { 1int } else { 0int },
{
    reveal(leap_count);
    lemma_div_step(y, 4);
    lemma_div_step(y, 100);
    lemma_div_step(y, 400);
    if y % 400 == 0 {
        lemma_fundamental_div_mod(y, 400);
        lemma_fundamental_div_mod_converse(y, 100, 4 * (y / 400), 0);
        lemma_fundamental_div_mod_converse(y, 4, 100 * (y / 400), 0);
    } else if y % 100 == 0 {
        lemma_fundamental_div_mod(y, 100);
        lemma_fundamental_div_mod_converse(y, 4, 25 * (y / 100), 0);
    }
}

/// Returns the number of days in the month.
pub fn days_in_month(year: i64, month: u8) -> (r: u8)
    requires
        1 <= month <= 12,
        -300_000_000_000 <= year <= 300_000_000_000,
    ensures
        r == month_days(is_leap_year(year as int), month as int),
{
    let days: [u8; 12] = [31, 28, 31, 30, 31, 30, 31, 31, 30, 31, 30, 31];
    let (_, is_leap) = year_to_seconds(year);
    let extra: u8 = if is_leap && month == 2 { 1 } else { 0 };
    days[(month - 1) as usize] + extra
}

/// Returns the seconds from the Unix epoch to the start of `year`, and whether
/// the year is a leap year.
///
/// The year is split into 400, 100 and 4 year cycles from 2000; the result is
/// an `i128` because the start of the earliest supported year does not fit
/// in an `i64`.
pub fn year_to_seconds(year: i64) -> (r: (i128, bool))
    requires
        -300_000_000_000 <= year <= 300_000_000_000,
    ensures
        r.0 == 86400 * days_before_year(year as int),
        r.1 == is_leap_year(year as int),
{
    let is_leap: bool;
    let centuries: i64;
    let mut leaps: i64;
    let y = year - 2000;
    let mut cycles: i64 = y / 400;
    let mut rem: i64 = y % 400;
    if rem < 0 {
        cycles = cycles - 1;
        rem = rem + 400;
    }
    assert(y == 400 * cycles + rem && 0 <= rem < 400);
    let ghost r0 = rem as int;
    let ghost q: int = 0;
    let ghost rr: int = 0;
    if rem == 0 {
        is_leap = true;
        centuries = 0;
        leaps = 0;
    } else {
        if rem >= 200 {
            if rem >= 300 {
                centuries = 3;
                rem = rem - 300;
            } else {
                centuries = 2;
                rem = rem - 200;
            }
        } else if rem >= 100 {
            centuries = 1;
            rem = rem - 100;
        } else {
            centuries = 0;
        }
        if rem == 0 {
            is_leap = false;
            leaps = 0;
        } else {
            leaps = rem / 4;
            proof {
                q = (rem / 4) as int;
                rr = (rem % 4) as int;
            }
            rem = rem % 4;
            is_leap = rem == 0;
        }
    }
    let leap_adjust: i64 = if is_leap { 1 } else { 0 };
    leaps = leaps + 97 * cycles + 24 * centuries - leap_adjust;
    proof {
        lemma_leap_count_values();
        lemma_leaps_in_cycle(r0, centuries as int, q, rr);
        lemma_leap_year_cycle(r0, centuries as int, q, rr, cycles as int);
        lemma_leap_count_shift(1999 + r0, cycles as int);
        assert(year - 1 == 1999 + r0 + 400 * cycles);
        assert(leaps == leap_count(year - 1) - 485);
    }
    (y as i128 * 31_536_000 + (leaps as i128 * 86400 + 946_684_800 + 86400), is_leap)
}


/// Returns the seconds from January 1 to the first day of `month`.
pub fn month_to_seconds(month: u8, is_leap: bool) -> (r: u32)
    requires
        1 <= month <= 12,
    ensures
        r == 86400 * days_before_month(is_leap, month as int),
{
    let secs_through_month: [u32; 12] = [
        0,
        31 * 86400,
        59 * 86400,
        90 * 86400,
        120 * 86400,
        151 * 86400,
        181 * 86400,
        212 * 86400,
        243 * 86400,
        273 * 86400,
        304 * 86400,
        334 * 86400,
    ];
    let t = secs_through_month[(month - 1) as usize];
    if is_leap && month > 2 {
        t + 86400
    } else {
        t
    }
}

/// A valid date and time lies within the seconds range of an `i64`.
pub proof fn lemma_valid_seconds_in_range(dt: DateTime)
    requires
        dt.spec_is_valid(),
    ensures
        i64::MIN <= dt.spec_seconds() <= i64::MAX,
{
    reveal(leap_count);
    let y = dt.year as int;
    let leap = is_leap_year(y);
    let within = dt.spec_seconds() - 86400 * days_before_year(y);
    assert(0 <= within < 86400 * (365 + if leap { 1int } else { 0int }));
    assert(days_before_year(y + 1) == days_before_year(y) + 365 + if leap { 1int } else { 0int })
        by {
        lemma_leap_step(y);
    }
    if y == MIN_YEAR {
        assert(dt.spec_seconds() >= DateTime::spec_min().spec_seconds());
    } else {
        assert(86400 * days_before_year(y) >= i64::MIN);
    }
    if y == MAX_YEAR {
        assert(dt.spec_seconds() <= DateTime::spec_max().spec_seconds());
    } else {
        assert(86400 * days_before_year(y + 1) <= i64::MAX + 1);
    }
}

/// Returns the seconds from the Unix epoch to a valid date and time.
pub fn date_time_to_seconds(tm: &DateTime) -> (r: i64)
    requires
        tm.spec_is_valid(),
    ensures
        r == tm.spec_seconds(),
{
    let (start_of_year, is_leap) = year_to_seconds(tm.year);
    let seconds_within_year = month_to_seconds(tm.month, is_leap) + 86400 * ((tm.day - 1) as u32)
        + 3600 * (tm.hour as u32) + 60 * (tm.minute as u32) + (tm.second as u32);
    proof {
        lemma_valid_seconds_in_range(*tm);
    }
    (start_of_year + seconds_within_year as i128) as i64
}


/// Why a timestamp could not be made or converted.
#[derive(Clone, Copy, Debug, PartialEq, Eq)]
pub enum TimestampError {
    /// The timestamp lies outside what the system clock type can hold.
    OutOfSystemRange(Timestamp),
    /// The text is not an RFC 3339 timestamp.
    ParseFailure,
    /// The date or time of day is not a valid one.
    InvalidDateTime,
}

impl Timestamp {
    /// The timestamp of a valid date and time; an error where the date and
    /// time are not valid or out of range.
    pub fn try_from_date_time(date_time: DateTime) -> (r: Result<Timestamp, TimestampError>)
        ensures
            date_time.spec_is_valid() ==> r == Ok::<Timestamp, TimestampError>(
                Timestamp {
                    seconds: date_time.spec_seconds() as i64,
                    nanos: date_time.nanos as i32,
                },
            ),
            !date_time.spec_is_valid() ==> r == Err::<Timestamp, TimestampError>(
                TimestampError::InvalidDateTime,
            ),
    {
        if !date_time.is_valid() {
            return Err(TimestampError::InvalidDateTime);
        }
        let seconds = date_time_to_seconds(&date_time);
        Ok(Timestamp { seconds, nanos: date_time.nanos as i32 })
    }

    /// The UTC date and time of this timestamp, after normalizing it.
    pub fn to_datetime(&self) -> (r: DateTime)
        ensures
            r.spec_is_valid(),
            r.spec_seconds() == self.spec_normalized().seconds,
            r.nanos == self.spec_normalized().nanos,
    {
        DateTime::from_timestamp(*self)
    }

    /// The timestamp at the start of the given UTC date.
    pub fn date(year: i64, month: u8, day: u8) -> (r: Result<Timestamp, TimestampError>)
        ensures
            r == Timestamp::spec_date_time_nanos(year, month, day, 0, 0, 0, 0),
    {
        Timestamp::date_time_nanos(year, month, day, 0, 0, 0, 0)
    }

    /// The timestamp of the given UTC date and time of day.
    pub fn date_time(year: i64, month: u8, day: u8, hour: u8, minute: u8, second: u8) -> (r:
        Result<Timestamp, TimestampError>)
        ensures
            r == Timestamp::spec_date_time_nanos(year, month, day, hour, minute, second, 0),
    {
        Timestamp::date_time_nanos(year, month, day, hour, minute, second, 0)
    }

    /// The timestamp of the given UTC date and time, or the error of an
    /// invalid one.
    pub open spec fn spec_date_time_nanos(
        year: i64,
        month: u8,
        day: u8,
        hour: u8,
        minute: u8,
        second: u8,
        nanos: u32,
    ) -> Result<Timestamp, TimestampError> {
        let dt = DateTime { year, month, day, hour, minute, second, nanos };
        if dt.spec_is_valid() {
            Ok(Timestamp { seconds: dt.spec_seconds() as i64, nanos: nanos as i32 })
        } else {
            Err(TimestampError::InvalidDateTime)
        }
    }

    /// The timestamp of the given UTC date and time with nanoseconds.
    pub fn date_time_nanos(
        year: i64,
        month: u8,
        day: u8,
        hour: u8,
        minute: u8,
        second: u8,
        nanos: u32,
    ) -> (r: Result<Timestamp, TimestampError>)
        ensures
            r == Timestamp::spec_date_time_nanos(year, month, day, hour, minute, second, nanos),
    {
        let date_time = DateTime { year, month, day, hour, minute, second, nanos };
        Timestamp::try_from_date_time(date_time)
    }
}


/// Days from 2000-03-01 to March 1 of year `2000 + a`.
#[verifier::opaque]
pub open spec fn days_to_march(a: int) -> int {
    365 * a + a / 4 - a / 100 + a / 400
}

proof fn lemma_march_start(a: int)
    ensures
        days_before_year(2000 + a) + 59 + (if is_leap_year(2000 + a) { 1int } else { 0int })
            == 11017 + days_to_march(a),
{
    reveal(days_to_march);
    lemma_leap_step(2000 + a);
    lemma_leap_count_shift(a, 5);
    reveal(leap_count);
}

proof fn lemma_cycles(qc: int, c: int, q: int, y: int)
    requires
        0 <= c <= 3,
        0 <= q <= 24,
        0 <= y <= 3,
    ensures
        days_to_march(400 * qc + 100 * c + 4 * q + y) == 146097 * qc + 36524 * c + 1461 * q + 365
            * y,
{
    reveal(days_to_march);
    let a = 400 * qc + 100 * c + 4 * q + y;
    lemma_fundamental_div_mod_converse(a, 4, 100 * qc + 25 * c + q, y);
    lemma_fundamental_div_mod_converse(a, 100, 4 * qc + c, 4 * q + y);
    lemma_fundamental_div_mod_converse(a, 400, qc, 100 * c + 4 * q + y);
}

/// The March based year `a` has a February 29 at its end where its last day
/// is reached through the cycles.
proof fn lemma_long_year(qc: int, c: int, q: int)
    requires
        0 <= c <= 3,
        0 <= q <= 24,
        q == 24 ==> c == 3,
    ensures
        is_leap_year(2001 + 400 * qc + 100 * c + 4 * q + 3),
{
    let y = 2001 + 400 * qc + 100 * c + 4 * q + 3;
    if q == 24 {
        lemma_fundamental_div_mod_converse(y, 4, 600 + 100 * qc, 0);
        lemma_fundamental_div_mod_converse(y, 400, 6 + qc, 0);
    } else {
        lemma_fundamental_div_mod_converse(y, 4, 501 + 100 * qc + 25 * c + q, 0);
        lemma_fundamental_div_mod_converse(y, 100, 20 + 4 * qc + c, 4 * q + 4);
    }
}

/// Days before month `m` of a March based year (0 is March, 11 February).
pub open spec fn march_month_start(m: int) -> int {
    if m <= 0 {
        0
    } else if m == 1 {
        31
    } else if m == 2 {
        61
    } else if m == 3 {
        92
    } else if m == 4 {
        122
    } else if m == 5 {
        153
    } else if m == 6 {
        184
    } else if m == 7 {
        214
    } else if m == 8 {
        245
    } else if m == 9 {
        275
    } else if m == 10 {
        306
    } else if m == 11 {
        337
    } else {
        366
    }
}

/// The calendar year, month and day of day `r` of month `m` of the March
/// based year `a` (0 is March, 11 February).
proof fn lemma_march_date(a: int, m: int, r: int, days: int)
    requires
        0 <= m <= 11,
        0 <= r,
        r + march_month_start(m) < march_month_start(m + 1),
        days == days_to_march(a) + march_month_start(m) + r,
        m == 11 && r == 28 ==> is_leap_year(2001 + a),
    ensures
        ({
            let y = if m >= 10 { 2001 + a } else { 2000 + a };
            let month = if m >= 10 { m - 9 } else { m + 3 };
            &&& days_before_year(y) + days_before_month(is_leap_year(y), month) + r == days + 11017
            &&& r + 1 <= month_days(is_leap_year(y), month)
        }),
{
    lemma_march_start(a);
    lemma_march_start(a + 1);
    assert(days_before_year(2001 + a) == days_before_year(2000 + a) + 365 + if is_leap_year(
        2000 + a,
    ) {
        1int
    } else {
        0int
    }) by {
        lemma_leap_step(2000 + a);
        reveal(leap_count);
    }
}

/// Fields within their calendar ranges whose seconds fit in an `i64` lie
/// within the representable range.
proof fn lemma_in_range_valid(dt: DateTime)
    requires
        1 <= dt.month <= 12,
        1 <= dt.day <= month_days(is_leap_year(dt.year as int), dt.month as int),
        dt.hour < 24,
        dt.minute < 60,
        dt.second < 60,
        dt.nanos < 1_000_000_000,
        i64::MIN <= dt.spec_seconds() <= i64::MAX,
    ensures
        dt.spec_is_valid(),
{
    reveal(leap_count);
    let y = dt.year as int;
    let leap = is_leap_year(y);
    assert(days_before_year(y + 1) == days_before_year(y) + 365 + if leap { 1int } else { 0int })
        by {
        lemma_leap_step(y);
    }
    let within = dt.spec_seconds() - 86400 * days_before_year(y);
    assert(0 <= within < 86400 * (365 + if leap { 1int } else { 0int }));
    if y < MIN_YEAR {
        assert(86400 * days_before_year(y + 1) <= i64::MIN);
    }
    if y > MAX_YEAR {
        assert(86400 * days_before_year(y) > i64::MAX);
    }
    if y == MIN_YEAR {
        assert(DateTime::spec_min().spec_seconds() == i64::MIN);
    }
    if y == MAX_YEAR {
        assert(DateTime::spec_max().spec_seconds() == i64::MAX);
    }
}

/// Splits seconds from the epoch into days from 2000-03-01 and seconds of
/// the day.
fn split_days(t: i64) -> (r: (i64, i32))
    ensures
        t == 86400 * (r.0 + 11017) + r.1,
        0 <= r.1 < 86400,
        -106_800_000_000_000 <= r.0 <= 106_800_000_000_000,
{
    let mut days: i64 = (t / 86_400) - 11017;
    let mut remsecs: i32 = (t % 86_400) as i32;
    if remsecs < 0 {
        remsecs = remsecs + 86_400;
        days = days - 1;
    }
    (days, remsecs)
}

/// Splits days from 2000-03-01 into a March based year from 2000 and the
/// days into it, through 400, 100, 4 and 1 year cycles.
fn split_years(days: i64) -> (r: (i64, i32))
    requires
        -106_800_000_000_000 <= days <= 106_800_000_000_000,
    ensures
        days == days_to_march(r.0 as int) + r.1,
        0 <= r.1 <= 365,
        r.1 == 365 ==> is_leap_year(2001 + r.0),
        -300_000_000_000 <= r.0 <= 300_000_000_000,
{
    let mut qc_cycles: i32 = (days / 146_097) as i32;
    let mut remdays: i32 = (days % 146_097) as i32;
    if remdays < 0 {
        remdays = remdays + 146_097;
        qc_cycles = qc_cycles - 1;
    }
    assert(days == 146_097 * qc_cycles + remdays && 0 <= remdays < 146_097);

    let mut c_cycles: i32 = remdays / 36_524;
    if c_cycles == 4 {
        c_cycles = c_cycles - 1;
    }
    remdays = remdays - c_cycles * 36_524;
    assert(0 <= remdays <= 36_524);
    assert(remdays == 36_524 ==> c_cycles == 3);

    let mut q_cycles: i32 = remdays / 1461;
    if q_cycles == 25 {
        q_cycles = q_cycles - 1;
    }
    remdays = remdays - q_cycles * 1461;
    assert(0 <= q_cycles <= 24 && 0 <= remdays <= 1460);
    assert(q_cycles == 24 && remdays == 1460 ==> c_cycles == 3);

    let mut remyears: i32 = remdays / 365;
    if remyears == 4 {
        remyears = remyears - 1;
    }
    let ghost r3 = remdays;
    remdays = remdays - remyears * 365;
    assert(0 <= remyears <= 3 && 0 <= remdays <= 365);
    assert(remdays == 365 ==> remyears == 3 && r3 == 1460);

    let years: i64 = remyears as i64 + 4 * q_cycles as i64 + 100 * c_cycles as i64 + 400
        * qc_cycles as i64;
    proof {
        lemma_cycles(qc_cycles as int, c_cycles as int, q_cycles as int, remyears as int);
        if remdays == 365 {
            lemma_long_year(qc_cycles as int, c_cycles as int, q_cycles as int);
        }
    }
    (years, remdays)
}

impl DateTime {
    /// The UTC date and time of a timestamp, after normalizing it.
    ///
    /// The seconds are split into days and seconds of the day; the days from
    /// 2000-03-01 into 400, 100, 4 and 1 year cycles, and the rest walks a
    /// month table that starts in March, so that February 29 comes last.
    pub fn from_timestamp(timestamp: Timestamp) -> (r: DateTime)
        ensures
            r.spec_is_valid(),
            r.spec_seconds() == timestamp.spec_normalized().seconds,
            r.nanos == timestamp.spec_normalized().nanos,
    {
        let mut timestamp = timestamp;
        timestamp.normalize();
        let t = timestamp.seconds;
        let nanos = timestamp.nanos;
        let days_in_month: [i32; 12] = [31, 30, 31, 30, 31, 31, 30, 31, 30, 31, 31, 29];

        let (days, remsecs) = split_days(t);
        let (mut years, mut remdays) = split_years(days);
        let ghost a = years as int;

        let mut months: i32 = 0;
        while days_in_month[months as usize] <= remdays
            invariant
                0 <= months <= 11,
                0 <= remdays,
                remdays + march_month_start(months as int) == days - days_to_march(a),
                days - days_to_march(a) <= 365,
                days_in_month@ == seq![31i32, 30, 31, 30, 31, 31, 30, 31, 30, 31, 31, 29],
            decreases 12 - months,
        {
            remdays = remdays - days_in_month[months as usize];
            months = months + 1;
        }
        proof {
            lemma_march_date(a, months as int, remdays as int, days as int);
        }
        if months >= 10 {
            months = months - 12;
            years = years + 1;
        }
        let date_time = DateTime {
            year: years + 2000,
            month: (months + 3) as u8,
            day: (remdays + 1) as u8,
            hour: (remsecs / 3600) as u8,
            minute: (remsecs / 60 % 60) as u8,
            second: (remsecs % 60) as u8,
            nanos: nanos as u32,
        };
        proof {
            lemma_in_range_valid(date_time);
        }
        date_time
    }
}

} // verus!
