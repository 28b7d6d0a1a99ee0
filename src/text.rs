//! The grammar of RFC 3339 timestamps and of protobuf JSON durations, over
//! ASCII bytes.

use crate::datetime::{lemma_valid_seconds_in_range, DateTime, TimestampError};
use crate::time::{Duration, DurationError, Timestamp};
use vstd::prelude::*;

verus! {

/// Whether `c` is an ASCII decimal digit.
pub open spec fn is_digit(c: u8) -> bool {
    48 <= c <= 57
}

/// The value of an ASCII decimal digit.
pub open spec fn digit_value(c: u8) -> int {
    c - 48
}

/// An ASCII byte in lower case.
pub open spec fn ascii_lower(c: u8) -> u8 {
    if 65 <= c <= 90 {
        (c + 32) as u8
    } else {
        c
    }
}

/// The bytes of an ASCII text.
pub open spec fn ascii_bytes(s: Seq<char>) -> Seq<u8> {
    Seq::new(s.len(), |i: int| s[i] as u8)
}

/// `10^n`.
pub open spec fn pow10(n: nat) -> int
    decreases n,
{
    if n == 0 {
        1
    } else {
        10 * pow10((n - 1) as nat)
    }
}

/// The end of the run of digits that starts at `p`.
pub open spec fn digits_end(s: Seq<u8>, p: int) -> int
    decreases s.len() - p,
{
    if 0 <= p < s.len() && is_digit(s[p]) {
        digits_end(s, p + 1)
    } else {
        p
    }
}

/// The decimal value of the digits `s[i..j]`.
pub open spec fn decimal(s: Seq<u8>, i: int, j: int) -> int
    decreases j - i,
{
    if j <= i {
        0
    } else {
        decimal(s, i, j - 1) * 10 + digit_value(s[j - 1])
    }
}

/// The byte `c` at `p`: the position after it.
pub open spec fn spec_char(s: Seq<u8>, p: int, c: u8) -> Option<usize> {
    if 0 <= p < s.len() && s[p] == c {
        Some((p + 1) as usize)
    } else {
        None
    }
}

/// The byte `c` at `p`, in either case: the position after it.
pub open spec fn spec_char_ignore_case(s: Seq<u8>, p: int, c: u8) -> Option<usize> {
    if 0 <= p < s.len() && ascii_lower(s[p]) == ascii_lower(c) {
        Some((p + 1) as usize)
    } else {
        None
    }
}

/// Two digits at `p`: their value and the position after them.
pub open spec fn spec_two_digits(s: Seq<u8>, p: int) -> Option<(u8, usize)> {
    if 0 <= p && p + 2 <= s.len() && is_digit(s[p]) && is_digit(s[p + 1]) {
        Some(((digit_value(s[p]) * 10 + digit_value(s[p + 1])) as u8, (p + 2) as usize))
    } else {
        None
    }
}

/// The digits `s[i..j]` as an `i64`, where there is at least one and the
/// value fits.
pub open spec fn spec_i64_of(s: Seq<u8>, i: int, j: int) -> Option<i64> {
    if i < j && decimal(s, i, j) <= i64::MAX {
        Some(decimal(s, i, j) as i64)
    } else {
        None
    }
}

/// Nanoseconds written by the fraction digits `s[i..j]`: the first nine
/// digits count, scaled to nine places.
pub open spec fn fraction_nanos(s: Seq<u8>, i: int, j: int) -> int {
    let k = if j - i > 9 { i + 9 } else { j };
    decimal(s, i, k) * pow10((9 - (k - i)) as nat)
}

/// An optional fraction at `p`: `.` and at least one digit, or nothing.
pub open spec fn spec_nanos(s: Seq<u8>, p: int) -> Option<(u32, usize)> {
    match spec_char(s, p, 46) {
        Some(q) => {
            let j = digits_end(s, q as int);
            if j == q {
                None
            } else {
                Some((fraction_nanos(s, q as int, j) as u32, j as usize))
            }
        },
        None => Some((0, p as usize)),
    }
}

/// A year at `p`: `+` and five or more digits, `-` and four or more digits,
/// or four digits.
pub open spec fn spec_year(s: Seq<u8>, p: int) -> Option<(i64, usize)> {
    if 0 <= p < s.len() && s[p] == 43 {
        let j = digits_end(s, p + 1);
        if j - (p + 1) < 5 {
            None
        } else {
            match spec_i64_of(s, p + 1, j) {
                Some(v) => Some((v, j as usize)),
                None => None,
            }
        }
    } else if 0 <= p < s.len() && s[p] == 45 {
        let j = digits_end(s, p + 1);
        if j - (p + 1) < 4 {
            None
        } else {
            match spec_i64_of(s, p + 1, j) {
                Some(v) => Some(((-v) as i64, j as usize)),
                None => None,
            }
        }
    } else {
        match spec_two_digits(s, p) {
            Some((hi, q)) => match spec_two_digits(s, q as int) {
                Some((lo, r)) => Some(((hi * 100 + lo) as i64, r)),
                None => None,
            },
            None => None,
        }
    }
}

/// A date at `p`: year, `-`, two digit month, `-`, two digit day, where at
/// least ten bytes remain.
pub open spec fn spec_date(s: Seq<u8>, p: int) -> Option<(i64, u8, u8, usize)> {
    if s.len() - p < 10 {
        None
    } else {
        match spec_year(s, p) {
            None => None,
            Some((year, q)) => match spec_char(s, q as int, 45) {
                None => None,
                Some(q) => match spec_two_digits(s, q as int) {
                    None => None,
                    Some((month, q)) => match spec_char(s, q as int, 45) {
                        None => None,
                        Some(q) => match spec_two_digits(s, q as int) {
                            None => None,
                            Some((day, q)) => Some((year, month, day, q)),
                        },
                    },
                },
            },
        }
    }
}

/// A time of day at `p`: two digit hour, minute and second separated by `:`,
/// and an optional fraction.
pub open spec fn spec_time(s: Seq<u8>, p: int) -> Option<(u8, u8, u8, u32, usize)> {
    match spec_two_digits(s, p) {
        None => None,
        Some((hour, q)) => match spec_char(s, q as int, 58) {
            None => None,
            Some(q) => match spec_two_digits(s, q as int) {
                None => None,
                Some((minute, q)) => match spec_char(s, q as int, 58) {
                    None => None,
                    Some(q) => match spec_two_digits(s, q as int) {
                        None => None,
                        Some((second, q)) => match spec_nanos(s, q as int) {
                            None => None,
                            Some((nanos, q)) => Some((hour, minute, second, nanos, q)),
                        },
                    },
                },
            },
        },
    }
}

/// The hours and minutes of a numeric offset after its sign at `p`: two
/// digits, then, unless the text ends, an optional `:` and two digits.
pub open spec fn spec_offset_digits(s: Seq<u8>, p: int) -> Option<(u8, u8, usize)> {
    match spec_two_digits(s, p) {
        None => None,
        Some((hour, q)) => if q == s.len() {
            Some((hour, 0, q))
        } else {
            let q2: int = if s[q as int] == 58 { q + 1 } else { q as int };
            match spec_two_digits(s, q2) {
                None => None,
                Some((minute, r)) => Some((hour, minute, r)),
            }
        },
    }
}

/// A UTC offset at `p`: nothing at all, or an optional space and then `Z` in
/// either case or a signed hour and minute offset, `-00:00` excluded.
pub open spec fn spec_offset(s: Seq<u8>, p: int) -> Option<(i8, i8, usize)> {
    if p == s.len() {
        Some((0, 0, p as usize))
    } else {
        let q: int = if s[p] == 32 { p + 1 } else { p };
        match spec_char_ignore_case(s, q, 90) {
            Some(r) => Some((0, 0, r)),
            None => {
                let positive = spec_char(s, q, 43) is Some;
                if !positive && spec_char(s, q, 45) is None {
                    None
                } else {
                    match spec_offset_digits(s, q + 1) {
                        None => None,
                        Some((hour, minute, r)) => if !(positive || hour > 0 || minute > 0) {
                            None
                        } else if !(hour < 24 && minute < 60) {
                            None
                        } else if positive {
                            Some((hour as i8, minute as i8, r))
                        } else {
                            Some(((-hour) as i8, (-minute) as i8, r))
                        },
                    }
                }
            },
        }
    }
}

proof fn lemma_decimal_nonneg(s: Seq<u8>, i: int, k: int)
    requires
        forall|t: int| i <= t < k ==> is_digit(#[trigger] s[t]),
    ensures
        0 <= decimal(s, i, k),
    decreases k - i,
{
    if k > i {
        lemma_decimal_nonneg(s, i, k - 1);
    }
}

proof fn lemma_decimal_monotone(s: Seq<u8>, i: int, k: int, j: int)
    requires
        i <= k <= j,
        forall|t: int| i <= t < j ==> is_digit(#[trigger] s[t]),
    ensures
        0 <= decimal(s, i, k) <= decimal(s, i, j),
    decreases j - k,
{
    lemma_decimal_nonneg(s, i, k);
    if k < j {
        lemma_decimal_monotone(s, i, k, j - 1);
    }
}

proof fn lemma_digits_end(s: Seq<u8>, p: int)
    requires
        0 <= p <= s.len(),
    ensures
        p <= digits_end(s, p) <= s.len(),
        forall|t: int| p <= t < digits_end(s, p) ==> is_digit(#[trigger] s[t]),
        digits_end(s, p) < s.len() ==> !is_digit(s[digits_end(s, p)]),
    decreases s.len() - p,
{
    if p < s.len() && is_digit(s[p]) {
        lemma_digits_end(s, p + 1);
    }
}

/// Attempts to parse the ASCII byte `c` at `p`, returning the position after
/// it.
pub fn parse_char(s: &[u8], p: usize, c: u8) -> (r: Option<usize>)
    ensures
        r == spec_char(s@, p as int, c),
        r matches Some(q) ==> q <= s@.len(),
{
    if p < s.len() && s[p] == c {
        Some(p + 1)
    } else {
        None
    }
}

/// Attempts to parse the ASCII byte `c` at `p`, ignoring ASCII case,
/// returning the position after it.
pub fn parse_char_ignore_case(s: &[u8], p: usize, c: u8) -> (r: Option<usize>)
    ensures
        r == spec_char_ignore_case(s@, p as int, c),
        r matches Some(q) ==> q <= s@.len(),
{
    if p < s.len() {
        let a = s[p];
        let la: u8 = if 65 <= a && a <= 90 { a + 32 } else { a };
        let lc: u8 = if 65 <= c && c <= 90 { c + 32 } else { c };
        if la == lc {
            return Some(p + 1);
        }
    }
    None
}

/// Parses a two digit decimal number at `p`, returning it and the position
/// after it.
pub fn parse_two_digit_numeric(s: &[u8], p: usize) -> (r: Option<(u8, usize)>)
    ensures
        r == spec_two_digits(s@, p as int),
        r matches Some((_, q)) ==> q <= s@.len(),
{
    if p < s.len() && s.len() - p >= 2 {
        let a = s[p];
        let b = s[p + 1];
        if 48 <= a && a <= 57 && 48 <= b && b <= 57 {
            return Some(((a - 48) * 10 + (b - 48), p + 2));
        }
    }
    None
}

/// Returns the end of the run of ASCII digits that starts at `p`.
pub fn parse_digits(s: &[u8], p: usize) -> (r: usize)
    requires
        p <= s@.len(),
    ensures
        r == digits_end(s@, p as int),
{
    let mut i = p;
    while i < s.len() && 48 <= s[i] && s[i] <= 57
        invariant
            p <= i <= s@.len(),
            digits_end(s@, i as int) == digits_end(s@, p as int),
        decreases s@.len() - i,
    {
        i = i + 1;
    }
    i
}

/// The decimal value of the digits `s[i..j]`, where there is at least one
/// and the value fits in an `i64`.
pub fn parse_i64(s: &[u8], i: usize, j: usize) -> (r: Option<i64>)
    requires
        i <= j <= s@.len(),
        forall|t: int| i <= t < j ==> is_digit(#[trigger] s@[t]),
    ensures
        r == spec_i64_of(s@, i as int, j as int),
{
    if i == j {
        return None;
    }
    let mut v: i64 = 0;
    let mut k = i;
    while k < j
        invariant
            i <= k <= j <= s@.len(),
            forall|t: int| i <= t < j ==> is_digit(#[trigger] s@[t]),
            v == decimal(s@, i as int, k as int),
        decreases j - k,
    {
        let d = (s[k] - 48) as i64;
        match v.checked_mul(10) {
            Some(t) => match t.checked_add(d) {
                Some(u) => {
                    v = u;
                },
                None => {
                    proof {
                        lemma_decimal_monotone(s@, i as int, k + 1, j as int);
                    }
                    return None;
                },
            },
            None => {
                proof {
                    lemma_decimal_monotone(s@, i as int, k + 1, j as int);
                }
                return None;
            },
        }
        k = k + 1;
    }
    Some(v)
}

/// Parses an optional fraction of a second at `p`, returning the nanoseconds
/// and the position after it.
pub fn parse_nanos(s: &[u8], p: usize) -> (r: Option<(u32, usize)>)
    requires
        p <= s@.len(),
    ensures
        r == spec_nanos(s@, p as int),
        r matches Some((_, q)) ==> q <= s@.len(),
        r matches Some((n, _)) ==> n < 1_000_000_000,
{
    match parse_char(s, p, 46) {
        Some(q) => {
            let j = parse_digits(s, q);
            proof {
                lemma_digits_end(s@, q as int);
            }
            if j == q {
                return None;
            }
            let k = if j - q > 9 { q + 9 } else { j };
            let mut v: u32 = 0;
            let mut t = q;
            while t < k
                invariant
                    q <= t <= k <= j <= s@.len(),
                    k - q <= 9,
                    forall|x: int| q <= x < j ==> is_digit(#[trigger] s@[x]),
                    v == decimal(s@, q as int, t as int),
                    v < pow10((t - q) as nat),
                decreases k - t,
            {
                proof {
                    lemma_pow10_bound((t - q) as nat);
                }
                v = v * 10 + (s[t] - 48) as u32;
                t = t + 1;
            }
            let mut scale = k - q;
            assert(pow10(0) == 1);
            assert(((scale - (k - q)) as nat) == 0);
            while scale < 9
                invariant
                    k - q <= scale <= 9,
                    v == decimal(s@, q as int, k as int) * pow10((scale - (k - q)) as nat),
                    v < pow10(scale as nat),
                decreases 9 - scale,
            {
                proof {
                    lemma_pow10_bound(scale as nat);
                    let e = (scale - (k - q)) as nat;
                    let d = decimal(s@, q as int, k as int);
                    assert(pow10(e + 1) == 10 * pow10(e));
                    assert(d * pow10(e) * 10 == d * (10 * pow10(e))) by (nonlinear_arith);
                }
                v = v * 10;
                scale = scale + 1;
            }
            proof {
                reveal_with_fuel(pow10, 10);
            }
            Some((v, j))
        },
        None => Some((0, p)),
    }
}

proof fn lemma_pow10_bound(n: nat)
    requires
        n < 9,
    ensures
        10 * pow10(n) <= 1_000_000_000,
        pow10(n + 1) == 10 * pow10(n),
{
    reveal_with_fuel(pow10, 10);
}

/// Parses a year at `p` in one of three forms: `+` and five or more digits,
/// `-` and four or more digits, or four digits.
fn parse_year(s: &[u8], p: usize) -> (r: Option<(i64, usize)>)
    requires
        p <= s@.len(),
    ensures
        r == spec_year(s@, p as int),
        r matches Some((_, q)) ==> q <= s@.len(),
{
    if p < s.len() && (s[p] == 43 || s[p] == 45) {
        let j = parse_digits(s, p + 1);
        proof {
            lemma_digits_end(s@, p + 1);
        }
        if s[p] == 43 {
            if j - (p + 1) < 5 {
                return None;
            }
            match parse_i64(s, p + 1, j) {
                Some(v) => Some((v, j)),
                None => None,
            }
        } else {
            if j - (p + 1) < 4 {
                return None;
            }
            proof {
                lemma_decimal_nonneg(s@, p + 1, j as int);
            }
            match parse_i64(s, p + 1, j) {
                Some(v) => Some((-v, j)),
                None => None,
            }
        }
    } else {
        let (hi, q) = parse_two_digit_numeric(s, p)?;
        let (lo, q) = parse_two_digit_numeric(s, q)?;
        Some((hi as i64 * 100 + lo as i64, q))
    }
}

/// Parses a date in RFC 3339 format at `p`, returning the year, month, day,
/// and the position after it. The date is not checked against a calendar.
pub fn parse_date(s: &[u8], p: usize) -> (r: Option<(i64, u8, u8, usize)>)
    requires
        p <= s@.len(),
    ensures
        r == spec_date(s@, p as int),
        r matches Some((_, _, _, q)) ==> q <= s@.len(),
{
    if s.len() - p < 10 {
        return None;
    }
    let (year, q) = parse_year(s, p)?;
    let q = parse_char(s, q, 45)?;
    let (month, q) = parse_two_digit_numeric(s, q)?;
    let q = parse_char(s, q, 45)?;
    let (day, q) = parse_two_digit_numeric(s, q)?;
    Some((year, month, day, q))
}

/// Parses a time of day in RFC 3339 format at `p`, returning the hour,
/// minute, second, nanoseconds and the position after it. The time is not
/// checked against a calendar.
pub fn parse_time(s: &[u8], p: usize) -> (r: Option<(u8, u8, u8, u32, usize)>)
    requires
        p <= s@.len(),
    ensures
        r == spec_time(s@, p as int),
        r matches Some((_, _, _, _, q)) ==> q <= s@.len(),
{
    let (hour, q) = parse_two_digit_numeric(s, p)?;
    let q = parse_char(s, q, 58)?;
    let (minute, q) = parse_two_digit_numeric(s, q)?;
    let q = parse_char(s, q, 58)?;
    let (second, q) = parse_two_digit_numeric(s, q)?;
    let (nanos, q) = parse_nanos(s, q)?;
    Some((hour, minute, second, nanos, q))
}

/// Parses a UTC offset in RFC 3339 format at `p`, returning the offset hour,
/// offset minute and the position after it.
pub fn parse_offset(s: &[u8], p: usize) -> (r: Option<(i8, i8, usize)>)
    requires
        p <= s@.len(),
    ensures
        r == spec_offset(s@, p as int),
        r matches Some((_, _, q)) ==> q <= s@.len(),
{
    if p == s.len() {
        // No offset at all stands for UTC.
        return Some((0, 0, p));
    }
    // A space may separate the offset from the time.
    let q = if s[p] == 32 { p + 1 } else { p };
    if let Some(r) = parse_char_ignore_case(s, q, 90) {
        return Some((0, 0, r));
    }
    let positive = parse_char(s, q, 43).is_some();
    if !positive && parse_char(s, q, 45).is_none() {
        return None;
    }
    let (hour, r) = parse_two_digit_numeric(s, q + 1)?;
    let (minute, r) = if r == s.len() {
        (0u8, r)
    } else {
        let r2 = if s[r] == 58 { r + 1 } else { r };
        parse_two_digit_numeric(s, r2)?
    };
    // '-00:00' stands for an unknown local offset.
    if !(positive || hour > 0 || minute > 0) {
        return None;
    }
    if !(hour < 24 && minute < 60) {
        return None;
    }
    if positive {
        Some((hour as i8, minute as i8, r))
    } else {
        Some((-(hour as i8), -(minute as i8), r))
    }
}

/// The timestamp that an RFC 3339 text (as ASCII bytes) stands for: a date,
/// optionally followed by `T` (either case) or a space, a time of day and a
/// UTC offset. A leap second `60` counts as `59`.
pub open spec fn spec_parse_timestamp(s: Seq<u8>) -> Option<Timestamp> {
    match spec_date(s, 0) {
        None => None,
        Some((year, month, day, p)) => if p == s.len() {
            let dt = DateTime { year, month, day, hour: 0, minute: 0, second: 0, nanos: 0 };
            if dt.spec_is_valid() {
                Some(Timestamp { seconds: dt.spec_seconds() as i64, nanos: 0 })
            } else {
                None
            }
        } else {
            let t = match spec_char_ignore_case(s, p as int, 84) {
                Some(q) => Some(q),
                None => spec_char(s, p as int, 32),
            };
            match t {
                None => None,
                Some(q) => match spec_time(s, q as int) {
                    None => None,
                    Some((hour, minute, second, nanos, q)) => match spec_offset(s, q as int) {
                        None => None,
                        Some((oh, om, q)) => if q != s.len() {
                            None
                        } else {
                            let dt = DateTime {
                                year,
                                month,
                                day,
                                hour,
                                minute,
                                second: if second == 60 { 59 } else { second },
                                nanos,
                            };
                            spec_offset_timestamp(dt, oh, om)
                        },
                    },
                },
            }
        },
    }
}

/// The timestamp of a local date and time at a UTC offset, where the date and
/// time are valid and the result is in range.
pub open spec fn spec_offset_timestamp(dt: DateTime, oh: i8, om: i8) -> Option<Timestamp> {
    let secs = dt.spec_seconds() - (oh * 3600 + om * 60);
    if !dt.spec_is_valid() || secs < i64::MIN || secs > i64::MAX {
        None
    } else {
        Some(Timestamp { seconds: secs as i64, nanos: dt.nanos as i32 })
    }
}

/// The timestamp of a local date and time at a UTC offset.
fn offset_timestamp(date_time: DateTime, offset_hour: i8, offset_minute: i8) -> (r: Option<
    Timestamp,
>)
    ensures
        r == spec_offset_timestamp(date_time, offset_hour, offset_minute),
{
    let t = match Timestamp::try_from_date_time(date_time) {
        Ok(t) => t,
        Err(_) => {
            return None;
        },
    };
    proof {
        lemma_valid_seconds_in_range(date_time);
    }
    let seconds = t.seconds.checked_sub(offset_hour as i64 * 3600 + offset_minute as i64 * 60)?;
    Some(Timestamp { seconds, nanos: t.nanos })
}

/// The duration that a protobuf JSON duration text (as ASCII bytes) stands
/// for: an optional `-`, seconds, an optional fraction, and `s`.
pub open spec fn spec_parse_duration(s: Seq<u8>) -> Option<Duration> {
    let negative = s.len() > 0 && s[0] == 45;
    let p: int = if negative { 1 } else { 0 };
    let j = digits_end(s, p);
    match spec_i64_of(s, p, j) {
        None => None,
        Some(seconds) => match spec_nanos(s, j) {
            None => None,
            Some((nanos, q)) => match spec_char(s, q as int, 115) {
                None => None,
                Some(q) => if q != s.len() {
                    None
                } else if negative {
                    Some(Duration { seconds: (-seconds) as i64, nanos: (-nanos) as i32 })
                } else {
                    Some(Duration { seconds, nanos: nanos as i32 })
                },
            },
        },
    }
}

/// Parses a timestamp in RFC 3339 format.
pub fn parse_timestamp(text: &str) -> (r: Option<Timestamp>)
    ensures
        r == if text.is_ascii() {
            spec_parse_timestamp(ascii_bytes(text@))
        } else {
            None
        },
{
    if !text.is_ascii() {
        return None;
    }
    let s = text.as_bytes();
    proof {
        broadcast use vstd::string::is_ascii_spec_bytes;
        assert(s@ =~= ascii_bytes(text@));
    }
    let (year, month, day, p) = parse_date(s, 0)?;
    if p == s.len() {
        let date_time = DateTime { year, month, day, hour: 0, minute: 0, second: 0, nanos: 0 };
        return match Timestamp::try_from_date_time(date_time) {
            Ok(t) => Some(t),
            Err(_) => None,
        };
    }
    // Either 'T' or ' ' separates the date and the time.
    let q = match parse_char_ignore_case(s, p, 84) {
        Some(q) => q,
        None => parse_char(s, p, 32)?,
    };
    let (hour, minute, second, nanos, q) = parse_time(s, q)?;
    let (offset_hour, offset_minute, q) = parse_offset(s, q)?;
    if q != s.len() {
        return None;
    }
    // A leap second is rolled back to the second before it.
    let second = if second == 60 { 59 } else { second };
    let date_time = DateTime { year, month, day, hour, minute, second, nanos };
    offset_timestamp(date_time, offset_hour, offset_minute)
}

/// Parses a duration in the protobuf JSON format, such as `-1.5s`.
pub fn parse_duration(text: &str) -> (r: Option<Duration>)
    ensures
        r == if text.is_ascii() {
            spec_parse_duration(ascii_bytes(text@))
        } else {
            None
        },
{
    if !text.is_ascii() {
        return None;
    }
    let s = text.as_bytes();
    proof {
        broadcast use vstd::string::is_ascii_spec_bytes;
        assert(s@ =~= ascii_bytes(text@));
    }
    let (is_negative, p) = match parse_char(s, 0, 45) {
        Some(p) => (true, p),
        None => (false, 0),
    };
    let j = parse_digits(s, p);
    proof {
        lemma_digits_end(s@, p as int);
    }
    let seconds = parse_i64(s, p, j)?;
    let (nanos, q) = parse_nanos(s, j)?;
    let q = parse_char(s, q, 115)?;
    if q != s.len() {
        return None;
    }
    if nanos >= 1_000_000_000 {
        return None;
    }
    proof {
        lemma_decimal_nonneg(s@, p as int, j as int);
    }
    if is_negative {
        Some(Duration { seconds: -seconds, nanos: -(nanos as i32) })
    } else {
        Some(Duration { seconds, nanos: nanos as i32 })
    }
}

impl core::str::FromStr for Timestamp {
    type Err = TimestampError;

    fn from_str(s: &str) -> Result<Timestamp, TimestampError> {
        match parse_timestamp(s) {
            Some(t) => Ok(t),
            None => Err(TimestampError::ParseFailure),
        }
    }
}

impl core::str::FromStr for Duration {
    type Err = DurationError;

    fn from_str(s: &str) -> Result<Duration, DurationError> {
        match parse_duration(s) {
            Some(d) => Ok(d),
            None => Err(DurationError::ParseFailure),
        }
    }
}

} // verus!
