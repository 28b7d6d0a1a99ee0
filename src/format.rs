//! Text forms of timestamps (RFC 3339) and durations (protobuf JSON).

use crate::datetime::DateTime;
use crate::text::pow10;
use crate::time::{Duration, Timestamp};
use vstd::prelude::*;

verus! {

/// The ASCII digit for `d` (0 to 9).
pub open spec fn digit_char(d: int) -> char {
    (d + 48) as char
}

/// The decimal digits of `n`, without leading zeros (`0` for zero).
pub open spec fn decimal_text(n: nat) -> Seq<char>
    decreases n,
{
    if n < 10 {
        seq![digit_char(n as int)]
    } else {
        decimal_text(n / 10).push(digit_char((n % 10) as int))
    }
}

/// `n` in decimal, padded with leading zeros to at least `width` digits.
pub open spec fn padded_text(n: nat, width: nat) -> Seq<char> {
    let d = decimal_text(n);
    if d.len() >= width {
        d
    } else {
        Seq::new((width - d.len()) as nat, |i: int| '0') + d
    }
}

/// The year as RFC 3339 writes it: four digits from 0 to 9999, else signed.
pub open spec fn year_text(year: int) -> Seq<char> {
    if year > 9999 {
        seq!['+'] + decimal_text(year as nat)
    } else if year < 0 {
        seq!['-'] + padded_text((-year) as nat, 4)
    } else {
        padded_text(year as nat, 4)
    }
}

/// A fraction of a second with the fewest of 0, 3, 6 or 9 digits that
/// write it exactly, with its leading `.` where there are digits.
pub open spec fn fraction_text(nanos: nat) -> Seq<char> {
    if nanos == 0 {
        seq![]
    } else if nanos % 1_000_000 == 0 {
        seq!['.'] + padded_text(nanos / 1_000_000, 3)
    } else if nanos % 1000 == 0 {
        seq!['.'] + padded_text(nanos / 1000, 6)
    } else {
        seq!['.'] + padded_text(nanos, 9)
    }
}

/// The RFC 3339 text of a date and time in UTC.
pub open spec fn date_time_text(dt: DateTime) -> Seq<char> {
    year_text(dt.year as int) + seq!['-'] + padded_text(dt.month as nat, 2) + seq!['-']
        + padded_text(dt.day as nat, 2) + seq!['T'] + padded_text(dt.hour as nat, 2) + seq![':']
        + padded_text(dt.minute as nat, 2) + seq![':'] + padded_text(dt.second as nat, 2)
        + fraction_text(dt.nanos as nat) + seq!['Z']
}

/// The text of a normalized duration: a `-` where it is negative, the whole
/// seconds, the fraction, and `s`.
pub open spec fn duration_text(d: Duration) -> Seq<char> {
    let negative = d.seconds < 0 || d.nanos < 0;
    let secs: int = if d.seconds < 0 { -d.seconds } else { d.seconds as int };
    let nanos: int = if d.nanos < 0 { -d.nanos } else { d.nanos as int };
    (if negative { seq!['-'] } else { seq![] }) + decimal_text(secs as nat) + fraction_text(
        nanos as nat,
    ) + seq!['s']
}

/// The one digit text of `d`.
fn digit_str(d: u64) -> (r: &'static str)
    requires
        d < 10,
    ensures
        r@ == seq![digit_char(d as int)],
{
    proof {
        reveal_strlit("0");
        reveal_strlit("1");
        reveal_strlit("2");
        reveal_strlit("3");
        reveal_strlit("4");
        reveal_strlit("5");
        reveal_strlit("6");
        reveal_strlit("7");
        reveal_strlit("8");
        reveal_strlit("9");
    }
    match d {
        0 => "0",
        1 => "1",
        2 => "2",
        3 => "3",
        4 => "4",
        5 => "5",
        6 => "6",
        7 => "7",
        8 => "8",
        _ => "9",
    }
}

/// Appends the decimal digits of `n`.
fn push_decimal(s: &mut String, n: u64)
    ensures
        final(s)@ == old(s)@ + decimal_text(n as nat),
    decreases n,
{
    if n >= 10 {
        push_decimal(s, n / 10);
    }
    s.append(digit_str(n % 10));
    proof {
        if n >= 10 {
            assert(final(s)@ =~= old(s)@ + decimal_text(n as nat));
        } else {
            assert(final(s)@ =~= old(s)@ + decimal_text(n as nat));
        }
    }
}

pub(crate) proof fn lemma_decimal_len_bound(n: nat, k: nat)
    requires
        k >= 1,
        n < pow10(k),
    ensures
        decimal_text(n).len() <= k,
    decreases n,
{
    if n >= 10 {
        if k == 1 {
            assert(pow10(1) == 10) by {
                reveal_with_fuel(pow10, 2);
            }
        } else {
            assert(pow10(k) == 10 * pow10((k - 1) as nat));
            lemma_decimal_len_bound(n / 10, (k - 1) as nat);
        }
    }
}

/// The number of decimal digits of `n`.
fn decimal_len(n: u64) -> (r: usize)
    ensures
        r == decimal_text(n as nat).len(),
        r <= 20,
    decreases n,
{
    proof {
        assert(pow10(20) == 100_000_000_000_000_000_000) by {
            reveal_with_fuel(pow10, 21);
        }
        lemma_decimal_len_bound(n as nat, 20);
    }
    if n < 10 {
        1
    } else {
        decimal_len(n / 10) + 1
    }
}

/// Appends `n` in decimal, padded with leading zeros to `width` digits.
fn push_padded(s: &mut String, n: u64, width: usize)
    ensures
        final(s)@ == old(s)@ + padded_text(n as nat, width as nat),
{
    let len = decimal_len(n);
    let ghost start = s@;
    let mut i = len;
    proof {
        reveal_strlit("0");
    }
    while i < width
        invariant
            len <= i <= width || (i == len && len >= width),
            s@ == start + Seq::new((i - len) as nat, |k: int| '0'),
        decreases width - i,
    {
        proof {
            reveal_strlit("0");
        }
        s.append("0");
        i = i + 1;
        assert(s@ =~= start + Seq::new((i - len) as nat, |k: int| '0'));
    }
    push_decimal(s, n);
    assert(final(s)@ =~= old(s)@ + padded_text(n as nat, width as nat));
}

/// Appends a fraction of a second with the fewest of 0, 3, 6 or 9 digits.
fn push_fraction(s: &mut String, nanos: u64)
    ensures
        final(s)@ == old(s)@ + fraction_text(nanos as nat),
{
    proof {
        reveal_strlit(".");
    }
    if nanos == 0 {
        assert(s@ =~= old(s)@ + fraction_text(nanos as nat));
    } else if nanos % 1_000_000 == 0 {
        s.append(".");
        push_padded(s, nanos / 1_000_000, 3);
        assert(s@ =~= old(s)@ + fraction_text(nanos as nat));
    } else if nanos % 1000 == 0 {
        s.append(".");
        push_padded(s, nanos / 1000, 6);
        assert(s@ =~= old(s)@ + fraction_text(nanos as nat));
    } else {
        s.append(".");
        push_padded(s, nanos, 9);
        assert(s@ =~= old(s)@ + fraction_text(nanos as nat));
    }
}

impl DateTime {
    /// The RFC 3339 text of this date and time, such as
    /// `1970-01-01T00:00:00Z`.
    pub fn to_string(&self) -> (r: String)
        ensures
            r@ == date_time_text(*self),
    {
        proof {
            reveal_strlit("+");
            reveal_strlit("-");
            reveal_strlit("T");
            reveal_strlit(":");
            reveal_strlit("Z");
        }
        let mut s = String::new();
        // Years are padded to at least four digits.
        if self.year > 9999 {
            s.append("+");
            push_decimal(&mut s, self.year as u64);
        } else if self.year < 0 {
            s.append("-");
            let magnitude: u64 = if self.year == i64::MIN {
                9_223_372_036_854_775_808
            } else {
                (-self.year) as u64
            };
            push_padded(&mut s, magnitude, 4);
        } else {
            push_padded(&mut s, self.year as u64, 4);
        }
        assert(s@ =~= year_text(self.year as int));
        s.append("-");
        push_padded(&mut s, self.month as u64, 2);
        s.append("-");
        push_padded(&mut s, self.day as u64, 2);
        s.append("T");
        push_padded(&mut s, self.hour as u64, 2);
        s.append(":");
        push_padded(&mut s, self.minute as u64, 2);
        s.append(":");
        push_padded(&mut s, self.second as u64, 2);
        push_fraction(&mut s, self.nanos as u64);
        s.append("Z");
        assert(s@ =~= date_time_text(*self));
        s
    }
}

impl Timestamp {
    /// The RFC 3339 text of this timestamp in UTC, after normalizing it.
    pub fn to_string(&self) -> (r: String)
        ensures
            exists|dt: DateTime|
                {
                    &&& dt.spec_is_valid()
                    &&& dt.spec_seconds() == self.spec_normalized().seconds
                    &&& dt.nanos == self.spec_normalized().nanos
                    &&& r@ == date_time_text(dt)
                },
    {
        let dt = DateTime::from_timestamp(*self);
        dt.to_string()
    }
}

impl Duration {
    /// The protobuf JSON text of this duration, after normalizing it, such as
    /// `-1.500s`.
    pub fn to_string(&self) -> (r: String)
        ensures
            r@ == duration_text(self.spec_normalized()),
    {
        proof {
            reveal_strlit("-");
            reveal_strlit("s");
        }
        let d = self.normalized();
        let mut s = String::new();
        if d.seconds < 0 || d.nanos < 0 {
            s.append("-");
        }
        let secs: u64 = if d.seconds == i64::MIN {
            9_223_372_036_854_775_808
        } else if d.seconds < 0 {
            (-d.seconds) as u64
        } else {
            d.seconds as u64
        };
        let nanos: u64 = if d.nanos < 0 {
            (-d.nanos) as u64
        } else {
            d.nanos as u64
        };
        push_decimal(&mut s, secs);
        push_fraction(&mut s, nanos);
        s.append("s");
        assert(s@ =~= duration_text(d));
        s
    }
}

} // verus!
