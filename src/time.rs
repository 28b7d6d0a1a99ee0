//! Timestamps and durations, with their canonical (normalized) forms.

use vstd::arithmetic::div_mod::lemma_fundamental_div_mod_converse;
use vstd::prelude::*;

verus! {

/// Nanoseconds in one second.
pub const NANOS_PER_SECOND: i32 = 1_000_000_000;

/// The largest nanosecond value of a normalized time value.
pub const NANOS_MAX: i32 = 999_999_999;

/// A point in time, as signed seconds and nanoseconds from the Unix epoch.
#[derive(Clone, Copy, Debug, Default, PartialEq, Eq, Hash, Structural)]
pub struct Timestamp {
    pub seconds: i64,
    pub nanos: i32,
}

/// A signed span of time, as seconds and nanoseconds.
#[derive(Clone, Copy, Debug, Default, PartialEq, Eq, Hash, Structural)]
pub struct Duration {
    pub seconds: i64,
    pub nanos: i32,
}

/// The exact number of nanoseconds that a pair of fields stands for.
pub open spec fn total_nanos(seconds: int, nanos: int) -> int {
    seconds * 1_000_000_000 + nanos
}

/// The canonical timestamp for the point `seconds + nanos / 10^9`: whole
/// seconds rounded toward the past and `0 <= nanos < 10^9`, clamped to the
/// first or last representable value where the seconds do not fit in `i64`.
pub open spec fn normalized_timestamp(seconds: int, nanos: int) -> Timestamp {
    let t = total_nanos(seconds, nanos);
    let s = t / 1_000_000_000;
    if s < i64::MIN {
        Timestamp { seconds: i64::MIN, nanos: 0 }
    } else if s > i64::MAX {
        Timestamp { seconds: i64::MAX, nanos: 999_999_999 }
    } else {
        Timestamp { seconds: s as i64, nanos: (t % 1_000_000_000) as i32 }
    }
}

/// Whole seconds of `t` nanoseconds, rounded toward zero.
pub open spec fn trunc_seconds(t: int) -> int {
    if t >= 0 {
        t / 1_000_000_000
    } else {
        -((-t) / 1_000_000_000)
    }
}

/// The canonical duration for `seconds + nanos / 10^9`: seconds rounded toward
/// zero and nanos carrying the sign of the whole value, clamped to the
/// extreme representable values where the seconds do not fit in `i64`.
pub open spec fn normalized_duration(seconds: int, nanos: int) -> Duration {
    let t = total_nanos(seconds, nanos);
    let s = trunc_seconds(t);
    if s < i64::MIN {
        Duration { seconds: i64::MIN, nanos: -999_999_999i32 }
    } else if s > i64::MAX {
        Duration { seconds: i64::MAX, nanos: 999_999_999 }
    } else {
        Duration { seconds: s as i64, nanos: (t - s * 1_000_000_000) as i32 }
    }
}

impl Timestamp {
    /// Whether the timestamp is in canonical form.
    pub open spec fn is_normalized(self) -> bool {
        0 <= self.nanos < 1_000_000_000
    }

    /// This timestamp in canonical form.
    pub open spec fn spec_normalized(self) -> Timestamp {
        normalized_timestamp(self.seconds as int, self.nanos as int)
    }

    /// Brings the timestamp into canonical form: `0 <= nanos < 10^9`, the
    /// represented point unchanged unless it lies outside the `i64` range of
    /// seconds, where it saturates.
    pub fn normalize(&mut self)
        ensures
            *final(self) == old(self).spec_normalized(),
    {
        if self.nanos <= -NANOS_PER_SECOND || self.nanos >= NANOS_PER_SECOND {
            match self.seconds.checked_add((self.nanos / NANOS_PER_SECOND) as i64) {
                Some(seconds) => {
                    self.seconds = seconds;
                    self.nanos = self.nanos % NANOS_PER_SECOND;
                },
                None => {
                    if self.nanos < 0 {
                        self.seconds = i64::MIN;
                        self.nanos = 0;
                    } else {
                        self.seconds = i64::MAX;
                        self.nanos = NANOS_MAX;
                    }
                },
            }
        }
        if self.nanos < 0 {
            match self.seconds.checked_sub(1) {
                Some(seconds) => {
                    self.seconds = seconds;
                    self.nanos = self.nanos + NANOS_PER_SECOND;
                },
                None => {
                    self.nanos = 0;
                },
            }
        }
    }

    /// A normalized copy of this timestamp.
    pub fn normalized(&self) -> (r: Timestamp)
        ensures
            r == self.spec_normalized(),
    {
        let mut r = *self;
        r.normalize();
        r
    }

    /// Creates a normalized timestamp from seconds and nanoseconds.
    pub fn new(seconds: i64, nanos: i32) -> (r: Timestamp)
        ensures
            r == normalized_timestamp(seconds as int, nanos as int),
    {
        let mut ts = Timestamp { seconds, nanos };
        ts.normalize();
        ts
    }
}

impl Duration {
    /// Whether the duration is in canonical form.
    pub open spec fn is_normalized(self) -> bool {
        &&& -1_000_000_000 < self.nanos < 1_000_000_000
        &&& self.seconds < 0 ==> self.nanos <= 0
        &&& self.seconds > 0 ==> self.nanos >= 0
    }

    /// This duration in canonical form.
    pub open spec fn spec_normalized(self) -> Duration {
        normalized_duration(self.seconds as int, self.nanos as int)
    }

    /// Brings the duration into canonical form: `|nanos| < 10^9` with the sign
    /// of the seconds, the represented span unchanged unless its seconds lie
    /// outside the `i64` range, where it saturates.
    pub fn normalize(&mut self)
        ensures
            *final(self) == old(self).spec_normalized(),
    {
        if self.nanos <= -NANOS_PER_SECOND || self.nanos >= NANOS_PER_SECOND {
            match self.seconds.checked_add((self.nanos / NANOS_PER_SECOND) as i64) {
                Some(seconds) => {
                    self.seconds = seconds;
                    self.nanos = self.nanos % NANOS_PER_SECOND;
                },
                None => {
                    if self.nanos < 0 {
                        self.seconds = i64::MIN;
                        self.nanos = -NANOS_MAX;
                    } else {
                        self.seconds = i64::MAX;
                        self.nanos = NANOS_MAX;
                    }
                },
            }
        }
        if self.seconds < 0 && self.nanos > 0 {
            self.seconds = self.seconds + 1;
            self.nanos = self.nanos - NANOS_PER_SECOND;
        } else if self.seconds > 0 && self.nanos < 0 {
            self.seconds = self.seconds - 1;
            self.nanos = self.nanos + NANOS_PER_SECOND;
        }
    }

    /// A normalized copy of this duration.
    pub fn normalized(&self) -> (r: Duration)
        ensures
            r == self.spec_normalized(),
    {
        let mut r = *self;
        r.normalize();
        r
    }
}

/// Why a duration could not be made or converted.
#[derive(Clone, Copy, Debug, PartialEq, Eq)]
pub enum DurationError {
    /// The text is not a protobuf JSON duration.
    ParseFailure,
    /// The duration is negative; the seconds and nanoseconds of its magnitude.
    NegativeDuration(u64, u32),
    /// The seconds do not fit in an `i64`.
    OutOfRange,
}

impl Duration {
    /// The duration of an unsigned span of `secs` seconds and `nanos`
    /// nanoseconds, normalized; an error where the seconds do not fit.
    pub fn try_from_unsigned(secs: u64, nanos: u32) -> (r: Result<Duration, DurationError>)
        requires
            nanos < 1_000_000_000,
        ensures
            secs > i64::MAX ==> r == Err::<Duration, DurationError>(DurationError::OutOfRange),
            secs <= i64::MAX ==> r == Ok::<Duration, DurationError>(
                normalized_duration(secs as int, nanos as int),
            ),
    {
        if secs > i64::MAX as u64 {
            return Err(DurationError::OutOfRange);
        }
        let duration = Duration { seconds: secs as i64, nanos: nanos as i32 };
        Ok(duration.normalized())
    }

    /// The normalized duration as an unsigned span of seconds and
    /// nanoseconds; an error with its magnitude where it is negative.
    pub fn to_unsigned(&self) -> (r: Result<(u64, u32), DurationError>)
        ensures
            ({
                let d = self.spec_normalized();
                if d.seconds >= 0 && d.nanos >= 0 {
                    r == Ok::<(u64, u32), DurationError>((d.seconds as u64, d.nanos as u32))
                } else {
                    r == Err::<(u64, u32), DurationError>(
                        DurationError::NegativeDuration((-d.seconds) as u64, (-d.nanos) as u32),
                    )
                }
            }),
    {
        let d = self.normalized();
        if d.seconds >= 0 && d.nanos >= 0 {
            Ok((d.seconds as u64, d.nanos as u32))
        } else {
            let secs: u64 = if d.seconds == i64::MIN {
                9_223_372_036_854_775_808
            } else {
                (-d.seconds) as u64
            };
            Err(DurationError::NegativeDuration(secs, (-d.nanos) as u32))
        }
    }
}

impl Timestamp {
    /// The timestamp `secs` seconds and `nanos` nanoseconds after the Unix
    /// epoch, or before it where `before_epoch` holds; normalized, so that
    /// the nanoseconds count forward in time.
    pub fn from_unix_offset(before_epoch: bool, secs: u64, nanos: u32) -> (r: Timestamp)
        requires
            secs <= i64::MAX,
            nanos < 1_000_000_000,
        ensures
            r == (if before_epoch {
                normalized_timestamp(-secs, -nanos)
            } else {
                normalized_timestamp(secs as int, nanos as int)
            }),
            r.is_normalized(),
    {
        let seconds = secs as i64;
        if !before_epoch {
            proof {
                lemma_fundamental_div_mod_converse(
                    total_nanos(secs as int, nanos as int),
                    1_000_000_000,
                    secs as int,
                    nanos as int,
                );
            }
            Timestamp { seconds, nanos: nanos as i32 }
        } else if nanos == 0 {
            proof {
                lemma_fundamental_div_mod_converse(total_nanos(-secs, 0), 1_000_000_000, -secs, 0);
            }
            Timestamp { seconds: -seconds, nanos: 0 }
        } else {
            proof {
                lemma_fundamental_div_mod_converse(
                    total_nanos(-secs, -nanos),
                    1_000_000_000,
                    -secs - 1,
                    1_000_000_000 - nanos,
                );
            }
            Timestamp { seconds: -seconds - 1, nanos: 1_000_000_000 - nanos as i32 }
        }
    }

    /// The normalized timestamp as a distance from the Unix epoch: whether it
    /// lies before the epoch, the whole seconds of that distance counted from
    /// the epoch, and the nanoseconds that then count forward in time.
    pub fn to_unix_offset(&self) -> (r: (bool, u64, u32))
        ensures
            ({
                let t = self.spec_normalized();
                &&& r.0 == (t.seconds < 0)
                &&& r.1 == if t.seconds < 0 { -t.seconds } else { t.seconds as int }
                &&& r.2 == t.nanos
            }),
    {
        let t = self.normalized();
        if t.seconds >= 0 {
            (false, t.seconds as u64, t.nanos as u32)
        } else {
            let secs: u64 = if t.seconds == i64::MIN {
                9_223_372_036_854_775_808
            } else {
                (-t.seconds) as u64
            };
            (true, secs, t.nanos as u32)
        }
    }
}

/// Normalizing a timestamp twice gives what normalizing it once gives.
pub proof fn lemma_timestamp_normalize_idempotent(t: Timestamp)
    ensures
        t.spec_normalized().spec_normalized() == t.spec_normalized(),
        t.spec_normalized().is_normalized(),
{
    let n = t.spec_normalized();
    let total = total_nanos(t.seconds as int, t.nanos as int);
    let s = total / 1_000_000_000;
    if i64::MIN <= s <= i64::MAX {
        lemma_fundamental_div_mod_converse(
            total_nanos(n.seconds as int, n.nanos as int),
            1_000_000_000,
            s,
            total % 1_000_000_000,
        );
    } else if s < i64::MIN {
        lemma_fundamental_div_mod_converse(
            total_nanos(i64::MIN as int, 0),
            1_000_000_000,
            i64::MIN as int,
            0,
        );
    } else {
        lemma_fundamental_div_mod_converse(
            total_nanos(i64::MAX as int, 999_999_999),
            1_000_000_000,
            i64::MAX as int,
            999_999_999,
        );
    }
}

/// Normalizing a duration twice gives what normalizing it once gives.
pub proof fn lemma_duration_normalize_idempotent(d: Duration)
    ensures
        d.spec_normalized().spec_normalized() == d.spec_normalized(),
        d.spec_normalized().is_normalized(),
{
    let n = d.spec_normalized();
    let total = total_nanos(d.seconds as int, d.nanos as int);
    let s = trunc_seconds(total);
    let m = total_nanos(n.seconds as int, n.nanos as int);
    if i64::MIN <= s <= i64::MAX {
        if total >= 0 {
            lemma_fundamental_div_mod_converse(total, 1_000_000_000, s, total - s * 1_000_000_000);
            lemma_fundamental_div_mod_converse(m, 1_000_000_000, s, total - s * 1_000_000_000);
        } else {
            lemma_fundamental_div_mod_converse(
                -total,
                1_000_000_000,
                -s,
                -total + s * 1_000_000_000,
            );
            lemma_fundamental_div_mod_converse(-m, 1_000_000_000, -s, -total + s * 1_000_000_000);
        }
    } else if s < i64::MIN {
        lemma_fundamental_div_mod_converse(-m, 1_000_000_000, -(i64::MIN as int), 999_999_999);
    } else {
        lemma_fundamental_div_mod_converse(m, 1_000_000_000, i64::MAX as int, 999_999_999);
    }
}

} // verus!
