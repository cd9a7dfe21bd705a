//! Signed spans of time.
//!
//! A [`Duration`] stands for a `chrono::TimeDelta`: it holds the whole seconds
//! and the nanoseconds that are left over as plain numbers, and has the range
//! of that type. Its arithmetic is done by `chrono`: a `TimeDelta` is put together
//! from its parts with `seconds` and `nanoseconds`, and taken apart with
//! `num_seconds` and `subsec_nanos`.

use vstd::prelude::*;

verus! {

/// The number of nanoseconds in a second.
pub open spec fn nanos_per_sec() -> int {
    1_000_000_000
}

/// The longest duration, in nanoseconds: `i64::MAX` milliseconds.
pub open spec fn max_nanos() -> int {
    i64::MAX * 1_000_000
}

/// Whether a duration of `nanos` nanoseconds exists.
pub open spec fn in_range(nanos: int) -> bool {
    -max_nanos() <= nanos <= max_nanos()
}

/// `a / b` rounded towards zero, for a positive `b`.
pub open spec fn truncated_div(a: int, b: int) -> int {
    if a >= 0 {
        a / b
    } else {
        -((-a) / b)
    }
}

/// The nanoseconds in `secs` seconds and `nanos` nanoseconds.
pub open spec fn total_nanos(secs: i64, nanos: i32) -> int {
    secs * nanos_per_sec() + nanos
}

/// Whether `secs` and `nanos` are the two parts of some duration: less than a
/// second of nanoseconds, parts of the same sign, a total in range.
pub open spec fn are_parts(secs: i64, nanos: i32) -> bool {
    &&& -nanos_per_sec() < nanos < nanos_per_sec()
    &&& secs > 0 ==> nanos >= 0
    &&& secs < 0 ==> nanos <= 0
    &&& in_range(total_nanos(secs, nanos))
}

/// A signed span of time with nanosecond precision, at most `i64::MAX`
/// milliseconds in either direction.
#[derive(Clone, Copy, Debug, PartialEq, Eq, Structural)]
pub struct Duration {
    secs: i64,
    nanos: i32,
}

/// `chrono::TimeDelta::microseconds`: the parts (whole seconds, nanoseconds
/// left over) of a span of `micros` microseconds. It succeeds on every input.
#[verifier::external_body]
fn delta_of_micros(micros: i64) -> (parts: (i64, i32))
    ensures
        are_parts(parts.0, parts.1),
        total_nanos(parts.0, parts.1) == micros * 1_000,
{
    let delta = chrono::TimeDelta::microseconds(micros);
    (delta.num_seconds(), delta.subsec_nanos())
}

/// `chrono::TimeDelta::num_microseconds`: the whole microseconds in a span,
/// rounded towards zero, or `None` where they do not fit in an `i64`.
#[verifier::external_body]
fn delta_num_micros(secs: i64, nanos: i32) -> (micros: Option<i64>)
    requires
        are_parts(secs, nanos),
    ensures
        micros == num_micros(total_nanos(secs, nanos)),
{
    let delta = chrono::TimeDelta::seconds(secs) + chrono::TimeDelta::nanoseconds(nanos as i64);
    delta.num_microseconds()
}

/// `chrono::TimeDelta::checked_add`: the parts of the sum of two spans, or
/// `None` where the sum is out of range.
#[verifier::external_body]
fn delta_checked_add(a: (i64, i32), b: (i64, i32)) -> (sum: Option<(i64, i32)>)
    requires
        are_parts(a.0, a.1),
        are_parts(b.0, b.1),
    ensures
        match sum {
            Some(parts) => are_parts(parts.0, parts.1) && total_nanos(parts.0, parts.1)
                == total_nanos(a.0, a.1) + total_nanos(b.0, b.1),
            None => !in_range(total_nanos(a.0, a.1) + total_nanos(b.0, b.1)),
        },
{
    let a = chrono::TimeDelta::seconds(a.0) + chrono::TimeDelta::nanoseconds(a.1 as i64);
    let b = chrono::TimeDelta::seconds(b.0) + chrono::TimeDelta::nanoseconds(b.1 as i64);
    let sum = a.checked_add(&b)?;
    Some((sum.num_seconds(), sum.subsec_nanos()))
}

/// `chrono::TimeDelta::checked_sub`: the parts of the difference of two spans,
/// or `None` where the difference is out of range.
#[verifier::external_body]
fn delta_checked_sub(a: (i64, i32), b: (i64, i32)) -> (difference: Option<(i64, i32)>)
    requires
        are_parts(a.0, a.1),
        are_parts(b.0, b.1),
    ensures
        match difference {
            Some(parts) => are_parts(parts.0, parts.1) && total_nanos(parts.0, parts.1)
                == total_nanos(a.0, a.1) - total_nanos(b.0, b.1),
            None => !in_range(total_nanos(a.0, a.1) - total_nanos(b.0, b.1)),
        },
{
    let a = chrono::TimeDelta::seconds(a.0) + chrono::TimeDelta::nanoseconds(a.1 as i64);
    let b = chrono::TimeDelta::seconds(b.0) + chrono::TimeDelta::nanoseconds(b.1 as i64);
    let difference = a.checked_sub(&b)?;
    Some((difference.num_seconds(), difference.subsec_nanos()))
}

/// The whole microseconds in `nanos` nanoseconds, rounded towards zero, where
/// they fit in an `i64`.
pub open spec fn num_micros(nanos: int) -> Option<i64> {
    let micros = truncated_div(nanos, 1_000);
    if i64::MIN <= micros <= i64::MAX {
        Some(micros as i64)
    } else {
        None
    }
}

/// The whole microseconds in `nanos` nanoseconds, or 0 where they do not fit in
/// an `i64`.
pub open spec fn num_micros_or_zero(nanos: int) -> int {
    match num_micros(nanos) {
        Some(micros) => micros as int,
        None => 0,
    }
}

/// Two durations of the same total have the same parts.
proof fn lemma_parts_unique(secs1: i64, nanos1: i32, secs2: i64, nanos2: i32)
    requires
        are_parts(secs1, nanos1),
        are_parts(secs2, nanos2),
        total_nanos(secs1, nanos1) == total_nanos(secs2, nanos2),
    ensures
        secs1 == secs2,
        nanos1 == nanos2,
{
}

impl Duration {
    #[verifier::type_invariant]
    spec fn wf(self) -> bool {
        are_parts(self.secs, self.nanos)
    }

    /// The length of the duration in nanoseconds.
    pub closed spec fn nanos(self) -> int {
        total_nanos(self.secs, self.nanos)
    }

    /// The duration of `micros` microseconds.
    pub closed spec fn of_micros(micros: int) -> Duration {
        let secs = truncated_div(micros, 1_000_000);
        Duration { secs: secs as i64, nanos: ((micros - secs * 1_000_000) * 1_000) as i32 }
    }

    /// The whole microseconds in the duration, or 0 where they do not fit in an
    /// `i64`.
    pub open spec fn micros_or_zero(self) -> int {
        num_micros_or_zero(self.nanos())
    }

    /// Whether the duration is a whole number of microseconds that fits in an
    /// `i64`.
    pub open spec fn is_whole_micros(self) -> bool {
        self == Self::of_micros(self.micros_or_zero())
    }

    /// A duration of a number of microseconds has that many microseconds.
    pub broadcast proof fn lemma_of_micros(micros: i64)
        ensures
            #![trigger Self::of_micros(micros as int)]
            Self::of_micros(micros as int).nanos() == micros * 1_000,
            Self::of_micros(micros as int).micros_or_zero() == micros,
            Self::of_micros(micros as int).is_whole_micros(),
    {
    }

    /// No time at all.
    pub fn zero() -> (duration: Duration)
        ensures
            duration == Self::of_micros(0),
            duration.nanos() == 0,
    {
        Duration { secs: 0, nanos: 0 }
    }

    /// The duration of `micros` microseconds.
    pub fn microseconds(micros: i64) -> (duration: Duration)
        ensures
            duration == Self::of_micros(micros as int),
            duration.nanos() == micros * 1_000,
    {
        let (secs, nanos) = delta_of_micros(micros);
        proof {
            let d = Self::of_micros(micros as int);
            Self::lemma_of_micros(micros);
            lemma_parts_unique(secs, nanos, d.secs, d.nanos);
        }
        Duration { secs, nanos }
    }

    /// The duration of `secs` whole seconds and `nanos` nanoseconds, where these
    /// are the parts of a duration.
    pub fn from_parts(secs: i64, nanos: i32) -> (duration: Option<Duration>)
        ensures
            duration is Some <==> are_parts(secs, nanos),
            duration matches Some(d) ==> d.nanos() == total_nanos(secs, nanos),
    {
        if nanos <= -1_000_000_000 || nanos >= 1_000_000_000 {
            return None;
        }
        if (secs > 0 && nanos < 0) || (secs < 0 && nanos > 0) {
            return None;
        }
        let limit: i64 = 9_223_372_036_854_775;
        if secs > limit || secs < -limit {
            return None;
        }
        if (secs == limit && nanos > 807_000_000) || (secs == -limit && nanos < -807_000_000) {
            return None;
        }
        Some(Duration { secs, nanos })
    }

    /// The whole seconds in the duration, rounded towards zero.
    pub fn num_seconds(&self) -> (secs: i64)
        ensures
            secs == truncated_div(self.nanos(), nanos_per_sec()),
    {
        proof {
            use_type_invariant(self);
        }
        self.secs
    }

    /// The nanoseconds beyond the whole seconds.
    pub fn subsec_nanos(&self) -> (nanos: i32)
        ensures
            nanos == self.nanos() - truncated_div(self.nanos(), nanos_per_sec())
                * nanos_per_sec(),
    {
        proof {
            use_type_invariant(self);
        }
        self.nanos
    }

    /// The whole microseconds in the duration, rounded towards zero, or `None`
    /// where they do not fit in an `i64`.
    pub fn num_microseconds(&self) -> (micros: Option<i64>)
        ensures
            micros == num_micros(self.nanos()),
    {
        proof {
            use_type_invariant(self);
        }
        delta_num_micros(self.secs, self.nanos)
    }

    /// The whole microseconds in the duration, or 0 where they do not fit.
    pub fn microseconds_or_zero(&self) -> (micros: i64)
        ensures
            micros == self.micros_or_zero(),
    {
        match self.num_microseconds() {
            Some(micros) => micros,
            None => 0,
        }
    }

    /// The sum of two durations, or `None` where it is out of range.
    pub fn checked_add(&self, other: &Duration) -> (sum: Option<Duration>)
        ensures
            sum is Some <==> in_range(self.nanos() + other.nanos()),
            sum matches Some(d) ==> d.nanos() == self.nanos() + other.nanos(),
    {
        proof {
            use_type_invariant(self);
            use_type_invariant(other);
        }
        match delta_checked_add((self.secs, self.nanos), (other.secs, other.nanos)) {
            Some((secs, nanos)) => Some(Duration { secs, nanos }),
            None => None,
        }
    }

    /// The difference of two durations, or `None` where it is out of range.
    pub fn checked_sub(&self, other: &Duration) -> (difference: Option<Duration>)
        ensures
            difference is Some <==> in_range(self.nanos() - other.nanos()),
            difference matches Some(d) ==> d.nanos() == self.nanos() - other.nanos(),
    {
        proof {
            use_type_invariant(self);
            use_type_invariant(other);
        }
        match delta_checked_sub((self.secs, self.nanos), (other.secs, other.nanos)) {
            Some((secs, nanos)) => Some(Duration { secs, nanos }),
            None => None,
        }
    }

    /// Whether the duration is longer than `other`.
    pub fn exceeds(&self, other: &Duration) -> (longer: bool)
        ensures
            longer == (self.nanos() > other.nanos()),
    {
        proof {
            use_type_invariant(self);
            use_type_invariant(other);
        }
        self.secs > other.secs || (self.secs == other.secs && self.nanos > other.nanos)
    }
}

impl Default for Duration {
    fn default() -> (duration: Duration)
        ensures
            duration == Duration::of_micros(0),
    {
        Duration::zero()
    }
}

/// The whole microseconds in some nanoseconds are those that are left when the
/// rest is cut off towards zero.
pub(crate) proof fn lemma_num_micros_bounds(nanos: int)
    ensures
        match num_micros(nanos) {
            Some(micros) => {
                &&& nanos >= 0 ==> 0 <= micros * 1_000 <= nanos < micros * 1_000 + 1_000
                &&& nanos <= 0 ==> micros * 1_000 - 1_000 < nanos <= micros * 1_000 <= 0
            },
            None => nanos >= 9_223_372_036_854_775_808_000 || nanos
                <= -9_223_372_036_854_775_809_000,
        },
{
}

/// A duration of some microseconds is that many thousand nanoseconds long, and no
/// time is none.
pub proof fn law_microseconds(micros: i64, duration: Duration, zero: Duration)
    requires
        call_ensures(Duration::microseconds, (micros,), duration),
        call_ensures(Duration::zero, (), zero),
    ensures
        duration.nanos() == micros * 1_000,
        zero.nanos() == 0,
        micros == 0 ==> duration == zero,
{
}

/// A duration is made from whole seconds and nanoseconds just where these are less
/// than a second, the two do not pull in different directions, and the total is at
/// most `i64::MAX` milliseconds either way.
pub proof fn law_from_parts(secs: i64, nanos: i32, duration: Option<Duration>)
    requires
        call_ensures(Duration::from_parts, (secs, nanos), duration),
    ensures
        ({
            let total = secs * 1_000_000_000 + nanos;
            &&& duration is Some <==> {
                &&& -1_000_000_000 < nanos < 1_000_000_000
                &&& !(secs > 0 && nanos < 0)
                &&& !(secs < 0 && nanos > 0)
                &&& -9_223_372_036_854_775_807_000_000 <= total
                    <= 9_223_372_036_854_775_807_000_000
            }
            &&& duration matches Some(d) ==> d.nanos() == total
        }),
{
}

/// Seconds and the nanoseconds beyond them add up to the duration and have its
/// sign.
pub proof fn law_parts_add_up(duration: &Duration, secs: i64, nanos: i32)
    requires
        call_ensures(Duration::num_seconds, (duration,), secs),
        call_ensures(Duration::subsec_nanos, (duration,), nanos),
    ensures
        secs * 1_000_000_000 + nanos == duration.nanos(),
        duration.nanos() >= 0 ==> secs >= 0 && 0 <= nanos < 1_000_000_000,
        duration.nanos() <= 0 ==> secs <= 0 && -1_000_000_000 < nanos <= 0,
{
}

/// The whole microseconds of a duration are those that are left when the rest is
/// cut off towards zero. There are none just where they do not fit in 64 bits, and
/// there 0 may stand for them.
pub proof fn law_num_microseconds(duration: &Duration, micros: Option<i64>, or_zero: i64)
    requires
        call_ensures(Duration::num_microseconds, (duration,), micros),
        call_ensures(Duration::microseconds_or_zero, (duration,), or_zero),
    ensures
        match micros {
            Some(micros) => {
                &&& duration.nanos() >= 0 ==> 0 <= micros * 1_000 <= duration.nanos() < micros
                    * 1_000 + 1_000
                &&& duration.nanos() <= 0 ==> micros * 1_000 - 1_000 < duration.nanos() <= micros
                    * 1_000 <= 0
                &&& or_zero == micros
            },
            None => {
                &&& duration.nanos() >= 9_223_372_036_854_775_808_000 || duration.nanos()
                    <= -9_223_372_036_854_775_809_000
                &&& or_zero == 0
            },
        },
{
    lemma_num_micros_bounds(duration.nanos());
}

/// Durations add and subtract as their lengths do; there is no result just where
/// it would be longer than `i64::MAX` milliseconds. One is longer than another
/// where its length is greater.
pub proof fn law_arithmetic(
    a: &Duration,
    b: &Duration,
    sum: Option<Duration>,
    difference: Option<Duration>,
    longer: bool,
)
    requires
        call_ensures(Duration::checked_add, (a, b), sum),
        call_ensures(Duration::checked_sub, (a, b), difference),
        call_ensures(Duration::exceeds, (a, b), longer),
    ensures
        match sum {
            Some(d) => d.nanos() == a.nanos() + b.nanos(),
            None => a.nanos() + b.nanos() > 9_223_372_036_854_775_807_000_000 || a.nanos()
                + b.nanos() < -9_223_372_036_854_775_807_000_000,
        },
        match difference {
            Some(d) => d.nanos() == a.nanos() - b.nanos(),
            None => a.nanos() - b.nanos() > 9_223_372_036_854_775_807_000_000 || a.nanos()
                - b.nanos() < -9_223_372_036_854_775_807_000_000,
        },
        longer <==> a.nanos() > b.nanos(),
{
}

} // verus!
