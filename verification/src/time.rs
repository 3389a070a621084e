use vstd::prelude::*;

verus! {

/// Number of nanoseconds in one second.
pub const NANOS_PER_SECOND: u32 = 1_000_000_000;

/// Earliest second that a [`Timestamp`] can hold: midnight before
/// January 1 of the year 262144 BCE.
pub const MIN_SECONDS: i64 = -8_334_601_228_800;

/// Latest second that a [`Timestamp`] can hold: the last second of
/// December 31 of the year 262142 CE.
pub const MAX_SECONDS: i64 = 8_210_266_876_799;

/// Whether a pair of whole seconds since the Unix epoch and nanoseconds into
/// that second lies on the supported part of the time line.
pub open spec fn on_time_line(secs: int, nanos: int) -> bool {
    seconds_on_time_line(secs) && 0 <= nanos && nanos < NANOS_PER_SECOND
}

/// Whether a count of whole seconds since the Unix epoch lies on the supported
/// part of the time line.
pub open spec fn seconds_on_time_line(secs: int) -> bool {
    MIN_SECONDS <= secs && secs <= MAX_SECONDS
}

/// Nanoseconds since the Unix epoch of the point at `secs` seconds and
/// `nanos` nanoseconds.
pub open spec fn nanos_since_epoch(secs: int, nanos: int) -> int {
    secs * 1_000_000_000 + nanos
}

/// Quotient of `a` by a positive `b`, rounded toward zero.
pub open spec fn div_toward_zero(a: int, b: int) -> int {
    if a >= 0 {
        a / b
    } else {
        -((-a) / b)
    }
}

/// Nanoseconds in one day.
pub open spec fn nanos_per_day() -> int {
    86_400_000_000_000int
}

/// A point in time on the UTC time line: whole seconds since the Unix epoch
/// and the nanoseconds into that second. Every value lies on the supported
/// part of the time line.
#[derive(Clone, Copy, Debug, PartialEq, Eq)]
pub struct Timestamp {
    pub(crate) secs: i64,
    pub(crate) nanos: u32,
}

impl Timestamp {
    /// Every timestamp lies on the supported part of the time line.
    #[verifier::type_invariant]
    pub closed spec fn in_range(self) -> bool {
        on_time_line(self.secs as int, self.nanos as int)
    }

    /// Whole seconds since the Unix epoch.
    pub closed spec fn seconds(self) -> int {
        self.secs as int
    }

    /// Nanoseconds into the second.
    pub closed spec fn subsec_nanos(self) -> int {
        self.nanos as int
    }

    /// Nanoseconds since the Unix epoch.
    pub open spec fn total_nanos(self) -> int {
        nanos_since_epoch(self.seconds(), self.subsec_nanos())
    }

    /// Whole days from `self` to `now`, rounded toward zero: negative when
    /// `now` lies a day or more before `self`.
    pub open spec fn whole_days_until(self, now: Timestamp) -> int {
        div_toward_zero(now.total_nanos() - self.total_nanos(), nanos_per_day())
    }

    /// The timestamp at `secs` seconds and `nanos` nanoseconds, or `None`
    /// when that point is off the supported time line.
    pub fn new(secs: i64, nanos: u32) -> (r: Option<Timestamp>)
        ensures
            r is Some <==> on_time_line(secs as int, nanos as int),
            r is Some ==> r.unwrap().seconds() == secs && r.unwrap().subsec_nanos() == nanos,
    {
        if MIN_SECONDS <= secs && secs <= MAX_SECONDS && nanos < NANOS_PER_SECOND {
            Some(Timestamp { secs, nanos })
        } else {
            None
        }
    }

    /// Whole seconds since the Unix epoch.
    pub fn secs(&self) -> (r: i64)
        ensures
            r == self.seconds(),
            MIN_SECONDS <= r <= MAX_SECONDS,
    {
        proof {
            use_type_invariant(self);
        }
        self.secs
    }

    /// Nanoseconds into the second.
    pub fn nanos(&self) -> (r: u32)
        ensures
            r == self.subsec_nanos(),
            r < NANOS_PER_SECOND,
    {
        proof {
            use_type_invariant(self);
        }
        self.nanos
    }

    /// Whole days elapsed from `self` to `now`, rounded toward zero and not
    /// clamped: a `now` before `self` gives zero or a negative count.
    pub fn days_until(&self, now: &Timestamp) -> (days: i64)
        ensures
            days == self.whole_days_until(*now),
    {
        proof {
            use_type_invariant(self);
            use_type_invariant(now);
        }
        match whole_days_between(self.secs, self.nanos, now.secs, now.nanos) {
            Some(days) => days,
            None => {
                // Both points lie on the supported time line, where the
                // count is always there.
                assert(false);
                0
            },
        }
    }
}

/// Calls `chrono::DateTime::from_timestamp` on both points and
/// `chrono::TimeDelta::num_days` on their difference, as given by
/// `chrono::DateTime::signed_duration_since`. Unproved: the conversion answers
/// exactly for the points on the supported time line, and the count is the
/// distance in nanoseconds divided by the length of a day, rounded toward zero.
#[verifier::external_body]
fn whole_days_between(from_secs: i64, from_nanos: u32, to_secs: i64, to_nanos: u32) -> (r: Option<i64>)
    requires
        from_nanos < NANOS_PER_SECOND,
        to_nanos < NANOS_PER_SECOND,
    ensures
        r is Some <==> (seconds_on_time_line(from_secs as int) && seconds_on_time_line(to_secs as int)),
        r is Some ==> r.unwrap() == div_toward_zero(
            nanos_since_epoch(to_secs as int, to_nanos as int) - nanos_since_epoch(from_secs as int, from_nanos as int),
            nanos_per_day(),
        ),
{
    let from = chrono::DateTime::from_timestamp(from_secs, from_nanos)?;
    let to = chrono::DateTime::from_timestamp(to_secs, to_nanos)?;
    Some(to.signed_duration_since(from).num_days())
}

/// No whole day lies between a point in time and itself.
pub proof fn lemma_no_days_to_itself(t: Timestamp)
    ensures
        t.whole_days_until(t) == 0,
{
}

} // verus!
