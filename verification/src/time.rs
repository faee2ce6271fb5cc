//! Points in time.

use vstd::prelude::*;

verus! {

/// The first second that a calendar date can be given for.
pub const MIN_SECS: i64 = -8_334_601_228_800;

/// The last second that a calendar date can be given for.
pub const MAX_SECS: i64 = 8_210_266_876_799;

/// A point in time, in UTC.  Its model is the number of nanoseconds since the
/// start of 1970.
#[derive(Clone, Copy, Debug, PartialEq, Eq, Structural)]
pub struct Timestamp {
    secs: i64,
    nanos: u32,
}

impl View for Timestamp {
    type V = int;

    closed spec fn view(&self) -> int {
        self.secs * 1_000_000_000 + self.nanos
    }
}

/// The points in time that a calendar date can be given for.
pub open spec fn in_calendar(t: int) -> bool {
    MIN_SECS * 1_000_000_000 <= t < (MAX_SECS + 1) * 1_000_000_000
}

/// The RFC 3339 text that chrono writes for a point in time.
pub uninterp spec fn rfc3339(t: int) -> Seq<char>;

/// `chrono::DateTime::from_timestamp` and `chrono::DateTime::to_rfc3339`: the
/// text of a point in time, which depends on the point in time alone.
/// `from_timestamp` fails only outside the calendar.
#[verifier::external_body]
fn chrono_rfc3339(secs: i64, nanos: u32) -> (r: String)
    requires
        MIN_SECS <= secs <= MAX_SECS,
        nanos < 1_000_000_000,
    ensures
        r@ == rfc3339(secs * 1_000_000_000 + nanos),
{
    chrono::DateTime::from_timestamp(secs, nanos).unwrap().to_rfc3339()
}

/// `chrono::Utc::now`, taken apart by `timestamp` and `timestamp_subsec_nanos`:
/// the time on the system's clock, which is never before 1970 and always in the
/// calendar.
#[verifier::external_body]
fn chrono_now() -> (r: (i64, u32))
    ensures
        0 <= r.0 <= MAX_SECS,
        r.1 < 1_000_000_000,
{
    let now = chrono::Utc::now();
    (now.timestamp(), now.timestamp_subsec_nanos())
}

impl Timestamp {
    #[verifier::type_invariant]
    spec fn wf(self) -> bool {
        MIN_SECS <= self.secs <= MAX_SECS && self.nanos < 1_000_000_000
    }

    /// The point in time so many seconds and nanoseconds after the start of
    /// 1970, if a calendar date can be given for it.
    pub fn new(secs: i64, nanos: u32) -> (r: Option<Timestamp>)
        ensures
            r is Some <==> MIN_SECS <= secs <= MAX_SECS && nanos < 1_000_000_000,
            r is Some ==> r->0@ == secs * 1_000_000_000 + nanos,
    {
        if MIN_SECS <= secs && secs <= MAX_SECS && nanos < 1_000_000_000 {
            Some(Timestamp { secs, nanos })
        } else {
            None
        }
    }

    /// The time on the system's clock.
    pub fn now() -> (r: Timestamp)
        ensures
            0 <= r@,
            in_calendar(r@),
    {
        let (secs, nanos) = chrono_now();
        Timestamp { secs, nanos }
    }

    /// The RFC 3339 text.
    pub fn to_rfc3339(&self) -> (r: String)
        ensures
            r@ == rfc3339(self@),
    {
        proof {
            use_type_invariant(self);
        }
        chrono_rfc3339(self.secs, self.nanos)
    }

    /// The point in time so many seconds before.
    pub fn minus_secs(&self, secs: u32) -> (r: Timestamp)
        requires
            in_calendar(self@ - secs * 1_000_000_000),
        ensures
            r@ == self@ - secs * 1_000_000_000,
    {
        proof {
            use_type_invariant(self);
        }
        Timestamp { secs: self.secs - secs as i64, nanos: self.nanos }
    }

    /// Microseconds from another point in time to this one, without the
    /// fraction; zero where they are too many for 64 bits.
    pub fn micros_since(&self, earlier: &Timestamp) -> (r: i64)
        ensures
            r == micros_between(earlier@, self@),
    {
        proof {
            use_type_invariant(self);
            use_type_invariant(earlier);
        }
        let nanos: i128 = (self.secs as i128 - earlier.secs as i128) * 1_000_000_000 + (
        self.nanos as i128 - earlier.nanos as i128);
        let micros: i128 = if nanos >= 0 {
            nanos / 1000
        } else {
            -((-nanos) / 1000)
        };
        if i64::MIN as i128 <= micros && micros <= i64::MAX as i128 {
            micros as i64
        } else {
            0
        }
    }
}

/// Microseconds from `a` to `b`, both in nanoseconds, without the fraction.
pub open spec fn whole_micros(a: int, b: int) -> int {
    if b >= a {
        (b - a) / 1000
    } else {
        -((a - b) / 1000)
    }
}

/// Microseconds from `a` to `b`, both in nanoseconds, without the fraction;
/// zero where they are too many for 64 bits.
pub open spec fn micros_between(a: int, b: int) -> i64 {
    let micros = whole_micros(a, b);
    if i64::MIN <= micros <= i64::MAX {
        micros as i64
    } else {
        0
    }
}

/// Microseconds between two points in time, without the fraction: so many fit
/// between them and one more does not; from the later to the earlier it is the
/// same number, negative; and it is zero where 64 bits are not enough.
pub proof fn law_micros(a: int, b: int)
    requires
        a <= b,
    ensures
        b - a <= i64::MAX * 1000 ==> {
            &&& 0 <= micros_between(a, b)
            &&& micros_between(a, b) * 1000 <= b - a < (micros_between(a, b) + 1) * 1000
            &&& micros_between(b, a) == -micros_between(a, b)
        },
        b - a >= (i64::MAX + 2) * 1000 ==> micros_between(a, b) == 0 && micros_between(b, a) == 0,
{
}

} // verus!
