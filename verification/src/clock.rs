//! Points in time and spans between them.
use vstd::prelude::*;

verus! {

pub const NANOS_PER_SECOND: i128 = 1_000_000_000;

/// The first nanosecond of the year -9999, counted from the Unix epoch.
pub const MIN_NANOS: i128 = -377_705_116_800_000_000_000;

/// The last nanosecond of the year 9999, counted from the Unix epoch.
pub const MAX_NANOS: i128 = 253_402_300_799_999_999_999;

/// `time::error::ComponentRange`: says that a date is out of range. Nothing is claimed of it.
#[verifier::external_type_specification]
#[verifier::external_body]
pub struct ExComponentRange(time::error::ComponentRange);

/// `OffsetDateTime::now_utc`: the nanoseconds from the Unix epoch to now. The clock decides
/// which; that they are those of a date in the supported years is all that is claimed.
#[verifier::external_body]
fn now_nanos() -> (nanos: i128)
    ensures
        MIN_NANOS <= nanos <= MAX_NANOS,
{
    time::OffsetDateTime::now_utc().unix_timestamp_nanos()
}

/// `OffsetDateTime::from_unix_timestamp_nanos`: the date that is so many nanoseconds from the
/// Unix epoch, given back as these nanoseconds; an error exactly if it is not in the supported
/// years.
#[verifier::external_body]
fn date_nanos(nanos: i128) -> (date: Result<i128, time::error::ComponentRange>)
    ensures
        date is Ok <==> MIN_NANOS <= nanos <= MAX_NANOS,
        date is Ok ==> date->Ok_0 == nanos,
{
    time::OffsetDateTime::from_unix_timestamp_nanos(nanos).map(|t| t.unix_timestamp_nanos())
}

/// `OffsetDateTime::unix_timestamp`: the whole seconds from the Unix epoch to the date that is
/// so many nanoseconds from it, rounded down.
#[verifier::external_body]
fn date_seconds(nanos: i128) -> (seconds: i64)
    requires
        MIN_NANOS <= nanos <= MAX_NANOS,
    ensures
        seconds == nanos as int / NANOS_PER_SECOND as int,
{
    time::OffsetDateTime::from_unix_timestamp_nanos(nanos).unwrap().unix_timestamp()
}

/// A span of time that is not negative.
#[derive(Debug, Clone, Copy, PartialEq, Eq)]
pub struct Span {
    pub seconds: u64,
    pub nanoseconds: u32,
}

impl Span {
    /// The nanoseconds are less than a second.
    pub open spec fn wf(self) -> bool {
        self.nanoseconds < NANOS_PER_SECOND
    }

    /// The length of the span in nanoseconds.
    pub open spec fn nanos(self) -> int {
        self.seconds * NANOS_PER_SECOND + self.nanoseconds
    }

    /// The empty span.
    pub fn zero() -> (span: Self)
        ensures
            span.wf(),
            span.nanos() == 0,
            span.seconds == 0 && span.nanoseconds == 0,
    {
        Span { seconds: 0, nanoseconds: 0 }
    }
}

/// A point in time in the years -9999 to 9999.
#[derive(Debug, Clone, Copy, PartialEq, Eq)]
pub struct Timestamp {
    nanos: i128,
}

impl View for Timestamp {
    type V = int;

    /// The nanoseconds from the Unix epoch.
    closed spec fn view(&self) -> int {
        self.nanos as int
    }
}

/// Whether a date in the supported years is so many nanoseconds from the Unix epoch.
pub open spec fn in_supported_years(nanos: int) -> bool {
    MIN_NANOS <= nanos <= MAX_NANOS
}

impl Timestamp {
    #[verifier::type_invariant]
    spec fn in_range(self) -> bool {
        in_supported_years(self.nanos as int)
    }

    /// The current time.
    pub fn now_utc() -> (now: Self)
        ensures
            in_supported_years(now@),
    {
        Timestamp { nanos: now_nanos() }
    }

    /// The point in time so many nanoseconds from the Unix epoch, if it is in the supported
    /// years.
    pub fn from_unix_timestamp_nanos(nanos: i128) -> (timestamp: Option<Self>)
        ensures
            timestamp is Some <==> in_supported_years(nanos as int),
            timestamp is Some <==> -377_705_116_800_000_000_000 <= nanos
                <= 253_402_300_799_999_999_999,
            timestamp is Some ==> timestamp->0@ == nanos,
    {
        match date_nanos(nanos) {
            Ok(nanos) => Some(Timestamp { nanos }),
            Err(_) => None,
        }
    }

    /// The nanoseconds from the Unix epoch.
    pub fn unix_timestamp_nanos(&self) -> (nanos: i128)
        ensures
            nanos == self@,
            in_supported_years(self@),
    {
        proof {
            use_type_invariant(self);
        }
        self.nanos
    }

    /// The whole seconds from the Unix epoch, rounded down.
    pub fn unix_timestamp(&self) -> (seconds: i64)
        ensures
            seconds == self@ / NANOS_PER_SECOND as int,
            1_000_000_000 * seconds <= self@ < 1_000_000_000 * (seconds + 1),
    {
        proof {
            use_type_invariant(self);
        }
        date_seconds(self.nanos)
    }

    /// The point in time that is later by `delta` nanoseconds, if it is in the supported years.
    pub fn checked_add(&self, delta: i128) -> (sum: Option<Self>)
        ensures
            sum is Some <==> in_supported_years(self@ + delta),
            sum is Some <==> -377_705_116_800_000_000_000 <= self@ + delta
                <= 253_402_300_799_999_999_999,
            sum is Some ==> sum->0@ == self@ + delta,
    {
        proof {
            use_type_invariant(self);
        }
        match self.nanos.checked_add(delta) {
            Some(nanos) => Self::from_unix_timestamp_nanos(nanos),
            None => None,
        }
    }

    /// How long it is from `now` to this point in time, if it is still to come.
    pub fn time_left(&self, now: &Timestamp) -> (left: Option<Span>)
        ensures
            left is Some <==> self@ > now@,
            left is Some ==> left->0.wf() && left->0.nanos() == self@ - now@,
            left is Some ==> left->0.nanoseconds < 1_000_000_000 && 1_000_000_000
                * left->0.seconds + left->0.nanoseconds == self@ - now@,
    {
        proof {
            use_type_invariant(self);
            use_type_invariant(now);
        }
        let nanos: i128 = self.nanos - now.nanos;
        if nanos > 0 {
            let seconds: i128 = nanos / NANOS_PER_SECOND;
            let nanoseconds: i128 = nanos % NANOS_PER_SECOND;
            Some(Span { seconds: seconds as u64, nanoseconds: nanoseconds as u32 })
        } else {
            None
        }
    }
}

} // verus!
