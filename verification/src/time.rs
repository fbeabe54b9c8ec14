//! Instants in UTC, as seconds and nanoseconds since the Unix epoch.
use vstd::prelude::*;

verus! {

/// An instant in UTC: whole seconds since 1970-01-01T00:00:00Z and the nanoseconds
/// within that second (above 999_999_999 only inside a leap second).
#[derive(Clone, Copy, Debug, PartialEq, Eq, Structural)]
pub struct Timestamp {
    pub seconds: i64,
    pub nanos: u32,
}

/// Strict chronological order: by seconds, then by nanoseconds.
pub open spec fn ts_before(a: Timestamp, b: Timestamp) -> bool {
    a.seconds < b.seconds || (a.seconds == b.seconds && a.nanos < b.nanos)
}

impl Timestamp {
    /// The instant `seconds` after the epoch, with no fraction.
    pub fn from_seconds(seconds: i64) -> (r: Timestamp)
        ensures
            r.seconds == seconds,
            r.nanos == 0,
    {
        Timestamp { seconds, nanos: 0 }
    }

    /// Whether `self` comes strictly before `other`.
    pub fn is_before(&self, other: &Timestamp) -> (r: bool)
        ensures
            r == ts_before(*self, *other),
    {
        self.seconds < other.seconds || (self.seconds == other.seconds && self.nanos < other.nanos)
    }
}

/// What chrono writes for `DateTime::from_timestamp(seconds, nanos)` with
/// `to_rfc3339_opts(SecondsFormat::Secs, true)`, or `None` where that instant is
/// outside chrono's range.
pub uninterp spec fn spec_rfc3339_seconds(seconds: i64, nanos: u32) -> Option<Seq<char>>;

/// The instant `days` whole days after (`seconds`, `nanos`) as chrono computes
/// `DateTime + TimeDelta::days(days)`, or `None` where chrono's addition overflows.
pub uninterp spec fn spec_plus_days(seconds: i64, nanos: u32, days: i64) -> Option<(i64, u32)>;

/// chrono's `DateTime::<Utc>::from_timestamp` followed by
/// `to_rfc3339_opts(SecondsFormat::Secs, true)`: the instant written as
/// `YYYY-MM-DDTHH:MM:SSZ`. The contract only ties the result to the name
/// `spec_rfc3339_seconds` of its arguments; the text itself is not stated.
#[verifier::external_body]
pub(crate) fn rfc3339_seconds(ts: &Timestamp) -> (r: Option<String>)
    ensures
        r is Some == spec_rfc3339_seconds(ts.seconds, ts.nanos) is Some,
        r matches Some(s) ==> spec_rfc3339_seconds(ts.seconds, ts.nanos)->0 == s@,
{
    match chrono::DateTime::from_timestamp(ts.seconds, ts.nanos) {
        Some(d) => Some(d.to_rfc3339_opts(chrono::SecondsFormat::Secs, true)),
        None => None,
    }
}

/// chrono's `DateTime + TimeDelta::days(days)` (through `checked_add_signed`), on the
/// instant given by `DateTime::<Utc>::from_timestamp`; `None` where either step is out
/// of chrono's range. The contract ties the result to the name `spec_plus_days`, and
/// states what chrono does away from leap seconds: the same time of day, `days` days on,
/// and a result for every instant within 2^40 seconds of the epoch (chrono's dates reach
/// past year 262000 either way). Inside a leap second the result is left to the name.
#[verifier::external_body]
pub(crate) fn plus_days(ts: &Timestamp, days: i64) -> (r: Option<Timestamp>)
    requires
        -1000 <= days <= 1000,
    ensures
        r is Some == spec_plus_days(ts.seconds, ts.nanos, days) is Some,
        r matches Some(t) ==> spec_plus_days(ts.seconds, ts.nanos, days)->0 == (t.seconds, t.nanos),
        ts.nanos < 1_000_000_000 ==> (r matches Some(t) ==> t.seconds == ts.seconds + 86400 * days
            && t.nanos == ts.nanos),
        ts.nanos < 1_000_000_000 && -0x100_0000_0000 <= ts.seconds <= 0x100_0000_0000 ==> r is Some,
{
    let start = match chrono::DateTime::from_timestamp(ts.seconds, ts.nanos) {
        Some(d) => d,
        None => return None,
    };
    match start.checked_add_signed(chrono::TimeDelta::days(days)) {
        Some(d) => Some(Timestamp { seconds: d.timestamp(), nanos: d.timestamp_subsec_nanos() }),
        None => None,
    }
}

} // verus!
