//! Instants: the clock, differences, dates, and their text through `chrono`.
use vstd::prelude::*;
use vstd::string::*;

use crate::text::digit_char;

verus! {

/// The first second that an instant can name.
pub const MIN_SECS: i64 = -8334601228800;

/// The last second that an instant can name.
pub const MAX_SECS: i64 = 8210266876799;

/// An instant in UTC: whole seconds since 1970 and nanoseconds. A leap second is
/// the 59th second of a minute with a thousand million or more nanoseconds.
#[derive(Clone, Copy, Debug, PartialEq, Eq, Structural)]
pub struct Timestamp {
    pub secs: i64,
    pub nanos: u32,
}

impl Timestamp {
    /// Whether the fields name an instant.
    pub open spec fn wf(self) -> bool {
        &&& MIN_SECS <= self.secs <= MAX_SECS
        &&& self.nanos < 2_000_000_000
        &&& self.nanos >= 1_000_000_000 ==> self.secs as int % 60 == 59
    }

    /// Whether an instant lies in a leap second.
    pub open spec fn leap(self) -> bool {
        self.nanos >= 1_000_000_000
    }

    /// Days since 1970, rounded down.
    pub open spec fn day(self) -> int {
        self.secs as int / 86400
    }

    /// Seconds since midnight.
    pub open spec fn second_of_day(self) -> int {
        self.secs as int % 86400
    }

    /// Whether an instant lies before another.
    pub open spec fn before(self, other: Timestamp) -> bool {
        self.secs < other.secs || (self.secs == other.secs && self.nanos < other.nanos)
    }
}

/// The nanoseconds from `earlier` to `later`. A leap second is counted where one
/// of the two lies in it and the other at a time of day beyond it.
pub open spec fn nanos_between(earlier: Timestamp, later: Timestamp) -> int {
    let counted: int = if later.second_of_day() > earlier.second_of_day() && earlier.leap() {
        1
    } else if later.second_of_day() < earlier.second_of_day() && later.leap() {
        -1
    } else {
        0
    };
    (later.secs - earlier.secs + counted) * 1_000_000_000 + later.nanos - earlier.nanos
}

/// The whole seconds from `earlier` to `later`, rounded toward zero.
pub open spec fn seconds_between(earlier: Timestamp, later: Timestamp) -> int {
    let total = nanos_between(earlier, later);
    if total >= 0 {
        total / 1_000_000_000
    } else {
        -(-total / 1_000_000_000)
    }
}

/// The instant `n` seconds before `t`; `n` may be negative. Leaving a leap second
/// ends it.
pub open spec fn seconds_before(t: Timestamp, n: int) -> Timestamp {
    if t.leap() && n > 0 {
        Timestamp { secs: (t.secs + 1 - n) as i64, nanos: (t.nanos - 1_000_000_000) as u32 }
    } else if t.leap() && n < 0 {
        Timestamp { secs: (t.secs - n) as i64, nanos: (t.nanos - 1_000_000_000) as u32 }
    } else {
        Timestamp { secs: (t.secs - n) as i64, nanos: t.nanos }
    }
}

/// Whether the instant `n` seconds before `t` can be named.
pub open spec fn reaches_back(t: Timestamp, n: int) -> bool {
    if t.leap() && n > 0 {
        MIN_SECS <= t.secs + 1 - n <= MAX_SECS
    } else {
        MIN_SECS <= t.secs - n <= MAX_SECS
    }
}

/// Two decimal digits.
pub open spec fn two_digits(n: nat) -> Seq<char> {
    seq![digit_char(n / 10), digit_char(n % 10)]
}

/// The patterns in which instants are written.
pub open spec fn known_pattern(pattern: Seq<char>) -> bool {
    pattern == "%Y-%m-%d %H:%M:%S"@ || pattern == "%Y-%m-%d %H:%M"@ || pattern == "%H:%M"@
}

// ── chrono ───────────────────────────────────────────────────────────────────

/// The text that `chrono::DateTime::format` gives for an instant and a pattern.
pub uninterp spec fn instant_text(secs: i64, nanos: u32, pattern: Seq<char>) -> Seq<char>;

/// The instant that `chrono::DateTime::parse_from_rfc3339` reads out of a text,
/// in UTC; `None` where it reports an error.
pub uninterp spec fn rfc3339_instant(text: Seq<char>) -> Option<Timestamp>;

/// Calls `chrono::Utc::now`. Every outcome is an instant since 1970 outside a
/// leap second; which one depends on the clock.
#[verifier::external_body]
pub(crate) fn now() -> (r: Timestamp)
    ensures
        r.wf(),
        r.secs >= 0,
        !r.leap(),
{
    let t = chrono::Utc::now();
    Timestamp { secs: t.timestamp(), nanos: t.timestamp_subsec_nanos() }
}

/// Subtracts one `chrono::DateTime` from another and calls
/// `chrono::TimeDelta::num_seconds` on the difference: the whole seconds between
/// them, rounded toward zero.
#[verifier::external_body]
pub(crate) fn seconds_from(earlier: Timestamp, later: Timestamp) -> (r: i64)
    requires
        earlier.wf(),
        later.wf(),
    ensures
        r == seconds_between(earlier, later),
{
    let from = chrono::DateTime::from_timestamp(earlier.secs, earlier.nanos).unwrap();
    let to = chrono::DateTime::from_timestamp(later.secs, later.nanos).unwrap();
    (to - from).num_seconds()
}

/// Calls `chrono::DateTime::checked_sub_signed` with a number of seconds, which
/// may be negative.
#[verifier::external_body]
pub(crate) fn minus_seconds(t: Timestamp, n: i64) -> (r: Timestamp)
    requires
        t.wf(),
        reaches_back(t, n as int),
    ensures
        r == seconds_before(t, n as int),
{
    let from = chrono::DateTime::from_timestamp(t.secs, t.nanos).unwrap();
    let to = from.checked_sub_signed(chrono::TimeDelta::seconds(n)).unwrap();
    Timestamp { secs: to.timestamp(), nanos: to.timestamp_subsec_nanos() }
}

/// Calls `chrono::DateTime::format` and prints its result. Hours and minutes are
/// written with two digits each.
#[verifier::external_body]
pub(crate) fn format_instant(t: Timestamp, pattern: &str) -> (r: String)
    requires
        t.wf(),
        known_pattern(pattern@),
    ensures
        r@ == instant_text(t.secs, t.nanos, pattern@),
        pattern@ == "%H:%M"@ ==> r@ == two_digits((t.second_of_day() / 3600) as nat) + ":"@
            + two_digits((t.second_of_day() / 60 % 60) as nat),
{
    let at = chrono::DateTime::from_timestamp(t.secs, t.nanos).unwrap();
    at.format(pattern).to_string()
}

/// Calls `chrono::DateTime::parse_from_rfc3339` and takes the instant to UTC.
#[verifier::external_body]
pub(crate) fn parse_rfc3339(text: &str) -> (r: Option<Timestamp>)
    ensures
        r == rfc3339_instant(text@),
        r matches Some(t) ==> t.wf(),
{
    let read = chrono::DateTime::parse_from_rfc3339(text).ok()?.with_timezone(&chrono::Utc);
    Some(Timestamp { secs: read.timestamp(), nanos: read.timestamp_subsec_nanos() })
}

// ── Laws ─────────────────────────────────────────────────────────────────────

/// What is taken off an instant outside a leap second lies just so long ago, and
/// instants stand in the order of their seconds, then of their nanoseconds.
pub proof fn time_counts_back(t: Timestamp, n: int)
    requires
        t.wf(),
        !t.leap(),
        reaches_back(t, n),
        i64::MIN <= t.secs - n <= i64::MAX,
    ensures
        seconds_between(seconds_before(t, n), t) == n,
        n > 0 ==> seconds_before(t, n).before(t),
        n < 0 ==> t.before(seconds_before(t, n)),
        n == 0 ==> seconds_before(t, n) == t,
{
    let earlier = seconds_before(t, n);
    assert(nanos_between(earlier, t) == n * 1_000_000_000);
}

} // verus!
