//! Points in time read from the RFC 3339 text the library stores
//! (`created_at`, `shared_at`), as whole seconds since the Unix epoch and the
//! nanoseconds within that second, ordered as chrono orders them.
use vstd::prelude::*;

verus! {

/// Seconds since the epoch and nanoseconds within the second (a value of a
/// billion or more marks a leap second, as in chrono).
#[derive(Clone, Copy, PartialEq, Eq, Debug, Structural)]
pub struct Instant {
    pub secs: i64,
    pub nanos: u32,
}

/// `a` is earlier than `b`.
pub open spec fn before(a: Instant, b: Instant) -> bool {
    a.secs < b.secs || (a.secs == b.secs && a.nanos < b.nanos)
}

pub fn is_before(a: Instant, b: Instant) -> (r: bool)
    ensures
        r == before(a, b),
{
    a.secs < b.secs || (a.secs == b.secs && a.nanos < b.nanos)
}

/// The time `text` names, as chrono's RFC 3339 parser reads it.
pub uninterp spec fn rfc3339_instant(text: Seq<char>) -> Option<Instant>;

/// `DateTime::parse_from_rfc3339`, then `timestamp` and
/// `timestamp_subsec_nanos`: the instant is a function of the text alone,
/// `None` where chrono refuses the text.
#[verifier::external_body]
pub(crate) fn parse_rfc3339(text: &str) -> (r: Option<Instant>)
    ensures
        r == rfc3339_instant(text@),
{
    match chrono::DateTime::parse_from_rfc3339(text) {
        Ok(t) => Some(Instant { secs: t.timestamp(), nanos: t.timestamp_subsec_nanos() }),
        Err(_) => None,
    }
}

/// Nanoseconds from `a` to `b` (leap-second nanoseconds counted into the
/// next second).
pub open spec fn nanos_between(a: Instant, b: Instant) -> int {
    (b.secs - a.secs) * 1_000_000_000 + (b.nanos - a.nanos)
}

/// The instant `days` whole days earlier.
pub open spec fn days_earlier(t: Instant, days: int) -> Instant {
    Instant { secs: (t.secs - days * 86_400) as i64, nanos: t.nanos }
}

pub fn days_before(t: Instant, days: u32) -> (r: Option<Instant>)
    ensures
        match r {
            Some(x) => x == days_earlier(t, days as int) && i64::MIN <= t.secs - days * 86_400,
            None => t.secs - days * 86_400 < i64::MIN,
        },
{
    let shift = days as i64 * 86_400;
    match t.secs.checked_sub(shift) {
        Some(s) => Some(Instant { secs: s, nanos: t.nanos }),
        None => None,
    }
}

} // verus!
