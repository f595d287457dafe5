//! Points in time, lengths of time, and the figures derived from them.
//!
//! An entity stores raw timestamps and an accumulated busy time. Its total,
//! busy and idle durations are computed when they are read, relative to the
//! instant of the query, so that an entity still running always shows
//! up-to-date figures.

use vstd::prelude::*;

verus! {

/// Nanoseconds in one millisecond.
pub const NANOS_PER_MILLI: u128 = 1_000_000;

/// Nanoseconds in one second.
pub const NANOS_PER_SEC: u128 = 1_000_000_000;

/// A point in time: nanoseconds elapsed since the Unix epoch.
#[derive(Clone, Copy, Debug, PartialEq, Eq, Structural)]
pub struct Timestamp {
    pub nanos: u64,
}

/// A length of time in nanoseconds.
///
/// The count is wider than that of a [`Timestamp`], so that the sum of an
/// accumulated time and the distance between two timestamps always fits.
#[derive(Clone, Copy, Debug, PartialEq, Eq, Structural)]
pub struct TimeSpan {
    pub nanos: u128,
}

/// The text that `std` prints with `{:?}` for a `Duration` of `secs` seconds
/// and `subsec_nanos` nanoseconds.
pub uninterp spec fn duration_debug(secs: u64, subsec_nanos: u32) -> Seq<char>;

/// `Duration::new`, and the `Debug` impl of `Duration` through `format!`.
/// The contract claims that the text depends on the two numbers alone, and
/// gives it its name. With less than a second's worth of nanoseconds nothing
/// is carried over into the seconds, so `Duration::new` does not overflow.
#[verifier::external_body]
fn format_duration(secs: u64, subsec_nanos: u32) -> (text: String)
    requires
        subsec_nanos < 1_000_000_000,
    ensures
        text@ == duration_debug(secs, subsec_nanos),
{
    format!("{:?}", core::time::Duration::new(secs, subsec_nanos))
}

/// The text for a span of `nanos` nanoseconds: what `std` prints for a
/// `Duration` of that length.
pub open spec fn span_debug(nanos: nat) -> Seq<char> {
    duration_debug((nanos / NANOS_PER_SEC as nat) as u64, (nanos % NANOS_PER_SEC as nat) as u32)
}

/// The time from `earlier` to `now`, or zero where `earlier` is the later one.
pub open spec fn elapsed(now: Timestamp, earlier: Timestamp) -> nat {
    if now.nanos >= earlier.nanos {
        (now.nanos - earlier.nanos) as nat
    } else {
        0
    }
}

/// How long an entity has existed at `now`: the total fixed at its completion
/// if it has one, else the time since its creation.
pub open spec fn total_at(total: Option<TimeSpan>, created_at: Timestamp, now: Timestamp) -> nat {
    match total {
        Some(t) => t.nanos as nat,
        None => elapsed(now, created_at),
    }
}

/// The time an entity has spent being polled at `now`: the accumulated busy
/// time, plus the time since the start of the poll it is in, if it is in one.
pub open spec fn busy_at(busy: u64, polling_since: Option<Timestamp>, now: Timestamp) -> nat {
    match polling_since {
        Some(started) => busy as nat + elapsed(now, started),
        None => busy as nat,
    }
}

/// The time an entity has spent waiting: the idle time fixed at its completion
/// if it has one, else what is left of `total` after `busy`, never below zero.
pub open spec fn idle_at(idle: Option<TimeSpan>, total: nat, busy: nat) -> nat {
    match idle {
        Some(i) => i.nanos as nat,
        None => if total >= busy {
            (total - busy) as nat
        } else {
            0
        },
    }
}

/// The timestamp that is `seconds` seconds and `nanos` nanoseconds after the
/// Unix epoch, if there is one: neither number is negative, the nanoseconds
/// are less than a second, and the whole fits in 64 bits of nanoseconds.
pub open spec fn timestamp_of(seconds: i64, nanos: i32) -> Option<Timestamp> {
    if 0 <= seconds && 0 <= nanos < NANOS_PER_SEC && seconds * NANOS_PER_SEC + nanos <= u64::MAX {
        Some(Timestamp { nanos: (seconds * NANOS_PER_SEC + nanos) as u64 })
    } else {
        None
    }
}

/// The length in nanoseconds of a time of `seconds` seconds and `nanos`
/// nanoseconds, if neither number is negative; a time too long for 64 bits
/// counts as the longest that fits.
pub open spec fn nanos_of(seconds: i64, nanos: i32) -> Option<u64> {
    if 0 <= seconds && 0 <= nanos {
        if seconds * NANOS_PER_SEC + nanos <= u64::MAX {
            Some((seconds * NANOS_PER_SEC + nanos) as u64)
        } else {
            Some(u64::MAX)
        }
    } else {
        None
    }
}

/// Computes [`nanos_of`].
pub fn nanos_from_parts(seconds: i64, nanos: i32) -> (length: Option<u64>)
    ensures
        length == nanos_of(seconds, nanos),
{
    if seconds < 0 || nanos < 0 {
        return None;
    }
    assert(seconds * NANOS_PER_SEC <= i64::MAX * 1_000_000_000) by (nonlinear_arith)
        requires
            0 <= seconds <= i64::MAX,
            NANOS_PER_SEC == 1_000_000_000,
    ;
    let whole: u128 = seconds as u128 * NANOS_PER_SEC + nanos as u128;
    if whole <= u64::MAX as u128 {
        Some(whole as u64)
    } else {
        Some(u64::MAX)
    }
}

/// The total of an entity never shrinks as time goes on, and the total of
/// an entity that has completed is the same at every instant.
pub proof fn lemma_total_monotone(
    fixed: Option<TimeSpan>,
    created_at: Timestamp,
    earlier: Timestamp,
    later: Timestamp,
)
    requires
        earlier.nanos <= later.nanos,
    ensures
        total_at(fixed, created_at, earlier) <= total_at(fixed, created_at, later),
        fixed is Some ==> total_at(fixed, created_at, earlier) == total_at(
            fixed,
            created_at,
            later,
        ),
{
}

/// The busy time of an entity never shrinks as time goes on.
pub proof fn lemma_busy_monotone(
    accumulated: u64,
    polling_since: Option<Timestamp>,
    earlier: Timestamp,
    later: Timestamp,
)
    requires
        earlier.nanos <= later.nanos,
    ensures
        busy_at(accumulated, polling_since, earlier) <= busy_at(accumulated, polling_since, later),
{
}

/// Idle and busy time add up to the total: exactly where the busy time is
/// within the total, and to the busy time itself where reports that do not
/// agree make it exceed the total.
pub proof fn lemma_idle_busy_total(total: nat, busy: nat)
    ensures
        busy <= total ==> idle_at(None, total, busy) + busy == total,
        busy > total ==> idle_at(None, total, busy) + busy == busy,
{
}

impl Timestamp {
    /// The timestamp `nanos` nanoseconds after the Unix epoch.
    pub fn from_nanos(nanos: u64) -> (t: Timestamp)
        ensures
            t.nanos == nanos,
    {
        Timestamp { nanos }
    }

    /// Computes [`timestamp_of`].
    pub fn from_parts(seconds: i64, nanos: i32) -> (t: Option<Timestamp>)
        ensures
            t == timestamp_of(seconds, nanos),
    {
        if seconds < 0 || nanos < 0 || nanos >= 1_000_000_000 {
            return None;
        }
        assert(seconds * NANOS_PER_SEC <= i64::MAX * 1_000_000_000) by (nonlinear_arith)
            requires
                0 <= seconds <= i64::MAX,
                NANOS_PER_SEC == 1_000_000_000,
        ;
        let whole: u128 = seconds as u128 * NANOS_PER_SEC + nanos as u128;
        if whole <= u64::MAX as u128 {
            Some(Timestamp { nanos: whole as u64 })
        } else {
            None
        }
    }

    /// Nanoseconds since the Unix epoch.
    pub fn as_nanos(&self) -> (n: u64)
        ensures
            n == self.nanos,
    {
        self.nanos
    }

    /// The time from `earlier` to `self`, zero if `earlier` is in fact later.
    pub fn saturating_since(&self, earlier: Timestamp) -> (d: TimeSpan)
        ensures
            d.nanos == elapsed(*self, earlier),
    {
        if self.nanos >= earlier.nanos {
            TimeSpan { nanos: (self.nanos - earlier.nanos) as u128 }
        } else {
            TimeSpan { nanos: 0 }
        }
    }
}

impl TimeSpan {
    /// The empty span.
    pub fn zero() -> (d: TimeSpan)
        ensures
            d.nanos == 0,
    {
        TimeSpan { nanos: 0 }
    }

    /// A span of `nanos` nanoseconds.
    pub fn from_nanos(nanos: u128) -> (d: TimeSpan)
        ensures
            d.nanos == nanos,
    {
        TimeSpan { nanos }
    }

    /// A span of `millis` milliseconds.
    pub fn from_millis(millis: u64) -> (d: TimeSpan)
        ensures
            d.nanos == millis * NANOS_PER_MILLI,
    {
        assert(millis * NANOS_PER_MILLI <= u64::MAX * 1_000_000) by (nonlinear_arith)
            requires
                millis <= u64::MAX,
                NANOS_PER_MILLI == 1_000_000,
        ;
        TimeSpan { nanos: millis as u128 * NANOS_PER_MILLI }
    }

    /// A span of `secs` seconds.
    pub fn from_secs(secs: u64) -> (d: TimeSpan)
        ensures
            d.nanos == secs * NANOS_PER_SEC,
    {
        assert(secs * NANOS_PER_SEC <= u64::MAX * 1_000_000_000) by (nonlinear_arith)
            requires
                secs <= u64::MAX,
                NANOS_PER_SEC == 1_000_000_000,
        ;
        TimeSpan { nanos: secs as u128 * NANOS_PER_SEC }
    }

    /// The span in nanoseconds.
    pub fn as_nanos(&self) -> (n: u128)
        ensures
            n == self.nanos,
    {
        self.nanos
    }

    /// The span in words, such as `1.5s` or `20ms`, as `std` prints a
    /// `Duration`. The seconds of the span must fit in 64 bits.
    pub fn debug(&self) -> (text: String)
        requires
            self.nanos / NANOS_PER_SEC <= u64::MAX,
        ensures
            text@ == span_debug(self.nanos as nat),
    {
        let secs = (self.nanos / NANOS_PER_SEC) as u64;
        let subsec_nanos = (self.nanos % NANOS_PER_SEC) as u32;
        format_duration(secs, subsec_nanos)
    }

    /// The span in whole milliseconds, rounded down.
    pub fn as_millis(&self) -> (n: u128)
        ensures
            n == self.nanos / NANOS_PER_MILLI,
    {
        self.nanos / NANOS_PER_MILLI
    }
}

/// Computes [`total_at`].
pub fn total(fixed: Option<TimeSpan>, created_at: Timestamp, now: Timestamp) -> (d: TimeSpan)
    ensures
        d.nanos == total_at(fixed, created_at, now),
{
    match fixed {
        Some(t) => t,
        None => now.saturating_since(created_at),
    }
}

/// Computes [`busy_at`].
pub fn busy(accumulated: u64, polling_since: Option<Timestamp>, now: Timestamp) -> (d: TimeSpan)
    ensures
        d.nanos == busy_at(accumulated, polling_since, now),
{
    match polling_since {
        Some(started) => {
            let in_poll = now.saturating_since(started);
            TimeSpan { nanos: accumulated as u128 + in_poll.nanos }
        },
        None => TimeSpan { nanos: accumulated as u128 },
    }
}

/// Computes [`idle_at`] from a total and a busy time already derived.
pub fn idle(fixed: Option<TimeSpan>, whole: TimeSpan, polled: TimeSpan) -> (d: TimeSpan)
    ensures
        d.nanos == idle_at(fixed, whole.nanos as nat, polled.nanos as nat),
{
    match fixed {
        Some(i) => i,
        None => if whole.nanos >= polled.nanos {
            TimeSpan { nanos: whole.nanos - polled.nanos }
        } else {
            TimeSpan { nanos: 0 }
        },
    }
}

} // verus!
