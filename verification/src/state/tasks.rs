//! What is known of one task of the watched program.
//!
//! A [`Task`] is a snapshot: the counters and timestamps that the watched
//! program last reported for the task. What the task is doing, and for how
//! long it has been busy, is derived from them.

use crate::state::store::Id;
use crate::time::{busy, busy_at, total, total_at, TimeSpan, Timestamp};
use vstd::prelude::*;

verus! {

/// How a task was started.
#[derive(Clone, Copy, Debug, PartialEq, Eq, Structural)]
pub enum TaskKind {
    /// An async task, spawned onto the runtime.
    Spawn,
    /// A blocking task, run on a thread of its own.
    Blocking,
    /// The future that the runtime was entered with.
    BlockOn,
    /// Any other kind of task.
    Other,
}

/// What a task is doing.
#[derive(Clone, Copy, Debug, PartialEq, Eq, Structural)]
pub enum TaskState {
    /// The task has ended.
    Completed,
    /// The task waits to be woken.
    Idle,
    /// The task is being polled.
    Running,
    /// The task was woken and waits to be polled.
    Scheduled,
}

/// Whether `a` is later than `b`, where "never" is earlier than any time.
pub open spec fn later(a: Option<Timestamp>, b: Option<Timestamp>) -> bool {
    match (a, b) {
        (Some(x), Some(y)) => x.nanos > y.nanos,
        (Some(_), None) => true,
        (None, _) => false,
    }
}

/// Decides [`later`].
pub fn is_later(a: Option<Timestamp>, b: Option<Timestamp>) -> (r: bool)
    ensures
        r == later(a, b),
{
    match (a, b) {
        (Some(x), Some(y)) => x.nanos > y.nanos,
        (Some(_), None) => true,
        (None, _) => false,
    }
}

/// `part` as a percentage of `whole`, rounded down; zero if `whole` is zero.
pub open spec fn percent_of(part: u64, whole: u64) -> nat {
    if whole == 0 {
        0
    } else {
        (part * 100 / whole as int) as nat
    }
}

/// A snapshot of one task.
#[derive(Clone, Copy, Debug)]
pub struct Task {
    /// The task's local identifier.
    pub id: Id,
    /// How the task was started.
    pub kind: TaskKind,
    /// When the task was created.
    pub created_at: Timestamp,
    /// How long the task existed, once it has ended.
    pub total: Option<TimeSpan>,
    /// The time the task has spent in polls that have ended, in nanoseconds.
    pub busy: u64,
    /// When the task's latest poll started.
    pub last_poll_started: Option<Timestamp>,
    /// When the task's latest poll ended.
    pub last_poll_ended: Option<Timestamp>,
    /// When the task was last woken.
    pub last_wake: Option<Timestamp>,
    /// How often the task has been polled.
    pub polls: u64,
    /// How often the task has been woken.
    pub wakes: u64,
    /// How often a waker of the task has been cloned.
    pub waker_clones: u64,
    /// How often a waker of the task has been dropped.
    pub waker_drops: u64,
    /// How often the task has woken itself.
    pub self_wakes: u64,
    /// The size of the task's future in bytes, if known.
    pub size_bytes: Option<usize>,
    /// The size that the task's future had before the runtime boxed it, in
    /// bytes, if known.
    pub original_size_bytes: Option<usize>,
}

impl Task {
    /// Whether the task is a blocking task rather than an async one.
    pub open spec fn blocking(&self) -> bool {
        self.kind == TaskKind::Blocking
    }

    /// Whether the task has ended.
    pub open spec fn completed(&self) -> bool {
        self.total is Some
    }

    /// Whether the task is being polled: its latest poll has started and
    /// has not ended.
    pub open spec fn running(&self) -> bool {
        later(self.last_poll_started, self.last_poll_ended)
    }

    /// Whether the task was woken since its latest poll started.
    pub open spec fn awakened(&self) -> bool {
        later(self.last_wake, self.last_poll_started)
    }

    /// What the task is doing.
    pub open spec fn state_of(&self) -> TaskState {
        if self.completed() {
            TaskState::Completed
        } else if self.running() {
            TaskState::Running
        } else if self.awakened() {
            TaskState::Scheduled
        } else {
            TaskState::Idle
        }
    }

    /// The number of wakers of the task that are alive.
    pub open spec fn wakers(&self) -> nat {
        if self.waker_clones >= self.waker_drops {
            (self.waker_clones - self.waker_drops) as nat
        } else {
            0
        }
    }

    /// The start of the poll that the task is in, if it is in one.
    pub open spec fn polling_since(&self) -> Option<Timestamp> {
        if self.running() {
            self.last_poll_started
        } else {
            None
        }
    }

    /// The time the task has existed at `now`, in nanoseconds.
    pub open spec fn total_nanos(&self, now: Timestamp) -> nat {
        total_at(self.total, self.created_at, now)
    }

    /// The time the task has spent being polled at `now`, in nanoseconds.
    pub open spec fn busy_nanos(&self, now: Timestamp) -> nat {
        busy_at(self.busy, self.polling_since(), now)
    }

    /// Decides [`Task::blocking`].
    pub fn is_blocking(&self) -> (r: bool)
        ensures
            r == self.blocking(),
    {
        match self.kind {
            TaskKind::Blocking => true,
            _ => false,
        }
    }

    /// Decides [`Task::completed`].
    pub fn is_completed(&self) -> (r: bool)
        ensures
            r == self.completed(),
    {
        self.total.is_some()
    }

    /// Decides [`Task::running`].
    pub fn is_running(&self) -> (r: bool)
        ensures
            r == self.running(),
    {
        is_later(self.last_poll_started, self.last_poll_ended)
    }

    /// Decides [`Task::awakened`].
    pub fn is_awakened(&self) -> (r: bool)
        ensures
            r == self.awakened(),
    {
        is_later(self.last_wake, self.last_poll_started)
    }

    /// Computes [`Task::state_of`].
    pub fn state(&self) -> (s: TaskState)
        ensures
            s == self.state_of(),
    {
        if self.is_completed() {
            TaskState::Completed
        } else if self.is_running() {
            TaskState::Running
        } else if self.is_awakened() {
            TaskState::Scheduled
        } else {
            TaskState::Idle
        }
    }

    /// Computes [`Task::wakers`].
    pub fn waker_count(&self) -> (n: u64)
        ensures
            n == self.wakers(),
    {
        if self.waker_clones >= self.waker_drops {
            self.waker_clones - self.waker_drops
        } else {
            0
        }
    }

    /// The share of the task's wakeups that were its own, in percent,
    /// rounded down.
    pub fn self_wake_percent(&self) -> (p: u128)
        ensures
            p == percent_of(self.self_wakes, self.wakes),
    {
        if self.wakes == 0 {
            0
        } else {
            self.self_wakes as u128 * 100 / self.wakes as u128
        }
    }

    /// How often the task has been polled.
    pub fn total_polls(&self) -> (n: u64)
        ensures
            n == self.polls,
    {
        self.polls
    }

    /// The time the task has existed at `now`: the total fixed when it
    /// ended, or else the time since it was created.
    pub fn total(&self, now: Timestamp) -> (d: TimeSpan)
        ensures
            d.nanos == self.total_nanos(now),
    {
        total(self.total, self.created_at, now)
    }

    /// The time the task has spent being polled at `now`: the time spent in
    /// the polls that have ended, plus the time since the start of the poll
    /// that the task is in.
    pub fn busy(&self, now: Timestamp) -> (d: TimeSpan)
        ensures
            d.nanos == self.busy_nanos(now),
    {
        let polling_since = if self.is_running() {
            self.last_poll_started
        } else {
            None
        };
        busy(self.busy, polling_since, now)
    }

    /// The size of the task's future in bytes, if known.
    pub fn size_bytes(&self) -> (size: Option<usize>)
        ensures
            size == self.size_bytes,
    {
        self.size_bytes
    }

    /// The size that the task's future had before the runtime boxed it, in
    /// bytes, if known.
    pub fn original_size_bytes(&self) -> (size: Option<usize>)
        ensures
            size == self.original_size_bytes,
    {
        self.original_size_bytes
    }
}

} // verus!
