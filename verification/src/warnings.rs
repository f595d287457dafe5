//! Lints: rules that flag an entity, and the count of entities each one
//! flags.
//!
//! A rule judges one snapshot of an entity at a time. A [`Linter`] holds a
//! rule together with the set of entities that the rule currently flags, so
//! that the number of flagged entities can be read at any time.

use crate::state::store::{Id, Store};
use crate::state::tasks::{percent_of, Task, TaskState};
use crate::text::{decimal, push_decimal};
use crate::time::{span_debug, TimeSpan, Timestamp, NANOS_PER_MILLI};
use std::collections::HashSet;
use vstd::prelude::*;
use vstd::std_specs::hash::{axiom_spec_hash_keys_iter, group_hash_axioms, spec_hash_keys_iter};
use vstd::std_specs::iter::IteratorSpec;
use vstd::string::StringExecFns;

verus! {

broadcast use group_hash_axioms;

/// What a rule says of an entity.
#[derive(Clone, Copy, Debug, PartialEq, Eq, Structural)]
pub enum Warning {
    /// The rule does not apply to the entity.
    Okay,
    /// The rule applies to the entity.
    Warn,
    /// It is too early to tell: the entity is to be checked again later.
    Recheck,
}

/// What a linter says of an entity.
#[derive(Clone, Copy, Debug, PartialEq, Eq, Structural)]
pub enum Lint {
    /// The linter's rule does not apply to the entity.
    Okay,
    /// The linter's rule applies to the entity, which counts as flagged
    /// from now on.
    Warning,
    /// It is too early to tell: the entity stays flagged or unflagged, as
    /// it was, and is to be checked again later.
    Recheck,
}

/// A rule that flags entities of type `T`.
pub trait Warn<T> {
    /// What the rule says of `val` at the time `now`.
    spec fn verdict(&self, val: &T, now: Timestamp) -> Warning;

    /// The sentence that tells why the rule applies to `val` at `now`.
    spec fn message(&self, val: &T, now: Timestamp) -> Seq<char>;

    /// The part of a sentence that tells what the rule flags, fit to follow
    /// a count of entities.
    spec fn description(&self) -> Seq<char>;

    /// Judges `val` at the time `now`.
    fn check(&self, val: &T, now: Timestamp) -> (warning: Warning)
        ensures
            warning == self.verdict(val, now),
    ;

    /// Tells why the rule applies to `val`, in a full sentence. The rule
    /// must apply to `val` at `now`.
    fn format(&self, val: &T, now: Timestamp) -> (text: String)
        requires
            self.verdict(val, now) == Warning::Warn,
        ensures
            text@ == self.message(val, now),
    ;

    /// Tells what the rule flags, in words fit to follow a count of
    /// entities.
    fn summary(&self) -> (text: &str)
        ensures
            text@ == self.description(),
    ;
}

/// The lint that a verdict amounts to.
pub open spec fn lint_of(warning: Warning) -> Lint {
    match warning {
        Warning::Okay => Lint::Okay,
        Warning::Warn => Lint::Warning,
        Warning::Recheck => Lint::Recheck,
    }
}

/// The flagged entities after the entity `id` was judged `lint`: a warning
/// flags it, an all-clear unflags it, and a recheck leaves it as it was.
pub open spec fn judged(warned: Set<u64>, id: u64, lint: Lint) -> Set<u64> {
    match lint {
        Lint::Okay => warned.remove(id),
        Lint::Warning => warned.insert(id),
        Lint::Recheck => warned,
    }
}

/// Something that happens to an entity under a linter.
pub enum Event {
    /// The entity with this number was judged, with this result.
    Judged(u64, Lint),
    /// The entity with this number has left the store.
    Evicted(u64),
}

/// The flagged entities after `event`.
pub open spec fn applied(warned: Set<u64>, event: Event) -> Set<u64> {
    match event {
        Event::Judged(id, lint) => judged(warned, id, lint),
        Event::Evicted(id) => warned.remove(id),
    }
}

/// The flagged entities after `events`, in order, starting with none
/// flagged.
pub open spec fn replayed(events: Seq<Event>) -> Set<u64>
    decreases events.len(),
{
    if events.len() == 0 {
        Set::empty()
    } else {
        applied(replayed(events.drop_last()), events.last())
    }
}

/// Whether `event` unflags the entity `id`: the entity is found clear of
/// the rule, or leaves the store.
pub open spec fn clears(event: Event, id: u64) -> bool {
    event == Event::Judged(id, Lint::Okay) || event == Event::Evicted(id)
}

/// Whether the `i`-th of `events` flags the entity `id` and nothing after it
/// unflags the entity.
pub open spec fn flagged_since(events: Seq<Event>, id: u64, i: int) -> bool {
    &&& 0 <= i < events.len()
    &&& events[i] == Event::Judged(id, Lint::Warning)
    &&& forall|j: int| i < j < events.len() ==> !clears(#[trigger] events[j], id)
}

/// Whether the rule was last found to apply to the entity `id`, and the
/// entity has neither left the store nor been found clear since.
pub open spec fn standing(events: Seq<Event>, id: u64) -> bool {
    exists|i: int| flagged_since(events, id, i)
}

/// The flagged entities are those that the rule was last found to apply to
/// and that have neither left the store nor been found clear since. Their
/// number is what [`Linter::count`] returns.
pub proof fn lemma_replayed_standing(events: Seq<Event>)
    ensures
        replayed(events) == Set::new(|id: u64| standing(events, id)),
        replayed(events).finite(),
    decreases events.len(),
{
    if events.len() == 0 {
        assert(replayed(events) =~= Set::new(|id: u64| standing(events, id)));
    } else {
        let before = events.drop_last();
        let last = events.last();
        lemma_replayed_standing(before);
        assert forall|id: u64| replayed(events).contains(id) <==> standing(events, id) by {
            if standing(events, id) {
                let i = choose|i: int| flagged_since(events, id, i);
                if i < before.len() {
                    assert forall|j: int| i < j < before.len() implies !clears(
                        #[trigger] before[j],
                        id,
                    ) by {
                        assert(before[j] == events[j]);
                    }
                    assert(flagged_since(before, id, i));
                    assert(!clears(events[events.len() - 1], id));
                }
            }
            if replayed(events).contains(id) {
                if last == Event::Judged(id, Lint::Warning) {
                    assert(flagged_since(events, id, events.len() - 1));
                } else {
                    assert(replayed(before).contains(id));
                    let i = choose|i: int| flagged_since(before, id, i);
                    assert forall|j: int| i < j < events.len() implies !clears(
                        #[trigger] events[j],
                        id,
                    ) by {
                        if j < before.len() {
                            assert(before[j] == events[j]);
                        }
                    }
                    assert(flagged_since(events, id, i));
                }
            }
        }
        assert(replayed(events) =~= Set::new(|id: u64| standing(events, id)));
    }
}

/// An entity judged "recheck" stays as it was: flagged if it was flagged,
/// unflagged if it was not, and so does every other entity, however often
/// the judgement is repeated.
pub proof fn lemma_recheck_keeps(events: Seq<Event>, rechecks: Seq<Event>)
    requires
        forall|i: int|
            0 <= i < rechecks.len() ==> (#[trigger] rechecks[i]) matches Event::Judged(
                _,
                Lint::Recheck,
            ),
    ensures
        replayed(events + rechecks) == replayed(events),
    decreases rechecks.len(),
{
    if rechecks.len() == 0 {
        assert(events + rechecks =~= events);
    } else {
        lemma_recheck_keeps(events, rechecks.drop_last());
        assert((events + rechecks).drop_last() =~= events + rechecks.drop_last());
        assert((events + rechecks).last() == rechecks[rechecks.len() - 1]);
    }
}

/// Whether `k` is among `ids` at the position `from` or behind it.
spec fn listed_from(ids: Seq<u64>, from: int, k: u64) -> bool {
    exists|j: int| from <= j < ids.len() && ids[j] == k
}

/// A rule together with the set of entities that it currently flags.
pub struct Linter<W> {
    rule: W,
    warned: HashSet<u64>,
}

impl<W> Linter<W> {
    /// The linter's rule.
    pub closed spec fn rule(&self) -> W {
        self.rule
    }

    /// The numbers of the identifiers of the entities that are flagged.
    pub closed spec fn warned(&self) -> Set<u64> {
        self.warned@
    }

    /// A linter for the rule `warning`, with no entity flagged.
    pub fn new(warning: W) -> (linter: Linter<W>)
        ensures
            linter.rule() == warning,
            linter.warned() == Set::<u64>::empty(),
    {
        Linter { rule: warning, warned: HashSet::new() }
    }

    /// Judges `val` by the linter's rule, at the time `now`. The set of
    /// flagged entities stays as it is: see [`Linter::record`].
    pub fn check<T>(&self, val: &T, now: Timestamp) -> (lint: Lint) where W: Warn<T>
        ensures
            lint == lint_of(self.rule().verdict(val, now)),
    {
        match self.rule.check(val, now) {
            Warning::Okay => Lint::Okay,
            Warning::Warn => Lint::Warning,
            Warning::Recheck => Lint::Recheck,
        }
    }

    /// The number of entities that are flagged.
    pub fn count(&self) -> (n: usize)
        ensures
            n == self.warned().len(),
    {
        self.warned.len()
    }

    /// Tells why the linter's rule applies to `val`. The rule must apply
    /// to `val` at `now`.
    pub fn format<T>(&self, val: &T, now: Timestamp) -> (text: String) where W: Warn<T>
        requires
            self.rule().verdict(val, now) == Warning::Warn,
        ensures
            text@ == self.rule().message(val, now),
    {
        self.rule.format(val, now)
    }

    /// Tells what the linter's rule flags, in words fit to follow the count
    /// of flagged entities.
    pub fn summary<T>(&self) -> (text: &str) where W: Warn<T>
        ensures
            text@ == self.rule().description(),
    {
        self.rule.summary()
    }

    /// Whether the entity `id` is flagged.
    pub fn is_warned(&self, id: Id) -> (flagged: bool)
        ensures
            flagged == self.warned().contains(id.id),
    {
        self.warned.contains(&id.id)
    }

    /// Takes note of what the linter said of the entity `id`.
    pub fn record(&mut self, id: Id, lint: Lint)
        ensures
            final(self).warned() == applied(old(self).warned(), Event::Judged(id.id, lint)),
            final(self).rule() == old(self).rule(),
    {
        match lint {
            Lint::Okay => {
                self.warned.remove(&id.id);
            },
            Lint::Warning => {
                self.warned.insert(id.id);
            },
            Lint::Recheck => {},
        }
    }

    /// Judges the entity `id`, whose snapshot is `val`, and takes note of
    /// the result.
    pub fn lint<T>(&mut self, id: Id, val: &T, now: Timestamp) -> (lint: Lint) where W: Warn<T>
        ensures
            lint == lint_of(old(self).rule().verdict(val, now)),
            final(self).warned() == applied(old(self).warned(), Event::Judged(id.id, lint)),
            final(self).rule() == old(self).rule(),
    {
        let lint = self.check(val, now);
        self.record(id, lint);
        lint
    }

    /// The numbers of the flagged entities, each once, in no particular
    /// order.
    fn flagged(&self) -> (ids: Vec<u64>)
        ensures
            ids@.no_duplicates(),
            forall|k: u64| ids@.contains(k) <==> self.warned().contains(k),
    {
        let mut ids: Vec<u64> = Vec::new();
        let ghost all = spec_hash_keys_iter(&self.warned).remaining();
        proof {
            axiom_spec_hash_keys_iter(&self.warned);
        }
        for k in it: self.warned.iter()
            invariant
                it.seq() == all,
                ids@.len() == it.index(),
                forall|i: int| 0 <= i < ids@.len() ==> ids@[i] == *all[i],
        {
            ids.push(*k);
        }
        proof {
            assert(ids@ =~= all.unref());
            assert forall|k: u64| ids@.contains(k) <==> self.warned().contains(k) by {
                if ids@.contains(k) {
                    assert(all.unref().to_set().contains(k));
                }
                if self.warned().contains(k) {
                    assert(all.unref().to_set().contains(k));
                }
            }
            assert forall|i: int, j: int| 0 <= i < j < ids@.len() implies ids@[i] != ids@[j] by {
                assert(all[i] != all[j]);
            }
        }
        ids
    }

    /// Forgets the entities that `store` no longer holds: they no longer
    /// count as flagged. To be called when entities have been removed from
    /// the store.
    pub fn retain_stored<T>(&mut self, store: &Store<T>)
        ensures
            final(self).warned() == old(self).warned().intersect(store.items().dom()),
            final(self).rule() == old(self).rule(),
    {
        let ids = self.flagged();
        let ghost before = self.warned();
        let mut i: usize = 0;
        proof {
            assert forall|k: u64| #[trigger]
                self.warned().contains(k) <==> before.contains(k) && (store.items().contains_key(k)
                    || listed_from(ids@, 0, k)) by {
                if before.contains(k) {
                    assert(ids@.contains(k));
                    let j = choose|j: int| 0 <= j < ids@.len() && ids@[j] == k;
                    assert(0 <= j < ids@.len() && ids@[j] == k);
                }
            }
        }
        while i < ids.len()
            invariant
                i <= ids@.len(),
                ids@.no_duplicates(),
                forall|k: u64| ids@.contains(k) <==> before.contains(k),
                self.rule() == old(self).rule(),
                forall|k: u64| #[trigger]
                    self.warned().contains(k) <==> before.contains(k) && (
                    store.items().contains_key(k) || listed_from(ids@, i as int, k)),
            decreases ids@.len() - i,
        {
            let k = ids[i];
            let ghost flagged = self.warned();
            if !store.contains(Id { id: k }) {
                self.warned.remove(&k);
            }
            proof {
                assert forall|other: u64| #[trigger]
                    self.warned().contains(other) <==> before.contains(other) && (
                    store.items().contains_key(other) || listed_from(ids@, i + 1, other)) by {
                    assert(flagged.contains(other) <==> before.contains(other) && (
                    store.items().contains_key(other) || listed_from(ids@, i as int, other)));
                    if other == k {
                        assert(ids@.contains(k));
                        if listed_from(ids@, i + 1, other) {
                            let j = choose|j: int| i + 1 <= j < ids@.len() && ids@[j] == other;
                            assert(ids@[j] == ids@[i as int]);
                        }
                    } else {
                        if listed_from(ids@, i as int, other) {
                            let j = choose|j: int| i <= j < ids@.len() && ids@[j] == other;
                            assert(i + 1 <= j < ids@.len() && ids@[j] == other);
                        }
                        if listed_from(ids@, i + 1, other) {
                            let j = choose|j: int| i + 1 <= j < ids@.len() && ids@[j] == other;
                            assert(i <= j < ids@.len() && ids@[j] == other);
                        }
                    }
                }
            }
            i += 1;
        }
        proof {
            assert forall|k: u64|
                self.warned().contains(k) <==> before.intersect(store.items().dom()).contains(
                    k,
                ) by {
                assert(self.warned().contains(k) <==> before.contains(k) && (
                store.items().contains_key(k) || listed_from(ids@, i as int, k)));
            }
            assert(self.warned() =~= before.intersect(store.items().dom()));
        }
    }

    /// Forgets the entity `id`, which has left the store: it no longer
    /// counts as flagged.
    pub fn evict(&mut self, id: Id)
        ensures
            final(self).warned() == applied(old(self).warned(), Event::Evicted(id.id)),
            final(self).rule() == old(self).rule(),
    {
        self.warned.remove(&id.id);
    }
}

/// The words that every message on a task starts with.
pub open spec fn opening() -> Seq<char> {
    "This "@ + "task"@
}

/// A message that holds the [`opening`] words so far.
fn open_message() -> (text: String)
    ensures
        text@ == opening(),
{
    let mut text = "This ".to_owned();
    text.append("task");
    text
}

/// Flags a task that has woken itself for more than a given share of its
/// wakeups.
#[derive(Debug)]
pub struct SelfWakePercent {
    min_percent: u64,
    description: String,
}

impl SelfWakePercent {
    /// The share, in percent, above which a task is flagged by default.
    pub const DEFAULT_PERCENT: u64 = 50;

    /// The share, in percent, above which a task is flagged.
    pub closed spec fn min_percent(&self) -> u64 {
        self.min_percent
    }

    /// What a rule with the threshold `min_percent` flags.
    pub open spec fn summary_of(min_percent: u64) -> Seq<char> {
        "tasks have woken themselves over "@ + decimal(min_percent as nat) + "% of the time"@
    }

    /// A rule that flags the tasks whose own wakeups are more than
    /// `min_percent` percent of all their wakeups.
    pub fn new(min_percent: u64) -> (rule: SelfWakePercent)
        ensures
            rule.min_percent() == min_percent,
            rule.description() == Self::summary_of(min_percent),
    {
        let mut description = "tasks have woken themselves over ".to_owned();
        push_decimal(&mut description, min_percent as u128);
        description.append("% of the time");
        SelfWakePercent { min_percent, description }
    }
}

impl Clone for SelfWakePercent {
    fn clone(&self) -> (rule: SelfWakePercent)
        ensures
            rule.min_percent() == self.min_percent(),
            rule.description() == self.description(),
    {
        SelfWakePercent { min_percent: self.min_percent, description: self.description.clone() }
    }
}

impl Default for SelfWakePercent {
    /// The rule with the threshold [`SelfWakePercent::DEFAULT_PERCENT`].
    fn default() -> (rule: SelfWakePercent)
        ensures
            rule.min_percent() == 50,
            rule.description() == Self::summary_of(50),
    {
        SelfWakePercent::new(Self::DEFAULT_PERCENT)
    }
}

impl Warn<Task> for SelfWakePercent {
    open spec fn verdict(&self, task: &Task, now: Timestamp) -> Warning {
        if task.blocking() {
            Warning::Okay
        } else if percent_of(task.self_wakes, task.wakes) > self.min_percent() {
            Warning::Warn
        } else {
            Warning::Okay
        }
    }

    open spec fn message(&self, task: &Task, now: Timestamp) -> Seq<char> {
        opening() + " has woken itself for more than "@ + decimal(self.min_percent() as nat)
            + "% of its total wakeups ("@ + decimal(percent_of(task.self_wakes, task.wakes))
            + "%)"@
    }

    closed spec fn description(&self) -> Seq<char> {
        self.description@
    }

    fn check(&self, task: &Task, now: Timestamp) -> (warning: Warning) {
        // A blocking task is not woken at all.
        if task.is_blocking() {
            return Warning::Okay;
        }
        let self_wakes = task.self_wake_percent();
        if self_wakes > self.min_percent as u128 {
            Warning::Warn
        } else {
            Warning::Okay
        }
    }

    fn format(&self, task: &Task, now: Timestamp) -> (text: String) {
        let self_wakes = task.self_wake_percent();
        let mut text = open_message();
        text.append(" has woken itself for more than ");
        push_decimal(&mut text, self.min_percent as u128);
        text.append("% of its total wakeups (");
        push_decimal(&mut text, self_wakes);
        text.append("%)");
        text
    }

    fn summary(&self) -> (text: &str) {
        self.description.as_str()
    }
}

/// Flags a task that can never be woken again: it is neither done, nor
/// running, nor woken, and no waker of it is left.
#[derive(Clone, Copy, Debug, Default)]
pub struct LostWaker;

impl Warn<Task> for LostWaker {
    open spec fn verdict(&self, task: &Task, now: Timestamp) -> Warning {
        if task.blocking() {
            Warning::Okay
        } else if !task.completed() && task.wakers() == 0 && !task.running() && !task.awakened() {
            Warning::Warn
        } else {
            Warning::Okay
        }
    }

    open spec fn message(&self, task: &Task, now: Timestamp) -> Seq<char> {
        opening() + " has lost its waker, and will never be woken again."@
    }

    open spec fn description(&self) -> Seq<char> {
        "tasks have lost their wakers"@
    }

    fn check(&self, task: &Task, now: Timestamp) -> (warning: Warning) {
        // A blocking task has no waker to lose.
        if task.is_blocking() {
            return Warning::Okay;
        }
        if !task.is_completed() && task.waker_count() == 0 && !task.is_running()
            && !task.is_awakened() {
            Warning::Warn
        } else {
            Warning::Okay
        }
    }

    fn format(&self, task: &Task, now: Timestamp) -> (text: String) {
        let mut text = open_message();
        text.append(" has lost its waker, and will never be woken again.");
        text
    }

    fn summary(&self) -> (text: &str) {
        "tasks have lost their wakers"
    }
}

/// Flags a task that is in its first poll and has been in it for a given
/// time or longer: it has never yielded to the runtime.
#[derive(Debug)]
pub struct NeverYielded {
    min_duration: TimeSpan,
    description: String,
}

impl NeverYielded {
    /// The time after which a task is flagged by default, in nanoseconds:
    /// one second.
    pub const DEFAULT_DURATION_NANOS: u128 = 1_000_000_000;

    /// The time after which a task is flagged.
    pub closed spec fn min_duration(&self) -> TimeSpan {
        self.min_duration
    }

    /// What a rule with the threshold `min_duration` flags.
    pub open spec fn summary_of(min_duration: TimeSpan) -> Seq<char> {
        "tasks have never yielded (threshold "@ + decimal(
            (min_duration.nanos / NANOS_PER_MILLI) as nat,
        ) + "ms)"@
    }

    /// A rule that flags the tasks that have been in their first poll for
    /// `min_duration` or longer.
    pub fn new(min_duration: TimeSpan) -> (rule: NeverYielded)
        ensures
            rule.min_duration() == min_duration,
            rule.description() == Self::summary_of(min_duration),
    {
        let mut description = "tasks have never yielded (threshold ".to_owned();
        push_decimal(&mut description, min_duration.as_millis());
        description.append("ms)");
        NeverYielded { min_duration, description }
    }
}

impl Clone for NeverYielded {
    fn clone(&self) -> (rule: NeverYielded)
        ensures
            rule.min_duration() == self.min_duration(),
            rule.description() == self.description(),
    {
        NeverYielded { min_duration: self.min_duration, description: self.description.clone() }
    }
}

impl Default for NeverYielded {
    /// The rule with the threshold [`NeverYielded::DEFAULT_DURATION_NANOS`].
    fn default() -> (rule: NeverYielded)
        ensures
            rule.min_duration().nanos == 1_000_000_000,
            rule.description() == Self::summary_of(TimeSpan { nanos: 1_000_000_000 }),
    {
        NeverYielded::new(TimeSpan::from_nanos(Self::DEFAULT_DURATION_NANOS))
    }
}

impl Warn<Task> for NeverYielded {
    open spec fn verdict(&self, task: &Task, now: Timestamp) -> Warning {
        if task.blocking() {
            Warning::Okay
        } else if task.state_of() != TaskState::Running {
            Warning::Okay
        } else if task.polls > 1 {
            Warning::Okay
        } else if task.busy_nanos(now) >= self.min_duration().nanos {
            Warning::Warn
        } else {
            Warning::Recheck
        }
    }

    open spec fn message(&self, task: &Task, now: Timestamp) -> Seq<char> {
        opening() + " has never yielded ("@ + span_debug(task.busy_nanos(now)) + ")"@
    }

    closed spec fn description(&self) -> Seq<char> {
        self.description@
    }

    fn check(&self, task: &Task, now: Timestamp) -> (warning: Warning) {
        // A blocking task does not yield.
        if task.is_blocking() {
            return Warning::Okay;
        }
        // A task that waits to run is not holding the runtime up.
        match task.state() {
            TaskState::Running => {},
            _ => {
                return Warning::Okay;
            },
        }
        if task.total_polls() > 1 {
            return Warning::Okay;
        }
        // A task that has only just started may still yield soon.
        if task.busy(now).nanos >= self.min_duration.nanos {
            Warning::Warn
        } else {
            Warning::Recheck
        }
    }

    fn format(&self, task: &Task, now: Timestamp) -> (text: String) {
        let busy = task.busy(now);
        let mut text = open_message();
        text.append(" has never yielded (");
        let span = busy.debug();
        text.append(span.as_str());
        text.append(")");
        text
    }

    fn summary(&self) -> (text: &str) {
        self.description.as_str()
    }
}

/// Flags a task whose future the runtime has boxed because of its size.
#[derive(Clone, Copy, Debug, Default)]
pub struct AutoBoxedFuture;

impl Warn<Task> for AutoBoxedFuture {
    open spec fn verdict(&self, task: &Task, now: Timestamp) -> Warning {
        match (task.size_bytes, task.original_size_bytes) {
            (Some(size), Some(original)) => if original != size {
                Warning::Warn
            } else {
                Warning::Okay
            },
            _ => Warning::Okay,
        }
    }

    open spec fn message(&self, task: &Task, now: Timestamp) -> Seq<char> {
        opening() + "'s future was auto-boxed by the runtime when spawning, due to its size (originally "@
            + decimal(task.original_size_bytes.unwrap() as nat) + " bytes, boxed size "@ + decimal(
            task.size_bytes.unwrap() as nat,
        ) + " bytes)"@
    }

    open spec fn description(&self) -> Seq<char> {
        "tasks have been boxed by the runtime due to their size"@
    }

    fn check(&self, task: &Task, now: Timestamp) -> (warning: Warning) {
        match (task.size_bytes(), task.original_size_bytes()) {
            (Some(size), Some(original)) => if original != size {
                Warning::Warn
            } else {
                Warning::Okay
            },
            _ => Warning::Okay,
        }
    }

    fn format(&self, task: &Task, now: Timestamp) -> (text: String) {
        let original_size = task.original_size_bytes().unwrap();
        let boxed_size = task.size_bytes().unwrap();
        let mut text = open_message();
        text.append("'s future was auto-boxed by the runtime when spawning, due to its size (originally ");
        push_decimal(&mut text, original_size as u128);
        text.append(" bytes, boxed size ");
        push_decimal(&mut text, boxed_size as u128);
        text.append(" bytes)");
        text
    }

    fn summary(&self) -> (text: &str) {
        "tasks have been boxed by the runtime due to their size"
    }
}

/// Flags a task whose future is large.
#[derive(Debug)]
pub struct LargeFuture {
    min_size: usize,
    description: String,
}

impl LargeFuture {
    /// The size, in bytes, from which a task is flagged by default.
    pub const DEFAULT_MIN_SIZE_BYTES: usize = 1024;

    /// The size, in bytes, from which a task is flagged.
    pub closed spec fn min_size(&self) -> usize {
        self.min_size
    }

    /// What a rule with the threshold `min_size` flags.
    pub open spec fn summary_of(min_size: usize) -> Seq<char> {
        "tasks are "@ + decimal(min_size as nat) + " bytes or larger"@
    }

    /// A rule that flags the tasks whose future takes `min_size` bytes or
    /// more.
    pub fn new(min_size: usize) -> (rule: LargeFuture)
        ensures
            rule.min_size() == min_size,
            rule.description() == Self::summary_of(min_size),
    {
        let mut description = "tasks are ".to_owned();
        push_decimal(&mut description, min_size as u128);
        description.append(" bytes or larger");
        LargeFuture { min_size, description }
    }
}

impl Clone for LargeFuture {
    fn clone(&self) -> (rule: LargeFuture)
        ensures
            rule.min_size() == self.min_size(),
            rule.description() == self.description(),
    {
        LargeFuture { min_size: self.min_size, description: self.description.clone() }
    }
}

impl Default for LargeFuture {
    /// The rule with the threshold [`LargeFuture::DEFAULT_MIN_SIZE_BYTES`].
    fn default() -> (rule: LargeFuture)
        ensures
            rule.min_size() == 1024,
            rule.description() == Self::summary_of(1024),
    {
        LargeFuture::new(Self::DEFAULT_MIN_SIZE_BYTES)
    }
}

impl Warn<Task> for LargeFuture {
    open spec fn verdict(&self, task: &Task, now: Timestamp) -> Warning {
        if task.blocking() {
            Warning::Okay
        } else {
            match task.size_bytes {
                Some(size) => if size >= self.min_size() {
                    Warning::Warn
                } else {
                    Warning::Okay
                },
                None => Warning::Okay,
            }
        }
    }

    open spec fn message(&self, task: &Task, now: Timestamp) -> Seq<char> {
        opening() + " occupies a large amount of stack space ("@ + decimal(
            task.size_bytes.unwrap() as nat,
        ) + " bytes)"@
    }

    closed spec fn description(&self) -> Seq<char> {
        self.description@
    }

    fn check(&self, task: &Task, now: Timestamp) -> (warning: Warning) {
        // A blocking task has no future to measure.
        if task.is_blocking() {
            return Warning::Okay;
        }
        match task.size_bytes() {
            Some(size) => if size >= self.min_size {
                Warning::Warn
            } else {
                Warning::Okay
            },
            None => Warning::Okay,
        }
    }

    fn format(&self, task: &Task, now: Timestamp) -> (text: String) {
        let size = task.size_bytes().unwrap();
        let mut text = open_message();
        text.append(" occupies a large amount of stack space (");
        push_decimal(&mut text, size as u128);
        text.append(" bytes)");
        text
    }

    fn summary(&self) -> (text: &str) {
        self.description.as_str()
    }
}

} // verus!
