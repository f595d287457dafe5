use tokio_console::state::store::{Id, Store, Visibility};
use tokio_console::state::tasks::{Task, TaskKind};
use tokio_console::time::{TimeSpan, Timestamp};
use tokio_console::warnings::{
    AutoBoxedFuture, LargeFuture, Lint, Linter, LostWaker, NeverYielded, SelfWakePercent, Warn,
    Warning,
};

fn at(nanos: u64) -> Timestamp {
    Timestamp::from_nanos(nanos)
}

/// A message on a task: every one of them starts with the same two words.
fn message(rest: &str) -> String {
    format!("{} {}{}", "This", "task", rest)
}

fn id(n: u64) -> Id {
    Id::from_u64(n)
}

fn task() -> Task {
    Task {
        id: Id::from_u64(1),
        kind: TaskKind::Spawn,
        created_at: at(0),
        total: None,
        busy: 0,
        last_poll_started: None,
        last_poll_ended: None,
        last_wake: None,
        polls: 0,
        wakes: 0,
        waker_clones: 1,
        waker_drops: 0,
        self_wakes: 0,
        size_bytes: None,
        original_size_bytes: None,
    }
}

fn self_waking(self_wakes: u64, wakes: u64) -> Task {
    let mut t = task();
    t.self_wakes = self_wakes;
    t.wakes = wakes;
    t
}

fn first_poll_since(started: u64) -> Task {
    let mut t = task();
    t.polls = 1;
    t.last_poll_started = Some(at(started));
    t
}

#[test]
fn self_wake_rule_flags_above_threshold_only() {
    let rule = SelfWakePercent::new(50);
    assert_eq!(rule.check(&self_waking(86, 100), at(0)), Warning::Warn);
    assert_eq!(rule.check(&self_waking(51, 100), at(0)), Warning::Warn);
    assert_eq!(rule.check(&self_waking(50, 100), at(0)), Warning::Okay);
    assert_eq!(rule.check(&self_waking(0, 100), at(0)), Warning::Okay);
    assert_eq!(rule.check(&self_waking(0, 0), at(0)), Warning::Okay);
}

#[test]
fn self_wake_rule_passes_blocking_tasks() {
    let rule = SelfWakePercent::new(50);
    let mut t = self_waking(86, 100);
    t.kind = TaskKind::Blocking;
    assert_eq!(rule.check(&t, at(0)), Warning::Okay);
}

#[test]
fn self_wake_rule_texts() {
    let rule = SelfWakePercent::new(50);
    assert_eq!(rule.summary(), "tasks have woken themselves over 50% of the time");
    assert_eq!(
        rule.format(&self_waking(86, 100), at(0)),
        message(" has woken itself for more than 50% of its total wakeups (86%)")
    );
    let strict = SelfWakePercent::new(0);
    assert_eq!(strict.summary(), "tasks have woken themselves over 0% of the time");
    assert_eq!(
        strict.format(&self_waking(1, 3), at(0)),
        message(" has woken itself for more than 0% of its total wakeups (33%)")
    );
}

#[test]
fn self_wake_rule_default_and_clone() {
    assert_eq!(SelfWakePercent::DEFAULT_PERCENT, 50);
    let rule = SelfWakePercent::default();
    assert_eq!(rule.summary(), "tasks have woken themselves over 50% of the time");
    let copy = rule.clone();
    assert_eq!(copy.summary(), rule.summary());
    assert_eq!(copy.check(&self_waking(51, 100), at(0)), Warning::Warn);
    assert_eq!(copy.check(&self_waking(50, 100), at(0)), Warning::Okay);
}

#[test]
fn lost_waker_rule() {
    let rule = LostWaker;
    let mut t = task();
    t.waker_clones = 0;
    assert_eq!(rule.check(&t, at(0)), Warning::Warn);
    // a waker is left
    t.waker_clones = 1;
    assert_eq!(rule.check(&t, at(0)), Warning::Okay);
    t.waker_drops = 1;
    assert_eq!(rule.check(&t, at(0)), Warning::Warn);
    // running
    t.last_poll_started = Some(at(5));
    assert_eq!(rule.check(&t, at(0)), Warning::Okay);
    t.last_poll_ended = Some(at(6));
    assert_eq!(rule.check(&t, at(0)), Warning::Warn);
    // woken
    t.last_wake = Some(at(7));
    assert_eq!(rule.check(&t, at(0)), Warning::Okay);
    t.last_wake = None;
    // completed
    t.total = Some(TimeSpan::from_nanos(10));
    assert_eq!(rule.check(&t, at(0)), Warning::Okay);
    t.total = None;
    // blocking
    t.kind = TaskKind::Blocking;
    assert_eq!(rule.check(&t, at(0)), Warning::Okay);
}

#[test]
fn lost_waker_texts() {
    let rule = LostWaker;
    let mut t = task();
    t.waker_clones = 0;
    assert_eq!(rule.summary(), "tasks have lost their wakers");
    assert_eq!(
        rule.format(&t, at(0)),
        message(" has lost its waker, and will never be woken again.")
    );
}

#[test]
fn never_yielded_rule() {
    let rule = NeverYielded::new(TimeSpan::from_secs(1));
    let t = first_poll_since(1_000);
    assert_eq!(rule.check(&t, at(1_000)), Warning::Recheck);
    assert_eq!(rule.check(&t, at(1_000_000_999)), Warning::Recheck);
    assert_eq!(rule.check(&t, at(1_000_001_000)), Warning::Warn);
    assert_eq!(rule.check(&t, at(5_000_000_000)), Warning::Warn);
    // the clock went backwards
    assert_eq!(rule.check(&t, at(0)), Warning::Recheck);
}

#[test]
fn never_yielded_counts_accumulated_busy_time() {
    let rule = NeverYielded::new(TimeSpan::from_secs(1));
    let mut t = first_poll_since(0);
    t.busy = 999_999_999;
    assert_eq!(rule.check(&t, at(0)), Warning::Recheck);
    assert_eq!(rule.check(&t, at(1)), Warning::Warn);
}

#[test]
fn never_yielded_passes_tasks_that_are_not_in_their_first_poll() {
    let rule = NeverYielded::new(TimeSpan::from_secs(1));
    let late = at(10_000_000_000);
    let mut second = first_poll_since(0);
    second.polls = 2;
    assert_eq!(rule.check(&second, late), Warning::Okay);
    let mut ended = first_poll_since(0);
    ended.last_poll_ended = Some(at(5));
    assert_eq!(rule.check(&ended, late), Warning::Okay);
    let mut completed = first_poll_since(0);
    completed.total = Some(TimeSpan::from_secs(20));
    assert_eq!(rule.check(&completed, late), Warning::Okay);
    let mut blocking = first_poll_since(0);
    blocking.kind = TaskKind::Blocking;
    assert_eq!(rule.check(&blocking, late), Warning::Okay);
    assert_eq!(rule.check(&task(), late), Warning::Okay);
    let mut unpolled = first_poll_since(0);
    unpolled.polls = 0;
    assert_eq!(rule.check(&unpolled, late), Warning::Warn);
}

#[test]
fn never_yielded_texts() {
    let rule = NeverYielded::new(TimeSpan::from_secs(1));
    assert_eq!(rule.summary(), "tasks have never yielded (threshold 1000ms)");
    let t = first_poll_since(0);
    assert_eq!(rule.format(&t, at(2_000_000_000)), message(" has never yielded (2s)"));
    assert_eq!(rule.format(&t, at(1_500_000_000)), message(" has never yielded (1.5s)"));
    let quick = NeverYielded::new(TimeSpan::from_nanos(1_999_999));
    assert_eq!(quick.summary(), "tasks have never yielded (threshold 1ms)");
    assert_eq!(quick.format(&t, at(20_000_000)), message(" has never yielded (20ms)"));
}

#[test]
fn never_yielded_default_and_clone() {
    assert_eq!(NeverYielded::DEFAULT_DURATION_NANOS, 1_000_000_000);
    let rule = NeverYielded::default();
    assert_eq!(rule.summary(), "tasks have never yielded (threshold 1000ms)");
    let copy = rule.clone();
    assert_eq!(copy.summary(), rule.summary());
    let t = first_poll_since(0);
    assert_eq!(copy.check(&t, at(999_999_999)), Warning::Recheck);
    assert_eq!(copy.check(&t, at(1_000_000_000)), Warning::Warn);
}

#[test]
fn auto_boxed_rule() {
    let rule = AutoBoxedFuture;
    let mut t = task();
    assert_eq!(rule.check(&t, at(0)), Warning::Okay);
    t.size_bytes = Some(8);
    assert_eq!(rule.check(&t, at(0)), Warning::Okay);
    t.original_size_bytes = Some(8);
    assert_eq!(rule.check(&t, at(0)), Warning::Okay);
    t.original_size_bytes = Some(4096);
    assert_eq!(rule.check(&t, at(0)), Warning::Warn);
    t.size_bytes = None;
    assert_eq!(rule.check(&t, at(0)), Warning::Okay);
    // blocking tasks are judged like any other
    t.size_bytes = Some(8);
    t.kind = TaskKind::Blocking;
    assert_eq!(rule.check(&t, at(0)), Warning::Warn);
}

#[test]
fn auto_boxed_texts() {
    let rule = AutoBoxedFuture;
    let mut t = task();
    t.size_bytes = Some(8);
    t.original_size_bytes = Some(4096);
    assert_eq!(rule.summary(), "tasks have been boxed by the runtime due to their size");
    assert_eq!(
        rule.format(&t, at(0)),
        message("'s future was auto-boxed by the runtime when spawning, due to its size (originally 4096 bytes, boxed size 8 bytes)")
    );
}

#[test]
fn large_future_rule() {
    let rule = LargeFuture::new(1024);
    let mut t = task();
    assert_eq!(rule.check(&t, at(0)), Warning::Okay);
    t.size_bytes = Some(1023);
    assert_eq!(rule.check(&t, at(0)), Warning::Okay);
    t.size_bytes = Some(1024);
    assert_eq!(rule.check(&t, at(0)), Warning::Warn);
    t.size_bytes = Some(usize::MAX);
    assert_eq!(rule.check(&t, at(0)), Warning::Warn);
    t.kind = TaskKind::Blocking;
    assert_eq!(rule.check(&t, at(0)), Warning::Okay);
}

#[test]
fn large_future_texts() {
    let rule = LargeFuture::new(1024);
    let mut t = task();
    t.size_bytes = Some(2048);
    assert_eq!(rule.summary(), "tasks are 1024 bytes or larger");
    assert_eq!(
        rule.format(&t, at(0)),
        message(" occupies a large amount of stack space (2048 bytes)")
    );
}

#[test]
fn large_future_default_and_clone() {
    assert_eq!(LargeFuture::DEFAULT_MIN_SIZE_BYTES, 1024);
    let rule = LargeFuture::default();
    assert_eq!(rule.summary(), "tasks are 1024 bytes or larger");
    let copy = rule.clone();
    let mut t = task();
    t.size_bytes = Some(1024);
    assert_eq!(copy.check(&t, at(0)), Warning::Warn);
    assert_eq!(copy.summary(), "tasks are 1024 bytes or larger");
}

#[test]
fn linter_check_maps_verdicts() {
    let linter = Linter::new(NeverYielded::new(TimeSpan::from_secs(1)));
    let t = first_poll_since(0);
    assert_eq!(linter.check(&t, at(1)), Lint::Recheck);
    assert_eq!(linter.check(&t, at(1_000_000_000)), Lint::Warning);
    assert_eq!(linter.check(&task(), at(1)), Lint::Okay);
    // checking alone flags nothing
    assert_eq!(linter.count(), 0);
}

#[test]
fn linter_texts_are_those_of_the_rule() {
    let linter = Linter::new(SelfWakePercent::new(50));
    assert_eq!(
        linter.summary::<Task>(),
        "tasks have woken themselves over 50% of the time"
    );
    assert_eq!(
        linter.format(&self_waking(86, 100), at(0)),
        message(" has woken itself for more than 50% of its total wakeups (86%)")
    );
}

#[test]
fn self_wake_scenario_counts_and_evicts() {
    let mut linter = Linter::new(SelfWakePercent::new(50));
    assert_eq!(linter.count(), 0);
    let t = self_waking(86, 100);
    assert_eq!(linter.lint(id(1), &t, at(0)), Lint::Warning);
    assert_eq!(linter.count(), 1);
    assert!(linter.is_warned(id(1)));
    assert!(linter.format(&t, at(0)).contains("86%"));
    linter.evict(id(1));
    assert_eq!(linter.count(), 0);
    assert!(!linter.is_warned(id(1)));
}

#[test]
fn count_is_the_number_of_flagged_entities() {
    let mut linter = Linter::new(SelfWakePercent::new(50));
    for n in 1..=10u64 {
        let t = self_waking(n * 10, 100);
        linter.lint(id(n), &t, at(0));
    }
    // 60%, 70%, 80%, 90% and 100% are above the threshold
    assert_eq!(linter.count(), 5);
    // judging an entity again does not count it twice
    linter.lint(id(10), &self_waking(100, 100), at(0));
    assert_eq!(linter.count(), 5);
    // an entity found clear no longer counts
    linter.lint(id(10), &self_waking(10, 100), at(0));
    assert_eq!(linter.count(), 4);
    // an entity that is evicted no longer counts
    linter.evict(id(9));
    assert_eq!(linter.count(), 3);
    // evicting an entity that is not flagged changes nothing
    linter.evict(id(1));
    linter.evict(id(9));
    assert_eq!(linter.count(), 3);
    for n in 1..=10u64 {
        assert_eq!(linter.is_warned(id(n)), (6..=8).contains(&n));
    }
}

#[test]
fn recheck_keeps_the_prior_status() {
    let mut linter = Linter::new(NeverYielded::new(TimeSpan::from_secs(1)));
    let t = first_poll_since(0);
    // unflagged stays unflagged
    assert_eq!(linter.lint(id(1), &t, at(10)), Lint::Recheck);
    assert!(!linter.is_warned(id(1)));
    assert_eq!(linter.count(), 0);
    // flagged stays flagged
    assert_eq!(linter.lint(id(1), &t, at(2_000_000_000)), Lint::Warning);
    assert!(linter.is_warned(id(1)));
    assert_eq!(linter.lint(id(1), &t, at(10)), Lint::Recheck);
    assert_eq!(linter.lint(id(1), &t, at(20)), Lint::Recheck);
    assert!(linter.is_warned(id(1)));
    assert_eq!(linter.count(), 1);
    // until the next verdict that decides
    let mut yielded = t;
    yielded.polls = 2;
    assert_eq!(linter.lint(id(1), &yielded, at(30)), Lint::Okay);
    assert!(!linter.is_warned(id(1)));
    assert_eq!(linter.count(), 0);
}

#[test]
fn record_takes_note_of_a_lint() {
    let mut linter = Linter::new(LostWaker);
    linter.record(id(3), Lint::Warning);
    linter.record(id(4), Lint::Recheck);
    linter.record(id(5), Lint::Okay);
    assert_eq!(linter.count(), 1);
    assert!(linter.is_warned(id(3)));
    linter.record(id(3), Lint::Recheck);
    assert!(linter.is_warned(id(3)));
    linter.record(id(3), Lint::Okay);
    assert_eq!(linter.count(), 0);
}

#[test]
fn evicting_from_the_store_unflags() {
    let mut store: Store<Task> = Store::new();
    let mut linter = Linter::new(SelfWakePercent::new(50));
    let a = store.id_for(100);
    store.insert(Visibility::Show, a, self_waking(86, 100));
    let b = store.id_for(101);
    store.insert(Visibility::Show, b, self_waking(90, 100));
    let c = store.id_for(102);
    store.insert(Visibility::Show, c, self_waking(10, 100));
    for id in store.stored() {
        let task = store.get(id).unwrap();
        linter.lint(id, task, at(0));
    }
    assert_eq!(linter.count(), 2);
    assert!(linter.format(store.get(a).unwrap(), at(0)).contains("86%"));
    // the store evicts the first task, and the linter follows
    store.retain(|id: Id, _task: &Task| id != a);
    linter.retain_stored(&store);
    assert_eq!(linter.count(), 1);
    assert!(!linter.is_warned(a));
    assert!(linter.is_warned(b));
    // nothing left to forget
    linter.retain_stored(&store);
    assert_eq!(linter.count(), 1);
    // the store evicts everything
    store.retain(|_id: Id, _task: &Task| false);
    linter.retain_stored(&store);
    assert_eq!(linter.count(), 0);
}

#[test]
fn scenario_self_wake_rule_with_a_store() {
    let mut store: Store<Task> = Store::new();
    let mut linter = Linter::new(SelfWakePercent::new(50));
    let id = store.id_for(7);
    store.insert(Visibility::Show, id, self_waking(86, 100));
    let task = store.get(id).unwrap();
    assert_eq!(linter.lint(id, task, at(0)), Lint::Warning);
    assert_eq!(linter.count(), 1);
    assert!(linter.format(task, at(0)).contains("86%"));
    store.retain(|other: Id, _task: &Task| other != id);
    linter.retain_stored(&store);
    assert_eq!(linter.count(), 0);
}
