use std::collections::HashMap;
use tokio_console::intern::Strings;
use tokio_console::state::async_ops::AsyncOpsState;
use tokio_console::state::sort::SortBy;
use tokio_console::state::store::{Id, Ids, Visibility};
use tokio_console::time::{TimeSpan, Timestamp};
use tokio_console::wire::{AsyncOpUpdate, Metadata, NewAsyncOp, PollStats, Stats};

fn at(nanos: u64) -> Timestamp {
    Timestamp::from_nanos(nanos)
}

fn ids(numbers: &[u64]) -> Vec<Id> {
    numbers.iter().map(|n| Id::from_u64(*n)).collect()
}

struct Op {
    remote: u64,
    source: &'static str,
    task: Option<u64>,
    created_at: u64,
    dropped_at: Option<u64>,
    busy: u64,
    polls: u64,
}

fn state(ops: &[Op]) -> AsyncOpsState {
    let mut metas = HashMap::new();
    metas.insert(3, Metadata { id: 3, field_names: Vec::new() });
    let mut new_async_ops = Vec::new();
    let mut stats_update = Vec::new();
    for op in ops {
        new_async_ops.push(NewAsyncOp {
            id: Some(op.remote),
            metadata: Some(3),
            source: op.source.to_string(),
            parent_async_op_id: None,
            resource_id: Some(1),
        });
        stats_update.push((
            op.remote,
            Stats {
                created_at: Some(at(op.created_at)),
                dropped_at: op.dropped_at.map(at),
                task_id: op.task,
                poll_stats: Some(PollStats {
                    polls: op.polls,
                    last_poll_started: None,
                    last_poll_ended: None,
                    busy_time: Some(op.busy),
                }),
                attributes: Vec::new(),
            },
        ));
    }
    let mut state = AsyncOpsState::new();
    state.update_async_ops(
        &mut Strings::new(),
        &metas,
        AsyncOpUpdate { new_async_ops, stats_update, dropped_events: 0 },
        &mut Ids::new(),
        &mut Ids::new(),
        Visibility::Show,
    );
    state
}

/// Four operations, with the local identifiers 1 to 4.
fn sample() -> AsyncOpsState {
    state(&[
        Op { remote: 40, source: "write", task: Some(9), created_at: 100, dropped_at: None, busy: 30, polls: 2 },
        Op { remote: 30, source: "accept", task: None, created_at: 400, dropped_at: Some(500), busy: 90, polls: 7 },
        Op { remote: 20, source: "read", task: Some(8), created_at: 300, dropped_at: None, busy: 10, polls: 2 },
        Op { remote: 10, source: "read", task: Some(9), created_at: 200, dropped_at: Some(900), busy: 50, polls: 0 },
    ])
}

fn sorted(by: SortBy, now: u64, list: &[u64], state: &AsyncOpsState) -> Vec<u64> {
    let mut list = ids(list);
    by.sort(at(now), &mut list, state);
    list.into_iter().map(|id| id.as_u64()).collect()
}

#[test]
fn sort_by_id() {
    let state = sample();
    assert_eq!(sorted(SortBy::Aid, 1_000, &[3, 1, 4, 2], &state), vec![1, 2, 3, 4]);
    assert_eq!(sorted(SortBy::Aid, 1_000, &[4, 3, 2, 1], &state), vec![1, 2, 3, 4]);
    assert_eq!(sorted(SortBy::Aid, 1_000, &[1, 2, 3, 4], &state), vec![1, 2, 3, 4]);
}

#[test]
fn sort_by_task_puts_unknown_task_first() {
    let state = sample();
    // tasks: 1 -> task 1, 2 -> none, 3 -> task 2, 4 -> task 1
    assert_eq!(sorted(SortBy::Task, 1_000, &[1, 2, 3, 4], &state), vec![2, 1, 4, 3]);
    assert_eq!(sorted(SortBy::Task, 1_000, &[4, 3, 2, 1], &state), vec![2, 4, 1, 3]);
}

#[test]
fn sort_by_source() {
    let state = sample();
    assert_eq!(sorted(SortBy::Source, 1_000, &[1, 2, 3, 4], &state), vec![2, 3, 4, 1]);
    assert_eq!(sorted(SortBy::Source, 1_000, &[1, 2, 4, 3], &state), vec![2, 4, 3, 1]);
}

#[test]
fn sort_by_total_at_the_query_instant() {
    let state = sample();
    // at 1000: totals 900, 100 (fixed), 700, 700 (fixed)
    assert_eq!(sorted(SortBy::Total, 1_000, &[1, 2, 3, 4], &state), vec![2, 3, 4, 1]);
    // at 350: totals 250, 100, 50, 700
    assert_eq!(sorted(SortBy::Total, 350, &[1, 2, 3, 4], &state), vec![3, 2, 1, 4]);
}

#[test]
fn sort_by_busy() {
    let state = sample();
    assert_eq!(sorted(SortBy::Busy, 1_000, &[1, 2, 3, 4], &state), vec![3, 1, 4, 2]);
}

#[test]
fn sort_by_idle() {
    let state = sample();
    // at 1000: idle 870, 10 (fixed), 690, 650 (fixed)
    assert_eq!(sorted(SortBy::Idle, 1_000, &[1, 2, 3, 4], &state), vec![2, 4, 3, 1]);
}

#[test]
fn sort_by_polls_keeps_equal_entries_in_order() {
    let state = sample();
    // polls: 2, 7, 2, 0
    assert_eq!(sorted(SortBy::Polls, 1_000, &[1, 2, 3, 4], &state), vec![4, 1, 3, 2]);
    assert_eq!(sorted(SortBy::Polls, 1_000, &[3, 2, 1, 4], &state), vec![4, 3, 1, 2]);
}

#[test]
fn sort_puts_evicted_entries_last() {
    let mut state = sample();
    // evicts the operations 2 and 4, which were dropped
    state.retain_active(at(10_000), TimeSpan::zero());
    for by in [
        SortBy::Aid,
        SortBy::Task,
        SortBy::Source,
        SortBy::Total,
        SortBy::Busy,
        SortBy::Idle,
        SortBy::Polls,
    ] {
        let out = sorted(by, 1_000, &[4, 3, 2, 1], &state);
        assert_eq!(out[2..], [4, 2]);
        let out = sorted(by, 1_000, &[2, 99, 1, 4], &state);
        assert_eq!(out, vec![1, 2, 99, 4]);
    }
    assert_eq!(sorted(SortBy::Aid, 1_000, &[4, 3, 2, 1], &state), vec![1, 3, 4, 2]);
}

#[test]
fn sort_keeps_repeated_entries() {
    let state = sample();
    assert_eq!(sorted(SortBy::Aid, 0, &[2, 1, 2, 1, 2], &state), vec![1, 1, 2, 2, 2]);
}

#[test]
fn sort_of_short_lists() {
    let state = sample();
    assert_eq!(sorted(SortBy::Busy, 0, &[], &state), Vec::<u64>::new());
    assert_eq!(sorted(SortBy::Busy, 0, &[3], &state), vec![3]);
    assert_eq!(sorted(SortBy::Busy, 0, &[2, 3], &state), vec![3, 2]);
}

#[test]
fn sort_agrees_with_std_on_many_operations() {
    let mut ops = Vec::new();
    let mut seed: u64 = 12345;
    for remote in 0..200u64 {
        seed = seed.wrapping_mul(6364136223846793005).wrapping_add(1442695040888963407);
        ops.push(Op {
            remote,
            source: "s",
            task: None,
            created_at: 0,
            dropped_at: None,
            busy: 0,
            polls: (seed >> 33) % 20,
        });
    }
    let state = state(&ops);
    let list: Vec<u64> = (1..=200).rev().collect();
    let out = sorted(SortBy::Polls, 0, &list, &state);
    let mut expected: Vec<(u64, usize, u64)> = list
        .iter()
        .enumerate()
        .map(|(position, id)| (ops[(*id - 1) as usize].polls, position, *id))
        .collect();
    expected.sort();
    let expected: Vec<u64> = expected.into_iter().map(|(_, _, id)| id).collect();
    assert_eq!(out, expected);
}

#[test]
fn columns_have_numbers() {
    let all = [
        SortBy::Aid,
        SortBy::Task,
        SortBy::Source,
        SortBy::Total,
        SortBy::Busy,
        SortBy::Idle,
        SortBy::Polls,
    ];
    for (idx, by) in all.iter().enumerate() {
        assert_eq!(by.as_column(), idx);
        assert_eq!(SortBy::try_from(idx), Ok(*by));
    }
    assert_eq!(SortBy::try_from(7), Err(()));
    assert_eq!(SortBy::try_from(usize::MAX), Err(()));
    assert_eq!(SortBy::default(), SortBy::Aid);
}
