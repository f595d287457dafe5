//! The order in which a list of async operations is shown.

use crate::state::async_ops::{AsyncOp, AsyncOpView, AsyncOpsState};
use crate::state::store::Id;
use crate::text::{lemma_bytes_le_total, lemma_bytes_le_transitive, str_le, text_le};
use crate::time::Timestamp;
use vstd::prelude::*;
use vstd::std_specs::convert::TryFromSpecImpl;

verus! {

/// The column by which a list of async operations is sorted.
#[derive(Debug, Clone, Copy, PartialEq, Eq, Structural)]
pub enum SortBy {
    /// The local identifier of the operation.
    Aid,
    /// The local identifier of the task that runs the operation.
    Task,
    /// The place in the source that the operation comes from.
    Source,
    /// The time the operation has existed.
    Total,
    /// The time the operation has been polled.
    Busy,
    /// The time the operation has waited.
    Idle,
    /// The number of polls of the operation.
    Polls,
}

/// Whether a task comes before another or equals it: an unknown task comes
/// first, and known tasks are in the order of their identifiers.
pub open spec fn task_le(a: Option<Id>, b: Option<Id>) -> bool {
    match (a, b) {
        (None, _) => true,
        (Some(_), None) => false,
        (Some(a), Some(b)) => a.id <= b.id,
    }
}

/// The operation stored under `id`, if there is one.
pub open spec fn slot(ops: Map<u64, AsyncOpView>, id: Id) -> Option<AsyncOpView> {
    if ops.contains_key(id.id) {
        Some(ops[id.id])
    } else {
        None
    }
}

impl SortBy {
    /// Whether the operation `a` comes before the operation `b` or equals
    /// it in this column, at the time `now`.
    pub open spec fn le(self, a: AsyncOpView, b: AsyncOpView, now: Timestamp) -> bool {
        match self {
            SortBy::Aid => a.id.id <= b.id.id,
            SortBy::Task => task_le(a.stats.task_id, b.stats.task_id),
            SortBy::Source => text_le(a.source, b.source),
            SortBy::Total => a.stats.total_at(now) <= b.stats.total_at(now),
            SortBy::Busy => a.stats.busy_at(now) <= b.stats.busy_at(now),
            SortBy::Idle => a.stats.idle_at(now) <= b.stats.idle_at(now),
            SortBy::Polls => a.stats.polls <= b.stats.polls,
        }
    }

    /// Whether the entry `a` of a list comes before the entry `b` or equals
    /// it: an entry whose operation is no longer stored comes after every
    /// operation that is, and equals every other such entry.
    pub open spec fn slot_le(
        self,
        a: Option<AsyncOpView>,
        b: Option<AsyncOpView>,
        now: Timestamp,
    ) -> bool {
        match (a, b) {
            (_, None) => true,
            (None, Some(_)) => false,
            (Some(a), Some(b)) => self.le(a, b, now),
        }
    }

    /// Whether, of the entries of `list` at the positions `x` and `y`, the
    /// one at `x` belongs before the one at `y` in the sorted list: it comes
    /// before it in this column, or it equals it there and stands before it
    /// in `list`.
    pub open spec fn in_order(
        self,
        ops: Map<u64, AsyncOpView>,
        now: Timestamp,
        list: Seq<Id>,
        x: int,
        y: int,
    ) -> bool {
        let a = slot(ops, list[x]);
        let b = slot(ops, list[y]);
        self.slot_le(a, b, now) && (self.slot_le(b, a, now) ==> x < y)
    }

    /// Whether `out` holds the entries of `list` from `lo` up to `hi`,
    /// sorted: `from` tells for each place in `out` the position in `list`
    /// that its entry comes from, and the entries stand in order.
    pub open spec fn arranges(
        self,
        ops: Map<u64, AsyncOpView>,
        now: Timestamp,
        list: Seq<Id>,
        lo: int,
        hi: int,
        out: Seq<Id>,
        from: Seq<int>,
    ) -> bool {
        &&& out.len() == hi - lo
        &&& from.len() == hi - lo
        &&& forall|k: int|
            0 <= k < from.len() ==> lo <= #[trigger] from[k] < hi && out[k] == list[from[k]]
        &&& forall|a: int, b: int|
            0 <= a < b < from.len() ==> self.in_order(
                ops,
                now,
                list,
                #[trigger] from[a],
                #[trigger] from[b],
            )
    }

    /// Whether `after` is `before` sorted by this column: `after` holds
    /// each entry of `before` once, and its entries stand in order.
    /// Entries that are equal in this column keep the order that they had
    /// in `before`.
    pub open spec fn sorts(
        self,
        ops: Map<u64, AsyncOpView>,
        now: Timestamp,
        before: Seq<Id>,
        after: Seq<Id>,
    ) -> bool {
        exists|from: Seq<int>|
            {
                &&& from.no_duplicates()
                &&& #[trigger] self.arranges(ops, now, before, 0, before.len() as int, after, from)
            }
    }

    /// The number of the column.
    pub open spec fn column(self) -> usize {
        match self {
            SortBy::Aid => 0,
            SortBy::Task => 1,
            SortBy::Source => 2,
            SortBy::Total => 3,
            SortBy::Busy => 4,
            SortBy::Idle => 5,
            SortBy::Polls => 6,
        }
    }

    /// The number of the column.
    pub fn as_column(&self) -> (idx: usize)
        ensures
            idx == self.column(),
    {
        match self {
            SortBy::Aid => 0,
            SortBy::Task => 1,
            SortBy::Source => 2,
            SortBy::Total => 3,
            SortBy::Busy => 4,
            SortBy::Idle => 5,
            SortBy::Polls => 6,
        }
    }

    /// Of two entries, one comes before the other or equals it.
    pub proof fn lemma_slot_le_total(
        self,
        a: Option<AsyncOpView>,
        b: Option<AsyncOpView>,
        now: Timestamp,
    )
        ensures
            self.slot_le(a, b, now) || self.slot_le(b, a, now),
    {
        if a is Some && b is Some && self == SortBy::Source {
            lemma_bytes_le_total(
                vstd::utf8::encode_utf8(a.unwrap().source),
                vstd::utf8::encode_utf8(b.unwrap().source),
            );
        }
    }

    /// The order of entries is transitive.
    pub proof fn lemma_slot_le_transitive(
        self,
        a: Option<AsyncOpView>,
        b: Option<AsyncOpView>,
        c: Option<AsyncOpView>,
        now: Timestamp,
    )
        requires
            self.slot_le(a, b, now),
            self.slot_le(b, c, now),
        ensures
            self.slot_le(a, c, now),
    {
        if a is Some && b is Some && c is Some && self == SortBy::Source {
            lemma_bytes_le_transitive(
                vstd::utf8::encode_utf8(a.unwrap().source),
                vstd::utf8::encode_utf8(b.unwrap().source),
                vstd::utf8::encode_utf8(c.unwrap().source),
            );
        }
    }

    /// If `x` belongs before `y` and `y` before `z`, then `x` belongs before
    /// `z`.
    pub proof fn lemma_in_order_transitive(
        self,
        ops: Map<u64, AsyncOpView>,
        now: Timestamp,
        list: Seq<Id>,
        x: int,
        y: int,
        z: int,
    )
        requires
            self.in_order(ops, now, list, x, y),
            self.in_order(ops, now, list, y, z),
        ensures
            self.in_order(ops, now, list, x, z),
    {
        let a = slot(ops, list[x]);
        let b = slot(ops, list[y]);
        let c = slot(ops, list[z]);
        self.lemma_slot_le_transitive(a, b, c, now);
        if self.slot_le(c, a, now) {
            self.lemma_slot_le_transitive(c, a, b, now);
            self.lemma_slot_le_transitive(b, c, a, now);
        }
    }

    /// Decides [`SortBy::le`].
    fn op_le(&self, a: &AsyncOp, b: &AsyncOp, now: Timestamp) -> (le: bool)
        ensures
            le == self.le(a@, b@, now),
    {
        match self {
            SortBy::Aid => a.id().id <= b.id().id,
            SortBy::Task => match (a.task_id(), b.task_id()) {
                (None, _) => true,
                (Some(_), None) => false,
                (Some(x), Some(y)) => x.id <= y.id,
            },
            SortBy::Source => str_le(a.source(), b.source()),
            SortBy::Total => a.total(now).nanos <= b.total(now).nanos,
            SortBy::Busy => a.busy(now).nanos <= b.busy(now).nanos,
            SortBy::Idle => a.idle(now).nanos <= b.idle(now).nanos,
            SortBy::Polls => a.total_polls() <= b.total_polls(),
        }
    }

    /// Decides [`SortBy::slot_le`] for the entries `a` and `b`.
    fn entry_le(&self, state: &AsyncOpsState, a: Id, b: Id, now: Timestamp) -> (le: bool)
        ensures
            le == self.slot_le(slot(state@.ops, a), slot(state@.ops, b), now),
    {
        match (state.get(a), state.get(b)) {
            (_, None) => true,
            (None, Some(_)) => false,
            (Some(a), Some(b)) => self.op_le(a, b, now),
        }
    }

    /// Merges two sorted runs of `list` that lie side by side.
    fn merge(
        &self,
        state: &AsyncOpsState,
        now: Timestamp,
        Ghost(list): Ghost<Seq<Id>>,
        Ghost(lo): Ghost<int>,
        Ghost(mid): Ghost<int>,
        Ghost(hi): Ghost<int>,
        left: Vec<Id>,
        Ghost(left_from): Ghost<Seq<int>>,
        right: Vec<Id>,
        Ghost(right_from): Ghost<Seq<int>>,
    ) -> (merged: (Vec<Id>, Ghost<Seq<int>>))
        requires
            lo <= mid <= hi,
            self.arranges(state@.ops, now, list, lo, mid, left@, left_from),
            self.arranges(state@.ops, now, list, mid, hi, right@, right_from),
        ensures
            self.arranges(state@.ops, now, list, lo, hi, merged.0@, merged.1@),
    {
        let ghost ops = state@.ops;
        let mut out: Vec<Id> = Vec::new();
        let ghost mut from: Seq<int> = Seq::empty();
        let mut i: usize = 0;
        let mut j: usize = 0;
        while i < left.len() || j < right.len()
            invariant
                lo <= mid <= hi,
                ops == state@.ops,
                self.arranges(ops, now, list, lo, mid, left@, left_from),
                self.arranges(ops, now, list, mid, hi, right@, right_from),
                i <= left@.len(),
                j <= right@.len(),
                out@.len() == i + j,
                from.len() == i + j,
                forall|k: int|
                    0 <= k < from.len() ==> lo <= #[trigger] from[k] < hi && out@[k] == list[from[k]],
                forall|a: int, b: int|
                    0 <= a < b < from.len() ==> self.in_order(
                        ops,
                        now,
                        list,
                        #[trigger] from[a],
                        #[trigger] from[b],
                    ),
                forall|k: int, x: int|
                    0 <= k < from.len() && i <= x < left_from.len() ==> self.in_order(
                        ops,
                        now,
                        list,
                        #[trigger] from[k],
                        #[trigger] left_from[x],
                    ),
                forall|k: int, y: int|
                    0 <= k < from.len() && j <= y < right_from.len() ==> self.in_order(
                        ops,
                        now,
                        list,
                        #[trigger] from[k],
                        #[trigger] right_from[y],
                    ),
            decreases left@.len() - i + right@.len() - j,
        {
            let take_left = if i >= left.len() {
                false
            } else if j >= right.len() {
                true
            } else {
                self.entry_le(state, left[i], right[j], now)
            };
            if take_left {
                let ghost e = left_from[i as int];
                proof {
                    assert forall|y: int| j <= y < right_from.len() implies self.in_order(
                        ops,
                        now,
                        list,
                        e,
                        #[trigger] right_from[y],
                    ) by {
                        assert(e < mid <= right_from[j as int]);
                        assert(self.in_order(ops, now, list, e, right_from[j as int]));
                        if y > j {
                            assert(self.in_order(ops, now, list, right_from[j as int], right_from[y]));
                            self.lemma_in_order_transitive(
                                ops,
                                now,
                                list,
                                e,
                                right_from[j as int],
                                right_from[y],
                            );
                        }
                    }
                    assert forall|x: int| i + 1 <= x < left_from.len() implies self.in_order(
                        ops,
                        now,
                        list,
                        e,
                        #[trigger] left_from[x],
                    ) by {
                        assert(self.in_order(ops, now, list, left_from[i as int], left_from[x]));
                    }
                }
                out.push(left[i]);
                proof {
                    from = from.push(e);
                }
                i += 1;
            } else {
                let ghost e = right_from[j as int];
                proof {
                    assert forall|x: int| i <= x < left_from.len() implies self.in_order(
                        ops,
                        now,
                        list,
                        e,
                        #[trigger] left_from[x],
                    ) by {
                        let a = slot(ops, list[left_from[i as int]]);
                        let b = slot(ops, list[e]);
                        self.lemma_slot_le_total(a, b, now);
                        assert(self.in_order(ops, now, list, e, left_from[i as int]));
                        if x > i {
                            assert(self.in_order(ops, now, list, left_from[i as int], left_from[x]));
                            self.lemma_in_order_transitive(
                                ops,
                                now,
                                list,
                                e,
                                left_from[i as int],
                                left_from[x],
                            );
                        }
                    }
                    assert forall|y: int| j + 1 <= y < right_from.len() implies self.in_order(
                        ops,
                        now,
                        list,
                        e,
                        #[trigger] right_from[y],
                    ) by {
                        assert(self.in_order(ops, now, list, right_from[j as int], right_from[y]));
                    }
                }
                out.push(right[j]);
                proof {
                    from = from.push(e);
                }
                j += 1;
            }
        }
        (out, Ghost(from))
    }

    /// Sorts the entries of `list` from `lo` up to `hi`.
    fn sorted_range(
        &self,
        state: &AsyncOpsState,
        now: Timestamp,
        list: &Vec<Id>,
        lo: usize,
        hi: usize,
    ) -> (sorted: (Vec<Id>, Ghost<Seq<int>>))
        requires
            lo <= hi <= list@.len(),
        ensures
            self.arranges(state@.ops, now, list@, lo as int, hi as int, sorted.0@, sorted.1@),
        decreases hi - lo,
    {
        if hi - lo == 0 {
            (Vec::new(), Ghost(Seq::empty()))
        } else if hi - lo == 1 {
            let mut out: Vec<Id> = Vec::new();
            out.push(list[lo]);
            let ghost from = Seq::<int>::empty().push(lo as int);
            (out, Ghost(from))
        } else {
            let mid = lo + (hi - lo) / 2;
            let (left, Ghost(left_from)) = self.sorted_range(state, now, list, lo, mid);
            let (right, Ghost(right_from)) = self.sorted_range(state, now, list, mid, hi);
            self.merge(
                state,
                now,
                Ghost(list@),
                Ghost(lo as int),
                Ghost(mid as int),
                Ghost(hi as int),
                left,
                Ghost(left_from),
                right,
                Ghost(right_from),
            )
        }
    }

    /// Sorts `ops`, a list of identifiers of operations of `state`, by this
    /// column, as it stands at the time `now`.
    ///
    /// Entries that are equal in the column keep their order. An entry
    /// whose operation is no longer stored goes to the end of the list.
    pub fn sort(&self, now: Timestamp, ops: &mut Vec<Id>, state: &AsyncOpsState)
        ensures
            self.sorts(state@.ops, now, old(ops)@, final(ops)@),
    {
        let n = ops.len();
        let (sorted, Ghost(from)) = self.sorted_range(state, now, ops, 0, n);
        proof {
            assert forall|a: int, b: int| 0 <= a < from.len() && 0 <= b < from.len() && a
                != b implies from[a] != from[b] by {
                if a < b {
                    assert(self.in_order(state@.ops, now, ops@, from[a], from[b]));
                } else {
                    assert(self.in_order(state@.ops, now, ops@, from[b], from[a]));
                }
            }
            assert(from.no_duplicates());
        }
        *ops = sorted;
    }
}

impl Default for SortBy {
    /// By the identifier of the operation.
    fn default() -> (by: SortBy)
        ensures
            by == SortBy::Aid,
    {
        SortBy::Aid
    }
}

impl TryFromSpecImpl<usize> for SortBy {
    open spec fn obeys_try_from_spec() -> bool {
        true
    }

    open spec fn try_from_spec(idx: usize) -> Result<SortBy, ()> {
        if idx == 0 {
            Ok(SortBy::Aid)
        } else if idx == 1 {
            Ok(SortBy::Task)
        } else if idx == 2 {
            Ok(SortBy::Source)
        } else if idx == 3 {
            Ok(SortBy::Total)
        } else if idx == 4 {
            Ok(SortBy::Busy)
        } else if idx == 5 {
            Ok(SortBy::Idle)
        } else if idx == 6 {
            Ok(SortBy::Polls)
        } else {
            Err(())
        }
    }
}

impl TryFrom<usize> for SortBy {
    type Error = ();

    /// The column with the number `idx`, if there is one.
    fn try_from(idx: usize) -> (by: Result<SortBy, ()>) {
        if idx == 0 {
            Ok(SortBy::Aid)
        } else if idx == 1 {
            Ok(SortBy::Task)
        } else if idx == 2 {
            Ok(SortBy::Source)
        } else if idx == 3 {
            Ok(SortBy::Total)
        } else if idx == 4 {
            Ok(SortBy::Busy)
        } else if idx == 5 {
            Ok(SortBy::Idle)
        } else if idx == 6 {
            Ok(SortBy::Polls)
        } else {
            Err(())
        }
    }
}

} // verus!
