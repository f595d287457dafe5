//! Async operations: the entities that the watched program reports for the
//! operations its tasks wait on, and the state that mirrors them.

use crate::intern::{interned, interned_all, InternedStr, Strings};
use crate::state::store::{inserted_all, noted_all, Id, Ids, IdsView, Store, Visibility};
use crate::text::{decimal, decimal_string};
use crate::time::{elapsed, TimeSpan, Timestamp};
use crate::wire::{AsyncOpUpdate, AttributeRecord, FieldName, Metadata, NewAsyncOp, Stats};
use std::collections::HashMap;
use vstd::std_specs::hash::group_hash_axioms;
use vstd::prelude::*;

verus! {

broadcast use group_hash_axioms;

/// What an [`Attribute`] holds.
pub struct AttributeView {
    /// The name of the attribute.
    pub name: Seq<char>,
    /// The value of the attribute.
    pub value: Seq<char>,
    /// The unit of the value.
    pub unit: Option<Seq<char>>,
}

/// An attribute of an entity: a named value, with a unit or without.
#[derive(Debug)]
pub struct Attribute {
    name: InternedStr,
    value: String,
    unit: Option<String>,
}

impl View for Attribute {
    type V = AttributeView;

    closed spec fn view(&self) -> AttributeView {
        AttributeView {
            name: self.name@,
            value: self.value@,
            unit: match self.unit {
                Some(unit) => Some(unit@),
                None => None,
            },
        }
    }
}

impl Attribute {
    /// The name of the attribute.
    pub fn name(&self) -> (name: &str)
        ensures
            name@ == self@.name,
    {
        self.name.as_str()
    }

    /// The value of the attribute.
    pub fn value(&self) -> (value: &str)
        ensures
            value@ == self@.value,
    {
        self.value.as_str()
    }

    /// The unit of the value, if it has one.
    pub fn unit(&self) -> (unit: Option<&str>)
        ensures
            match unit {
                Some(unit) => self@.unit == Some(unit@),
                None => self@.unit is None,
            },
    {
        match &self.unit {
            Some(unit) => Some(unit.as_str()),
            None => None,
        }
    }
}

/// The name that `record` gives its attribute: the name itself, or the field
/// name of `meta` at the position that the record gives, provided that the
/// record refers to `meta` and `meta` has a field name there.
pub open spec fn attribute_name(record: AttributeRecord, meta: Metadata) -> Option<Seq<char>> {
    match record.name {
        None => None,
        Some(FieldName::StrName(name)) => Some(name@),
        Some(FieldName::NameIdx(idx)) => if record.metadata_id == Some(meta.id) && idx
            < meta.field_names@.len() {
            Some(meta.field_names@[idx as int]@)
        } else {
            None
        },
    }
}

/// The attribute that `record` describes, if it gives both a name and a
/// value.
pub open spec fn attribute_of(record: AttributeRecord, meta: Metadata) -> Option<AttributeView> {
    match (attribute_name(record, meta), record.value) {
        (Some(name), Some(value)) => Some(
            AttributeView {
                name,
                value: value@,
                unit: match record.unit {
                    Some(unit) => Some(unit@),
                    None => None,
                },
            },
        ),
        _ => None,
    }
}

/// The attributes that `records` describe, in order. A record that lacks a
/// name or a value is passed over.
pub open spec fn attributes_of(records: Seq<AttributeRecord>, meta: Metadata) -> Seq<AttributeView>
    decreases records.len(),
{
    if records.len() == 0 {
        Seq::empty()
    } else {
        let rest = attributes_of(records.drop_last(), meta);
        match attribute_of(records.last(), meta) {
            Some(attribute) => rest.push(attribute),
            None => rest,
        }
    }
}

/// The names of `attributes`, in order.
pub open spec fn names_of(attributes: Seq<AttributeView>) -> Seq<Seq<char>> {
    Seq::new(attributes.len(), |i: int| attributes[i].name)
}

/// How the task that runs an operation is shown: by the number of its local
/// identifier, or as "n/a" where no task is known.
pub open spec fn task_text(task_id: Option<Id>) -> Seq<char> {
    match task_id {
        Some(id) => decimal(id.id as nat),
        None => "n/a"@,
    }
}

/// What [`AsyncOpStats`] holds.
pub struct AsyncOpStatsView {
    /// When the operation was created.
    pub created_at: Timestamp,
    /// When the operation was dropped, if it was.
    pub dropped_at: Option<Timestamp>,
    /// How often the operation has been polled.
    pub polls: u64,
    /// The time spent in polls that have ended, in nanoseconds.
    pub busy: u64,
    /// When the latest poll started.
    pub last_poll_started: Option<Timestamp>,
    /// When the latest poll ended.
    pub last_poll_ended: Option<Timestamp>,
    /// The time the operation spent waiting, fixed when it was dropped.
    pub idle: Option<TimeSpan>,
    /// The time the operation existed, fixed when it was dropped.
    pub total: Option<TimeSpan>,
    /// The local identifier of the task that runs the operation.
    pub task_id: Option<Id>,
    /// The task's identifier as text.
    pub task_id_str: Seq<char>,
    /// The attributes of the operation.
    pub attributes: Seq<AttributeView>,
}

impl AsyncOpStatsView {
    /// An operation is either active, with neither a total nor an idle time
    /// fixed, or dropped, with both fixed: the total is the time from its
    /// creation to its drop, and the idle time is what is left of the total
    /// after the busy time.
    pub open spec fn consistent(self) -> bool {
        &&& self.total == match self.dropped_at {
            Some(dropped_at) => Some(
                TimeSpan { nanos: elapsed(dropped_at, self.created_at) as u128 },
            ),
            None => None,
        }
        &&& self.idle == match self.total {
            Some(total) => Some(
                TimeSpan {
                    nanos: crate::time::idle_at(None, total.nanos as nat, self.busy as nat) as u128,
                },
            ),
            None => None,
        }
    }

    /// The start of the poll that the operation is in, if it is in one: a
    /// poll has started, and none has ended.
    pub open spec fn polling_since(self) -> Option<Timestamp> {
        match (self.last_poll_started, self.last_poll_ended) {
            (Some(started), None) => Some(started),
            _ => None,
        }
    }

    /// How long the operation has existed at `now`, in nanoseconds.
    pub open spec fn total_at(self, now: Timestamp) -> nat {
        crate::time::total_at(self.total, self.created_at, now)
    }

    /// How long the operation has been polled at `now`, in nanoseconds.
    pub open spec fn busy_at(self, now: Timestamp) -> nat {
        crate::time::busy_at(self.busy, self.polling_since(), now)
    }

    /// How long the operation has waited at `now`, in nanoseconds.
    pub open spec fn idle_at(self, now: Timestamp) -> nat {
        crate::time::idle_at(self.idle, self.total_at(now), self.busy_at(now))
    }
}

/// The outcome of reading a report of figures: the figures, and the tables
/// as the reading leaves them.
pub struct Reconciled {
    /// The figures, if the report could be read.
    pub stats: Option<AsyncOpStatsView>,
    /// The interned strings after the reading.
    pub strings: Seq<Seq<char>>,
    /// The local identifiers of tasks after the reading.
    pub task_ids: IdsView,
}

/// Reads the report `pb` of an operation whose metadata is `meta`.
///
/// A report that lacks the time of creation or the figures on polls cannot
/// be read, and leaves the tables as they are. Otherwise the total is fixed
/// if the operation was dropped, and the idle time with it; the task gets a
/// local identifier; and the names of the attributes and the task's
/// identifier are interned, in this order.
pub open spec fn reconciled(
    pb: Stats,
    meta: Metadata,
    strings: Seq<Seq<char>>,
    task_ids: IdsView,
) -> Reconciled {
    match (pb.created_at, pb.poll_stats) {
        (Some(created_at), Some(poll_stats)) => {
            let attributes = attributes_of(pb.attributes@, meta);
            let total = match pb.dropped_at {
                Some(dropped_at) => Some(
                    TimeSpan { nanos: elapsed(dropped_at, created_at) as u128 },
                ),
                None => None,
            };
            let busy = match poll_stats.busy_time {
                Some(busy) => busy,
                None => 0,
            };
            let idle = match total {
                Some(total) => Some(
                    TimeSpan {
                        nanos: crate::time::idle_at(None, total.nanos as nat, busy as nat) as u128,
                    },
                ),
                None => None,
            };
            let task_id = match pb.task_id {
                Some(remote) => Some(task_ids.id_for(remote)),
                None => None,
            };
            Reconciled {
                stats: Some(
                    AsyncOpStatsView {
                        created_at,
                        dropped_at: pb.dropped_at,
                        polls: poll_stats.polls,
                        busy,
                        last_poll_started: poll_stats.last_poll_started,
                        last_poll_ended: poll_stats.last_poll_ended,
                        idle,
                        total,
                        task_id,
                        task_id_str: task_text(task_id),
                        attributes,
                    },
                ),
                strings: interned(
                    interned_all(strings, names_of(attributes)),
                    task_text(task_id),
                ),
                task_ids: match pb.task_id {
                    Some(remote) => task_ids.assign(remote),
                    None => task_ids,
                },
            }
        },
        _ => Reconciled { stats: None, strings, task_ids },
    }
}

/// Whatever report is read, the figures that come of it are consistent.
pub proof fn lemma_reconciled_consistent(
    pb: Stats,
    meta: Metadata,
    strings: Seq<Seq<char>>,
    task_ids: IdsView,
)
    ensures
        reconciled(pb, meta, strings, task_ids).stats matches Some(stats) ==> stats.consistent(),
{
}

/// The figures of an async operation.
#[derive(Debug)]
pub struct AsyncOpStats {
    created_at: Timestamp,
    dropped_at: Option<Timestamp>,
    polls: u64,
    busy: u64,
    last_poll_started: Option<Timestamp>,
    last_poll_ended: Option<Timestamp>,
    idle: Option<TimeSpan>,
    total: Option<TimeSpan>,
    task_id: Option<Id>,
    task_id_str: InternedStr,
    attributes: Vec<Attribute>,
}

/// What a sequence of attributes holds.
pub open spec fn attribute_views(attributes: Seq<Attribute>) -> Seq<AttributeView> {
    Seq::new(attributes.len(), |i: int| attributes[i]@)
}

impl View for AsyncOpStats {
    type V = AsyncOpStatsView;

    closed spec fn view(&self) -> AsyncOpStatsView {
        AsyncOpStatsView {
            created_at: self.created_at,
            dropped_at: self.dropped_at,
            polls: self.polls,
            busy: self.busy,
            last_poll_started: self.last_poll_started,
            last_poll_ended: self.last_poll_ended,
            idle: self.idle,
            total: self.total,
            task_id: self.task_id,
            task_id_str: self.task_id_str@,
            attributes: attribute_views(self.attributes@),
        }
    }
}

impl AsyncOpStats {
    #[verifier::type_invariant]
    spec fn well_formed(&self) -> bool {
        self@.consistent()
    }

    /// Resolves the name of an attribute and interns it.
    fn attribute_from_proto(record: &AttributeRecord, meta: &Metadata, strings: &mut Strings) -> (attribute:
        Option<Attribute>)
        ensures
            match attribute {
                Some(attribute) => attribute_of(*record, *meta) == Some(attribute@),
                None => attribute_of(*record, *meta) is None,
            },
            final(strings).entries() == match attribute_of(*record, *meta) {
                Some(attribute) => interned(old(strings).entries(), attribute.name),
                None => old(strings).entries(),
            },
    {
        let value = match &record.value {
            Some(value) => value,
            None => {
                return None;
            },
        };
        let name = match &record.name {
            None => {
                return None;
            },
            Some(FieldName::StrName(name)) => strings.string_ref(name.as_str()),
            Some(FieldName::NameIdx(idx)) => {
                let refers_to_meta = match record.metadata_id {
                    Some(id) => id == meta.id,
                    None => false,
                };
                if !refers_to_meta || *idx >= meta.field_names.len() as u64 {
                    return None;
                }
                strings.string_ref(meta.field_names[*idx as usize].as_str())
            },
        };
        let unit = match &record.unit {
            Some(unit) => Some(unit.clone()),
            None => None,
        };
        Some(Attribute { name, value: value.clone(), unit })
    }

    /// Reads the report `pb` of an operation whose metadata is `meta`, as
    /// [`reconciled`] describes: the figures come back, or nothing if the
    /// report cannot be read.
    pub fn from_proto(pb: &Stats, meta: &Metadata, strings: &mut Strings, task_ids: &mut Ids) -> (stats:
        Option<AsyncOpStats>)
        ensures
            match stats {
                Some(stats) => reconciled(*pb, *meta, old(strings).entries(), old(task_ids)@).stats
                    == Some(stats@),
                None => reconciled(*pb, *meta, old(strings).entries(), old(task_ids)@).stats is None,
            },
            final(strings).entries() == reconciled(
                *pb,
                *meta,
                old(strings).entries(),
                old(task_ids)@,
            ).strings,
            final(task_ids)@ == reconciled(
                *pb,
                *meta,
                old(strings).entries(),
                old(task_ids)@,
            ).task_ids,
    {
        let created_at = match pb.created_at {
            Some(created_at) => created_at,
            None => {
                return None;
            },
        };
        let poll_stats = match &pb.poll_stats {
            Some(poll_stats) => poll_stats,
            None => {
                return None;
            },
        };
        let mut attributes: Vec<Attribute> = Vec::new();
        let mut i: usize = 0;
        while i < pb.attributes.len()
            invariant
                i <= pb.attributes@.len(),
                attribute_views(attributes@) == attributes_of(pb.attributes@.take(i as int), *meta),
                strings.entries() == interned_all(
                    old(strings).entries(),
                    names_of(attributes_of(pb.attributes@.take(i as int), *meta)),
                ),
            decreases pb.attributes@.len() - i,
        {
            let ghost before = attribute_views(attributes@);
            proof {
                assert(pb.attributes@.take(i + 1).drop_last() =~= pb.attributes@.take(i as int));
            }
            match Self::attribute_from_proto(&pb.attributes[i], meta, strings) {
                Some(attribute) => {
                    attributes.push(attribute);
                    proof {
                        assert(attribute_views(attributes@) =~= before.push(attribute@));
                        assert(names_of(before.push(attribute@)).drop_last() =~= names_of(before));
                    }
                },
                None => {},
            }
            i += 1;
        }
        proof {
            assert(pb.attributes@.take(i as int) =~= pb.attributes@);
        }
        let total = match pb.dropped_at {
            Some(dropped_at) => Some(dropped_at.saturating_since(created_at)),
            None => None,
        };
        let busy = match poll_stats.busy_time {
            Some(busy) => busy,
            None => 0,
        };
        let idle = match total {
            Some(total) => Some(crate::time::idle(None, total, TimeSpan { nanos: busy as u128 })),
            None => None,
        };
        let task_id = match pb.task_id {
            Some(remote) => Some(task_ids.id_for(remote)),
            None => None,
        };
        let task_id_str = match task_id {
            Some(id) => strings.string(decimal_string(id.id as u128)),
            None => strings.string_ref("n/a"),
        };
        Some(
            AsyncOpStats {
                created_at,
                dropped_at: pb.dropped_at,
                polls: poll_stats.polls,
                busy,
                last_poll_started: poll_stats.last_poll_started,
                last_poll_ended: poll_stats.last_poll_ended,
                idle,
                total,
                task_id,
                task_id_str,
                attributes,
            },
        )
    }
}

/// What an [`AsyncOp`] holds.
pub struct AsyncOpView {
    /// The local identifier of the operation.
    pub id: Id,
    /// The local identifier of the operation that this one is part of, as
    /// text; "n/a" where it is part of none.
    pub parent_id: Seq<char>,
    /// The local identifier of the resource that the operation belongs to.
    pub resource_id: Id,
    /// The identifier of the operation's metadata.
    pub meta_id: u64,
    /// The place in the source that the operation comes from.
    pub source: Seq<char>,
    /// The figures of the operation.
    pub stats: AsyncOpStatsView,
}

/// An async operation of the watched program.
#[derive(Debug)]
pub struct AsyncOp {
    id: Id,
    parent_id: InternedStr,
    resource_id: Id,
    meta_id: u64,
    source: InternedStr,
    stats: AsyncOpStats,
}

impl View for AsyncOp {
    type V = AsyncOpView;

    closed spec fn view(&self) -> AsyncOpView {
        AsyncOpView {
            id: self.id,
            parent_id: self.parent_id@,
            resource_id: self.resource_id,
            meta_id: self.meta_id,
            source: self.source@,
            stats: self.stats@,
        }
    }
}

impl AsyncOp {
    /// The local identifier of the operation.
    pub fn id(&self) -> (id: Id)
        ensures
            id == self@.id,
    {
        self.id
    }

    /// The local identifier of the operation that this one is part of, as
    /// text; "n/a" where it is part of none.
    pub fn parent_id(&self) -> (text: &str)
        ensures
            text@ == self@.parent_id,
    {
        self.parent_id.as_str()
    }

    /// The local identifier of the resource that the operation belongs to.
    pub fn resource_id(&self) -> (id: Id)
        ensures
            id == self@.resource_id,
    {
        self.resource_id
    }

    /// The identifier of the operation's metadata.
    pub fn meta_id(&self) -> (id: u64)
        ensures
            id == self@.meta_id,
    {
        self.meta_id
    }

    /// The local identifier of the task that runs the operation, if known.
    pub fn task_id(&self) -> (id: Option<Id>)
        ensures
            id == self@.stats.task_id,
    {
        self.stats.task_id
    }

    /// The identifier of the task that runs the operation, as text.
    pub fn task_id_str(&self) -> (text: &str)
        ensures
            text@ == self@.stats.task_id_str,
    {
        self.stats.task_id_str.as_str()
    }

    /// The place in the source that the operation comes from.
    pub fn source(&self) -> (text: &str)
        ensures
            text@ == self@.source,
    {
        self.source.as_str()
    }

    /// How long the operation has existed at `since`: the total fixed when
    /// it was dropped, or else the time since it was created.
    pub fn total(&self, since: Timestamp) -> (d: TimeSpan)
        ensures
            d.nanos == self@.stats.total_at(since),
            self@.stats.consistent(),
    {
        proof {
            use_type_invariant(&self.stats);
        }
        crate::time::total(self.stats.total, self.stats.created_at, since)
    }

    /// How long the operation has been polled at `since`: the time spent in
    /// polls that have ended, plus the time since the start of the poll that
    /// it is in, if it is in one.
    pub fn busy(&self, since: Timestamp) -> (d: TimeSpan)
        ensures
            d.nanos == self@.stats.busy_at(since),
            self@.stats.consistent(),
    {
        proof {
            use_type_invariant(&self.stats);
        }
        let polling_since = match (self.stats.last_poll_started, self.stats.last_poll_ended) {
            (Some(started), None) => Some(started),
            _ => None,
        };
        crate::time::busy(self.stats.busy, polling_since, since)
    }

    /// How long the operation has waited at `since`: the idle time fixed
    /// when it was dropped, or else what is left of the total after the busy
    /// time.
    pub fn idle(&self, since: Timestamp) -> (d: TimeSpan)
        ensures
            d.nanos == self@.stats.idle_at(since),
            self@.stats.consistent(),
    {
        crate::time::idle(self.stats.idle, self.total(since), self.busy(since))
    }

    /// How often the operation has been polled.
    pub fn total_polls(&self) -> (polls: u64)
        ensures
            polls == self@.stats.polls,
    {
        self.stats.polls
    }

    /// Whether the operation was dropped.
    pub fn dropped(&self) -> (dropped: bool)
        ensures
            dropped == (self@.stats.total is Some),
            dropped == (self@.stats.dropped_at is Some),
            self@.stats.consistent(),
    {
        proof {
            use_type_invariant(&self.stats);
        }
        self.stats.total.is_some()
    }

    /// When the operation was dropped, if it was.
    pub fn dropped_at(&self) -> (at: Option<Timestamp>)
        ensures
            at == self@.stats.dropped_at,
    {
        self.stats.dropped_at
    }

    /// The attributes of the operation.
    pub fn attributes(&self) -> (attributes: &Vec<Attribute>)
        ensures
            attribute_views(attributes@) == self@.stats.attributes,
    {
        &self.stats.attributes
    }

    /// The same operation with other figures.
    fn with_stats(&self, stats: AsyncOpStats) -> (op: AsyncOp)
        ensures
            op@ == (AsyncOpView { stats: stats@, ..self@ }),
    {
        AsyncOp {
            id: self.id,
            parent_id: self.parent_id.clone(),
            resource_id: self.resource_id,
            meta_id: self.meta_id,
            source: self.source.clone(),
            stats,
        }
    }
}

/// An operation that has been dropped has the same total and the same idle
/// time at every instant, and once its last poll has ended its idle and busy
/// time add up to its total, provided that it was not reported busy for
/// longer than it existed.
pub proof fn lemma_dropped_adds_up(stats: AsyncOpStatsView, now: Timestamp, then: Timestamp)
    requires
        stats.consistent(),
        stats.dropped_at is Some,
    ensures
        stats.total_at(now) == stats.total_at(then),
        stats.idle_at(now) == stats.idle_at(then),
        stats.polling_since() is None && stats.busy <= stats.total_at(now) ==> stats.idle_at(now)
            + stats.busy_at(now) == stats.total_at(now),
{
}

/// While an operation is active, its total and its busy time never shrink
/// as time goes on, and its idle and busy time add up to its total, provided
/// that it was not reported busy for longer than it has existed.
pub proof fn lemma_active_adds_up(stats: AsyncOpStatsView, earlier: Timestamp, later: Timestamp)
    requires
        stats.consistent(),
        stats.dropped_at is None,
        earlier.nanos <= later.nanos,
    ensures
        stats.total_at(earlier) <= stats.total_at(later),
        stats.busy_at(earlier) <= stats.busy_at(later),
        stats.busy_at(later) <= stats.total_at(later) ==> stats.idle_at(later) + stats.busy_at(
            later,
        ) == stats.total_at(later),
{
}

/// The tables that the entities of all kinds share.
pub struct Tables {
    /// The interned strings.
    pub strings: Seq<Seq<char>>,
    /// The local identifiers of resources.
    pub resource_ids: IdsView,
    /// The local identifiers of tasks.
    pub task_ids: IdsView,
}

/// What [`AsyncOpsState`] holds.
pub struct AsyncOpsView {
    /// The stored operations, by the number of their local identifier.
    pub ops: Map<u64, AsyncOpView>,
    /// The local identifiers of async operations.
    pub ids: IdsView,
    /// The operations stored since the list was last taken.
    pub new_ops: Seq<Id>,
    /// The number of reports that were lost on the way, all batches
    /// together.
    pub dropped_events: u64,
}

/// The position of the first of `stats`, from `from` on, that is meant for
/// `remote` and not yet taken.
pub open spec fn first_open(stats: Seq<(u64, Stats)>, taken: Seq<bool>, remote: u64, from: int) -> Option<
    int,
>
    decreases stats.len() - from,
{
    if from < 0 || from >= stats.len() {
        None
    } else if !taken[from] && stats[from].0 == remote {
        Some(from)
    } else {
        first_open(stats, taken, remote, from + 1)
    }
}

/// Where the reading of a batch's new operations stands.
pub struct Building {
    /// The local identifiers of async operations.
    pub ids: IdsView,
    /// The shared tables.
    pub tables: Tables,
    /// For each report of figures in the batch, whether a new operation has
    /// taken it.
    pub taken: Seq<bool>,
    /// The operations built so far, each with its identifier.
    pub built: Seq<(Id, AsyncOpView)>,
}

/// How the parent of an operation is shown: by the number of its local
/// identifier, or as "n/a" where the operation has no parent.
pub open spec fn parent_text(ids: IdsView, parent: Option<u64>) -> Seq<char> {
    match parent {
        Some(remote) => decimal(ids.id_for(remote).id as nat),
        None => "n/a"@,
    }
}

/// Reads one report of a new operation.
///
/// The report is passed over, and changes nothing, if it lacks its own
/// identifier or that of its metadata, if the metadata is not known, or if
/// the batch holds no figures for the operation that are not yet taken.
/// Otherwise it takes the first such figures. If they cannot be read it is
/// passed over. Else the operation gets its local identifier. If the report
/// lacks the resource, it is passed over at this point. Else the resource
/// and the parent get their local identifiers, the parent's identifier and
/// the source are interned, and the operation is built.
pub open spec fn build_one(
    b: Building,
    record: NewAsyncOp,
    stats: Seq<(u64, Stats)>,
    metas: Map<u64, Metadata>,
) -> Building {
    match (record.id, record.metadata) {
        (Some(span_id), Some(meta_id)) => if !metas.contains_key(meta_id) {
            b
        } else {
            match first_open(stats, b.taken, span_id, 0) {
                None => b,
                Some(k) => {
                    let taken = b.taken.update(k, true);
                    let read = reconciled(
                        stats[k].1,
                        metas[meta_id],
                        b.tables.strings,
                        b.tables.task_ids,
                    );
                    match read.stats {
                        None => Building { taken, ..b },
                        Some(figures) => {
                            let id = b.ids.id_for(span_id);
                            let ids = b.ids.assign(span_id);
                            match record.resource_id {
                                None => Building {
                                    ids,
                                    tables: Tables {
                                        strings: read.strings,
                                        resource_ids: b.tables.resource_ids,
                                        task_ids: read.task_ids,
                                    },
                                    taken,
                                    built: b.built,
                                },
                                Some(resource) => {
                                    let parent = parent_text(ids, record.parent_async_op_id);
                                    Building {
                                        ids: match record.parent_async_op_id {
                                            Some(remote) => ids.assign(remote),
                                            None => ids,
                                        },
                                        tables: Tables {
                                            strings: interned(
                                                interned(read.strings, parent),
                                                record.source@,
                                            ),
                                            resource_ids: b.tables.resource_ids.assign(resource),
                                            task_ids: read.task_ids,
                                        },
                                        taken,
                                        built: b.built.push(
                                            (
                                                id,
                                                AsyncOpView {
                                                    id,
                                                    parent_id: parent,
                                                    resource_id: b.tables.resource_ids.id_for(
                                                        resource,
                                                    ),
                                                    meta_id,
                                                    source: record.source@,
                                                    stats: figures,
                                                },
                                            ),
                                        ),
                                    }
                                },
                            }
                        },
                    }
                },
            }
        },
        _ => b,
    }
}

/// Reads the reports of new operations, in order.
pub open spec fn build_all(
    b: Building,
    records: Seq<NewAsyncOp>,
    stats: Seq<(u64, Stats)>,
    metas: Map<u64, Metadata>,
) -> Building
    decreases records.len(),
{
    if records.len() == 0 {
        b
    } else {
        build_one(build_all(b, records.drop_last(), stats, metas), records.last(), stats, metas)
    }
}

/// Where the reading of a batch's figures stands.
pub struct Applying {
    /// The stored operations.
    pub ops: Map<u64, AsyncOpView>,
    /// The shared tables.
    pub tables: Tables,
}

/// Reads one report of figures, meant for the operation that the watched
/// program calls `remote`.
///
/// The report is passed over, and changes nothing, if the operation is not
/// stored or its metadata is not known. Otherwise the figures are read, and
/// if they can be read they take the place of the operation's figures.
pub open spec fn apply_one(
    a: Applying,
    ids: IdsView,
    remote: u64,
    pb: Stats,
    metas: Map<u64, Metadata>,
) -> Applying {
    match crate::state::store::target(ids.known, a.ops, remote) {
        None => a,
        Some(id) => {
            let op = a.ops[id.id];
            if !metas.contains_key(op.meta_id) {
                a
            } else {
                let read = reconciled(pb, metas[op.meta_id], a.tables.strings, a.tables.task_ids);
                Applying {
                    ops: match read.stats {
                        Some(figures) => a.ops.insert(id.id, AsyncOpView { stats: figures, ..op }),
                        None => a.ops,
                    },
                    tables: Tables {
                        strings: read.strings,
                        resource_ids: a.tables.resource_ids,
                        task_ids: read.task_ids,
                    },
                }
            }
        },
    }
}

/// Reads the reports of figures that no new operation has taken, in order.
pub open spec fn apply_all(
    a: Applying,
    ids: IdsView,
    stats: Seq<(u64, Stats)>,
    taken: Seq<bool>,
    metas: Map<u64, Metadata>,
) -> Applying
    decreases stats.len(),
{
    if stats.len() == 0 {
        a
    } else {
        let before = apply_all(a, ids, stats.drop_last(), taken.drop_last(), metas);
        if taken.last() {
            before
        } else {
            apply_one(before, ids, stats.last().0, stats.last().1, metas)
        }
    }
}

/// The state and the shared tables after a batch.
pub struct Updated {
    /// The state of the async operations.
    pub state: AsyncOpsView,
    /// The shared tables.
    pub tables: Tables,
}

/// Takes in one batch of reports.
///
/// The new operations are read and stored, and listed as new if the store
/// keeps track; then the figures that no new operation has taken are read
/// into the stored operations; and the count of lost reports grows by that
/// of the batch.
pub open spec fn updated(
    state: AsyncOpsView,
    tables: Tables,
    metas: Map<u64, Metadata>,
    update: AsyncOpUpdate,
    visibility: Visibility,
) -> Updated {
    let stats = update.stats_update@;
    let building = build_all(
        Building {
            ids: state.ids,
            tables,
            taken: Seq::new(stats.len(), |i: int| false),
            built: Seq::empty(),
        },
        update.new_async_ops@,
        stats,
        metas,
    );
    let stored = inserted_all(state.ops, building.built);
    let applying = apply_all(
        Applying { ops: stored, tables: building.tables },
        building.ids,
        stats,
        building.taken,
        metas,
    );
    Updated {
        state: AsyncOpsView {
            ops: applying.ops,
            ids: building.ids,
            new_ops: noted_all(state.new_ops, visibility, building.built),
            dropped_events: (state.dropped_events + update.dropped_events) as u64,
        },
        tables: applying.tables,
    }
}

/// What each of `items` holds.
pub open spec fn op_views(items: Map<u64, AsyncOp>) -> Map<u64, AsyncOpView> {
    items.map_values(|op: AsyncOp| op@)
}

/// What each of `built` holds, with its identifier.
pub open spec fn built_views(built: Seq<(Id, AsyncOp)>) -> Seq<(Id, AsyncOpView)> {
    Seq::new(built.len(), |i: int| (built[i].0, built[i].1@))
}

/// The shared tables, as the three of them hold them.
pub open spec fn tables(strings: Strings, resource_ids: Ids, task_ids: Ids) -> Tables {
    Tables { strings: strings.entries(), resource_ids: resource_ids@, task_ids: task_ids@ }
}

/// Whether an operation is kept at `now`, if dropped operations are kept
/// for the time `retain_for`: it is, unless it was dropped that long ago or
/// longer.
pub open spec fn retained(op: AsyncOpView, now: Timestamp, retain_for: TimeSpan) -> bool {
    match op.stats.dropped_at {
        Some(dropped_at) => retain_for.nanos > elapsed(now, dropped_at),
        None => true,
    }
}

/// Storing operations and then asking what each holds comes to the same as
/// storing what each holds.
proof fn lemma_inserted_all_views(items: Map<u64, AsyncOp>, built: Seq<(Id, AsyncOp)>)
    ensures
        op_views(inserted_all(items, built)) == inserted_all(op_views(items), built_views(built)),
    decreases built.len(),
{
    if built.len() > 0 {
        lemma_inserted_all_views(items, built.drop_last());
        assert(built_views(built).drop_last() =~= built_views(built.drop_last()));
        assert(op_views(inserted_all(items, built)) =~= inserted_all(
            op_views(items),
            built_views(built),
        ));
    } else {
        assert(op_views(inserted_all(items, built)) =~= inserted_all(
            op_views(items),
            built_views(built),
        ));
    }
}

/// Which operations are listed as new depends on their identifiers alone.
proof fn lemma_noted_all_views(new_items: Seq<Id>, visibility: Visibility, built: Seq<(Id, AsyncOp)>)
    ensures
        noted_all(new_items, visibility, built) == noted_all(
            new_items,
            visibility,
            built_views(built),
        ),
    decreases built.len(),
{
    if built.len() > 0 {
        lemma_noted_all_views(new_items, visibility, built.drop_last());
        assert(built_views(built).drop_last() =~= built_views(built.drop_last()));
    }
}

/// The async operations of the watched program, and the count of reports
/// on them that were lost on the way.
pub struct AsyncOpsState {
    async_ops: Store<AsyncOp>,
    dropped_events: u64,
}

impl View for AsyncOpsState {
    type V = AsyncOpsView;

    closed spec fn view(&self) -> AsyncOpsView {
        AsyncOpsView {
            ops: op_views(self.async_ops.items()),
            ids: self.async_ops.ids(),
            new_ops: self.async_ops.new_items(),
            dropped_events: self.dropped_events,
        }
    }
}

impl AsyncOpsState {
    /// A state without operations, whose first operation will get the
    /// identifier 1.
    pub fn new() -> (state: AsyncOpsState)
        ensures
            state@.ops == Map::<u64, AsyncOpView>::empty(),
            state@.ids.known == Map::<u64, Id>::empty(),
            state@.ids.next == 1,
            state@.new_ops == Seq::<Id>::empty(),
            state@.dropped_events == 0,
    {
        let state = AsyncOpsState { async_ops: Store::new(), dropped_events: 0 };
        assert(state@.ops =~= Map::<u64, AsyncOpView>::empty());
        state
    }

    /// Takes the list of the operations that were stored since the list was
    /// last taken: each of them once, in the order in which they came.
    pub fn take_new_async_ops(&mut self) -> (taken: Vec<Id>)
        ensures
            taken@ == old(self)@.new_ops,
            taken@.no_duplicates(),
            final(self)@ == (AsyncOpsView { new_ops: Seq::empty(), ..old(self)@ }),
    {
        self.async_ops.take_new_items()
    }

    /// The identifiers of the stored operations, each once, in no
    /// particular order.
    pub fn async_ops(&self) -> (ids: Vec<Id>)
        ensures
            ids@.no_duplicates(),
            forall|id: Id| ids@.contains(id) <==> self@.ops.contains_key(id.id),
    {
        self.async_ops.stored()
    }

    /// The operation stored under `id`, if there is one.
    pub fn get(&self, id: Id) -> (op: Option<&AsyncOp>)
        ensures
            match op {
                Some(op) => self@.ops.contains_key(id.id) && self@.ops[id.id] == op@,
                None => !self@.ops.contains_key(id.id),
            },
    {
        self.async_ops.get(id)
    }

    /// The number of reports that were lost on the way, all batches
    /// together.
    pub fn dropped_events(&self) -> (n: u64)
        ensures
            n == self@.dropped_events,
    {
        self.dropped_events
    }

    /// The position of the first report of figures for `remote` that no
    /// new operation has taken.
    fn find_open(stats: &Vec<(u64, Stats)>, taken: &Vec<bool>, remote: u64) -> (found: Option<usize>)
        requires
            taken@.len() == stats@.len(),
        ensures
            match found {
                Some(k) => first_open(stats@, taken@, remote, 0) == Some(k as int) && k
                    < stats@.len(),
                None => first_open(stats@, taken@, remote, 0) is None,
            },
    {
        let mut k: usize = 0;
        while k < stats.len()
            invariant
                k <= stats@.len(),
                taken@.len() == stats@.len(),
                first_open(stats@, taken@, remote, 0) == first_open(stats@, taken@, remote, k as int),
            decreases stats@.len() - k,
        {
            if !taken[k] && stats[k].0 == remote {
                return Some(k);
            }
            k += 1;
        }
        None
    }

    /// Reads one report of a new operation, as [`build_one`] describes.
    fn build(
        &mut self,
        record: &NewAsyncOp,
        stats: &Vec<(u64, Stats)>,
        taken: &mut Vec<bool>,
        metas: &HashMap<u64, Metadata>,
        strings: &mut Strings,
        resource_ids: &mut Ids,
        task_ids: &mut Ids,
        Ghost(built): Ghost<Seq<(Id, AsyncOpView)>>,
    ) -> (op: Option<(Id, AsyncOp)>)
        requires
            old(taken)@.len() == stats@.len(),
        ensures
            final(taken)@.len() == stats@.len(),
            ({
                let before = Building {
                    ids: old(self)@.ids,
                    tables: tables(*old(strings), *old(resource_ids), *old(task_ids)),
                    taken: old(taken)@,
                    built,
                };
                let after = build_one(before, *record, stats@, metas@);
                &&& final(self)@.ids == after.ids
                &&& tables(*final(strings), *final(resource_ids), *final(task_ids)) == after.tables
                &&& final(taken)@ == after.taken
                &&& after.built == match op {
                    Some(op) => built.push((op.0, op.1@)),
                    None => built,
                }
            }),
            final(self)@.ops == old(self)@.ops,
            final(self).async_ops.items() == old(self).async_ops.items(),
            final(self)@.new_ops == old(self)@.new_ops,
            final(self)@.dropped_events == old(self)@.dropped_events,
    {
        let span_id = match record.id {
            Some(id) => id,
            None => {
                return None;
            },
        };
        let meta_id = match record.metadata {
            Some(id) => id,
            None => {
                return None;
            },
        };
        let meta = match metas.get(&meta_id) {
            Some(meta) => meta,
            None => {
                return None;
            },
        };
        let k = match Self::find_open(stats, taken, span_id) {
            Some(k) => k,
            None => {
                return None;
            },
        };
        taken.set(k, true);
        let figures = match AsyncOpStats::from_proto(&stats[k].1, meta, strings, task_ids) {
            Some(figures) => figures,
            None => {
                return None;
            },
        };
        let id = self.async_ops.id_for(span_id);
        let resource = match record.resource_id {
            Some(resource) => resource,
            None => {
                return None;
            },
        };
        let resource_id = resource_ids.id_for(resource);
        let parent_id = match record.parent_async_op_id {
            Some(parent) => {
                let parent = self.async_ops.id_for(parent);
                strings.string(decimal_string(parent.id as u128))
            },
            None => strings.string_ref("n/a"),
        };
        let source = strings.string_ref(record.source.as_str());
        Some((id, AsyncOp { id, parent_id, resource_id, meta_id, source, stats: figures }))
    }

    /// Takes in one batch of reports, as [`updated`] describes. The count of
    /// lost reports must stay within 64 bits.
    pub fn update_async_ops(
        &mut self,
        strings: &mut Strings,
        metas: &HashMap<u64, Metadata>,
        update: AsyncOpUpdate,
        resource_ids: &mut Ids,
        task_ids: &mut Ids,
        visibility: Visibility,
    )
        requires
            old(self)@.dropped_events + update.dropped_events <= u64::MAX,
        ensures
            final(self)@ == updated(
                old(self)@,
                tables(*old(strings), *old(resource_ids), *old(task_ids)),
                metas@,
                update,
                visibility,
            ).state,
            tables(*final(strings), *final(resource_ids), *final(task_ids)) == updated(
                old(self)@,
                tables(*old(strings), *old(resource_ids), *old(task_ids)),
                metas@,
                update,
                visibility,
            ).tables,
    {
        let ghost before = self@;
        let ghost tables_before = tables(*strings, *resource_ids, *task_ids);
        let stats = &update.stats_update;
        let mut taken: Vec<bool> = Vec::new();
        while taken.len() < stats.len()
            invariant
                taken@.len() <= stats@.len(),
                forall|i: int| 0 <= i < taken@.len() ==> !taken@[i],
            decreases stats@.len() - taken@.len(),
        {
            taken.push(false);
        }
        let ghost start = Building {
            ids: before.ids,
            tables: tables_before,
            taken: Seq::new(stats@.len(), |i: int| false),
            built: Seq::empty(),
        };
        assert(taken@ =~= start.taken);
        let mut built: Vec<(Id, AsyncOp)> = Vec::new();
        let mut i: usize = 0;
        while i < update.new_async_ops.len()
            invariant
                i <= update.new_async_ops@.len(),
                stats@ == update.stats_update@,
                taken@.len() == stats@.len(),
                ({
                    let building = build_all(
                        start,
                        update.new_async_ops@.take(i as int),
                        stats@,
                        metas@,
                    );
                    &&& self@.ids == building.ids
                    &&& tables(*strings, *resource_ids, *task_ids) == building.tables
                    &&& taken@ == building.taken
                    &&& built_views(built@) == building.built
                }),
                self.async_ops.items() == old(self).async_ops.items(),
                self@.new_ops == before.new_ops,
                self@.dropped_events == before.dropped_events,
            decreases update.new_async_ops@.len() - i,
        {
            proof {
                assert(update.new_async_ops@.take(i + 1).drop_last()
                    =~= update.new_async_ops@.take(i as int));
            }
            let ghost so_far = built_views(built@);
            let op = self.build(
                &update.new_async_ops[i],
                stats,
                &mut taken,
                metas,
                strings,
                resource_ids,
                task_ids,
                Ghost(so_far),
            );
            match op {
                Some(op) => {
                    let ghost pair = (op.0, op.1@);
                    built.push(op);
                    assert(built_views(built@) =~= so_far.push(pair));
                },
                None => {},
            }
            i += 1;
        }
        proof {
            assert(update.new_async_ops@.take(i as int) =~= update.new_async_ops@);
            lemma_inserted_all_views(self.async_ops.items(), built@);
            lemma_noted_all_views(before.new_ops, visibility, built@);
        }
        let ghost building = build_all(start, update.new_async_ops@, stats@, metas@);
        self.async_ops.insert_with(visibility, built);
        let ghost stored = Applying { ops: self@.ops, tables: building.tables };
        let mut j: usize = 0;
        while j < stats.len()
            invariant
                j <= stats@.len(),
                stats@ == update.stats_update@,
                taken@ == building.taken,
                taken@.len() == stats@.len(),
                self@.ids == building.ids,
                self@.new_ops == noted_all(before.new_ops, visibility, building.built),
                self@.dropped_events == before.dropped_events,
                ({
                    let applying = apply_all(
                        stored,
                        building.ids,
                        stats@.take(j as int),
                        taken@.take(j as int),
                        metas@,
                    );
                    &&& self@.ops == applying.ops
                    &&& tables(*strings, *resource_ids, *task_ids) == applying.tables
                }),
            decreases stats@.len() - j,
        {
            proof {
                assert(stats@.take(j + 1).drop_last() =~= stats@.take(j as int));
                assert(taken@.take(j + 1).drop_last() =~= taken@.take(j as int));
            }
            if !taken[j] {
                self.apply(stats[j].0, &stats[j].1, metas, strings, task_ids);
            }
            j += 1;
        }
        proof {
            assert(stats@.take(j as int) =~= stats@);
            assert(taken@.take(j as int) =~= taken@);
        }
        self.dropped_events = self.dropped_events + update.dropped_events;
    }

    /// Reads one report of figures, as [`apply_one`] describes.
    fn apply(
        &mut self,
        remote: u64,
        pb: &Stats,
        metas: &HashMap<u64, Metadata>,
        strings: &mut Strings,
        task_ids: &mut Ids,
    )
        ensures
            ({
                let before = Applying {
                    ops: old(self)@.ops,
                    tables: Tables {
                        strings: old(strings).entries(),
                        resource_ids: IdsView { known: Map::empty(), next: 0 },
                        task_ids: old(task_ids)@,
                    },
                };
                let after = apply_one(before, old(self)@.ids, remote, *pb, metas@);
                &&& final(self)@.ops == after.ops
                &&& final(strings).entries() == after.tables.strings
                &&& final(task_ids)@ == after.tables.task_ids
            }),
            final(self)@.ids == old(self)@.ids,
            final(self)@.new_ops == old(self)@.new_ops,
            final(self)@.dropped_events == old(self)@.dropped_events,
    {
        let id = match self.async_ops.local_id(remote) {
            Some(id) => id,
            None => {
                return ;
            },
        };
        let op = match self.async_ops.get(id) {
            Some(op) => op,
            None => {
                return ;
            },
        };
        let meta = match metas.get(&op.meta_id) {
            Some(meta) => meta,
            None => {
                return ;
            },
        };
        match AsyncOpStats::from_proto(pb, meta, strings, task_ids) {
            Some(figures) => {
                let op = op.with_stats(figures);
                let ghost items = self.async_ops.items();
                self.async_ops.insert(Visibility::Hide, id, op);
                assert(op_views(items.insert(id.id, op)) =~= op_views(items).insert(id.id, op@));
            },
            None => {},
        }
    }

    /// Removes the operations that were dropped the time `retain_for` ago
    /// or longer, and keeps the others.
    pub fn retain_active(&mut self, now: Timestamp, retain_for: TimeSpan)
        ensures
            final(self)@.ops == old(self)@.ops.restrict(
                Set::new(|k: u64| retained(old(self)@.ops[k], now, retain_for)),
            ),
            final(self)@.ids == old(self)@.ids,
            final(self)@.new_ops == old(self)@.new_ops,
            final(self)@.dropped_events == old(self)@.dropped_events,
    {
        let keep = |id: Id, op: &AsyncOp| -> (kept: bool)
            ensures
                kept == retained(op@, now, retain_for),
            {
                match op.dropped_at() {
                    Some(dropped_at) => {
                        let dropped_for = now.saturating_since(dropped_at);
                        retain_for.nanos > dropped_for.nanos
                    },
                    None => true,
                }
            };
        self.async_ops.retain(keep);
        proof {
            let items = old(self).async_ops.items();
            let kept = Set::new(|k: u64| retained(old(self)@.ops[k], now, retain_for));
            assert forall|k: u64| #[trigger]
                self@.ops.contains_key(k) <==> old(self)@.ops.restrict(kept).contains_key(k) by {
                if items.contains_key(k) {
                    assert(call_ensures(keep, (Id { id: k }, &items[k]), self.async_ops.items().contains_key(k)));
                }
            }
            assert(self@.ops =~= old(self)@.ops.restrict(kept));
        }
    }
}

impl Default for AsyncOpsState {
    /// A state without operations.
    fn default() -> (state: AsyncOpsState)
        ensures
            state@.ops == Map::<u64, AsyncOpView>::empty(),
            state@.ids.known == Map::<u64, Id>::empty(),
            state@.ids.next == 1,
            state@.new_ops == Seq::<Id>::empty(),
            state@.dropped_events == 0,
    {
        AsyncOpsState::new()
    }
}

} // verus!
