//! The records that the transport hands over: what the watched program
//! reported, as plain values.
//!
//! A record may lack any of its parts. Nothing in it is trusted: a record
//! that lacks what is needed to make sense of it is passed over.

use crate::time::Timestamp;
use vstd::prelude::*;

verus! {

/// What is known of the place in the watched program that created an entity.
pub struct Metadata {
    /// The identifier by which records refer to this metadata.
    pub id: u64,
    /// The names of the fields that entities created at this place carry.
    pub field_names: Vec<String>,
}

/// The name of a field, as a record gives it.
pub enum FieldName {
    /// The name itself.
    StrName(String),
    /// The position of the name among the field names of the metadata.
    NameIdx(u64),
}

/// An attribute of an entity, as a record gives it.
pub struct AttributeRecord {
    /// The name of the attribute.
    pub name: Option<FieldName>,
    /// The metadata whose field names a positional name refers to.
    pub metadata_id: Option<u64>,
    /// The value of the attribute, as text.
    pub value: Option<String>,
    /// The unit of the value.
    pub unit: Option<String>,
}

/// What a record tells of the polls of an entity.
pub struct PollStats {
    /// How often the entity has been polled.
    pub polls: u64,
    /// When the latest poll started.
    pub last_poll_started: Option<Timestamp>,
    /// When the latest poll ended.
    pub last_poll_ended: Option<Timestamp>,
    /// The time spent in polls that have ended, in nanoseconds.
    pub busy_time: Option<u64>,
}

/// The figures reported for an async operation.
pub struct Stats {
    /// When the operation was created.
    pub created_at: Option<Timestamp>,
    /// When the operation was dropped.
    pub dropped_at: Option<Timestamp>,
    /// The remote identifier of the task that runs the operation.
    pub task_id: Option<u64>,
    /// What is known of the polls of the operation.
    pub poll_stats: Option<PollStats>,
    /// The attributes of the operation.
    pub attributes: Vec<AttributeRecord>,
}

/// The report of an async operation that the watched program has started.
pub struct NewAsyncOp {
    /// The remote identifier of the operation.
    pub id: Option<u64>,
    /// The identifier of the operation's metadata.
    pub metadata: Option<u64>,
    /// The place in the source that the operation comes from.
    pub source: String,
    /// The remote identifier of the operation that this one is part of.
    pub parent_async_op_id: Option<u64>,
    /// The remote identifier of the resource that the operation belongs to.
    pub resource_id: Option<u64>,
}

/// One batch of reports on async operations.
pub struct AsyncOpUpdate {
    /// The operations started since the last batch.
    pub new_async_ops: Vec<NewAsyncOp>,
    /// The latest figures, each with the remote identifier of its operation.
    pub stats_update: Vec<(u64, Stats)>,
    /// The number of reports that were lost on the way since the last batch.
    pub dropped_events: u64,
}

} // verus!
