//! The mirror of the watched program's state: its entities, the store that
//! holds them, and the order in which they are listed.

pub mod async_ops;
pub mod sort;
pub mod store;
pub mod tasks;
