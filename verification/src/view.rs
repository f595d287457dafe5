//! What the views show besides the entities themselves, as plain text ready
//! to be styled and drawn.

pub mod controls;
pub mod task;
