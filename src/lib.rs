//! A local task manager's core: the task record, its schedule and overdue
//! state, the date-grouped selection index used for cursor navigation, the
//! search and status filters, and the encrypted store format with its key
//! management.

pub mod calendar;
pub mod codec;
pub mod config;
pub mod index;
pub mod keys;
pub mod overdue;
pub mod search;
pub mod task;
pub mod tasklist;
pub mod theme;
