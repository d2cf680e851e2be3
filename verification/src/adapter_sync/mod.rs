//! Keeping generated agent context in step with its source files: what is
//! dirty, when it is retried, and which file events matter.
pub mod adapter;
pub mod catalog;
pub mod files;
pub mod queue;
pub mod renewal;
pub mod subscriptions;
pub mod watch;
