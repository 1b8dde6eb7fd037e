//! An event-sourcing core: append-only event streams with optimistic
//! concurrency, command execution, fan-out of committed events and
//! projections that fold events into views.

pub mod bus;
pub mod envelope;
pub mod error;
pub mod esdb;
pub mod event;
pub mod pipeline;
pub mod projection;
pub mod store;
