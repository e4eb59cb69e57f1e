//! An append-only record store with a recurrence-driven task scheduler.
//!
//! The crate layers an audited object/log model and a recurrence engine on
//! top of an in-memory ordered record store: typed object and log records
//! with a byte codec that carries a checkable type tag, an audit trail of
//! diff-carrying log entries, the `Every`/`Stop`/`Repeated` recurrence
//! iterator, look-ahead generation of task occurrences with a bounded FIFO
//! cache, and the current-occurrence selector.

pub mod api;
pub mod attr;
pub mod codec;
pub mod handler;
pub mod keys;
pub mod store;
pub mod strings;
pub mod recur;
pub mod sched;
pub mod time;

use vstd::prelude::*;

verus! {

} // verus!
