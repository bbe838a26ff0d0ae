//! Core logic of a webhook-subscription keeper for a publish/subscribe hub.
//!
//! The library owns the data model and every decision the background
//! components make: the credential manager's state machine, the durable
//! action queue and its consumer, the renewal scheduler's timing, and the
//! reconciliation diff against the upstream subscription list.  All I/O —
//! the store, HTTP calls to the hub and the upstream API, timers and wake
//! signals — lives outside; the surrounding program feeds plain values in
//! and carries the returned requests and effects out.

pub mod actions;
pub mod confirm;
pub mod consumer;
pub mod known;
pub mod queue;
pub mod reconcile;
pub mod redirect;
pub mod registry;
pub mod scheduler;
pub mod token;
pub mod topic;
