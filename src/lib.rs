//! Verified core of an asynchronous job pipeline: a job record with a strictly
//! ordered status lifecycle, a store whose status changes are compare-and-swap
//! transitions, the parsing of trigger payloads into job references, and the
//! batch executor that drives each job through the store exactly once.
//!
//! Recovery policy: a job whose processor failed, or whose invocation died
//! mid-way, stays in `Processing`. Nothing here resets it: status moves are
//! forward only, so redelivery skips it, and such a job needs manual
//! intervention.

pub mod job;
pub mod store;
pub mod key;
pub mod event;
pub mod processor;
pub mod executor;
pub mod auth;
