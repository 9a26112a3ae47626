//! Exactly-once command processing and retried newsletter delivery.
//!
//! The library holds the rules of an idempotent command processor, a
//! transactional outbox of per-recipient delivery tasks, the worker that
//! drains it with jittered exponential backoff, and the sweeper that removes
//! expired idempotency records.
pub mod backoff;
pub mod configuration;
pub mod delivery_status;
pub mod domain;
pub mod errors;
pub mod idempotency;
pub mod publish;
pub mod queue;
pub mod store;
pub mod subscriptions;
pub mod sweeper;
pub mod text;
pub mod worker;
