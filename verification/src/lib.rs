//! Reorg-aware delegation relay pipeline.
//!
//! Delegation-of-decryption-rights events observed on a host chain are queued
//! durably and must be granted on an access-control contract of a gateway
//! chain. This crate holds the decision core of that pipeline: readiness
//! classification of queued records against the live host chain, ordered
//! fetch and bulk deletion over a model of the durable queue, the three-tier
//! classification of submission outcomes that makes retries idempotent, the
//! notifier fallback decision, and the commit-or-rollback step of one batch
//! pass. All chain and database I/O lives with the caller, which feeds this
//! core plain values and carries out the actions it decides.

pub mod bytes;
pub mod classify;
pub mod delegation;
pub mod notifier;
pub mod orchestrator;
pub mod store;
pub mod submission;
