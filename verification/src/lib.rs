//! Reconciliation controller for declarative App resources.
//!
//! An App declares a deployable unit (name, container image, port); the
//! controller drives the cluster toward that declaration by managing one
//! owned Deployment per App. The crate contains the level-triggered core:
//! the dedup work queue, the reconciler state machine over observed cluster
//! state, the retry/backoff scheduler, and the ownership index that routes
//! child events back to their owning App.

pub mod backoff;
pub mod client;
pub mod commands;
pub mod index;
pub mod queue;
pub mod reconcile;
pub mod resources;
