//! Verified core of a lightweight, single-node container orchestrator.
//!
//! Services are declared in manifest files; each service keeps a population
//! of identical pods (co-located containers sharing a private pod network).
//! This crate holds the control-plane logic — naming, manifest validation,
//! the shared stores, the watcher / supervisor / autoscaler / rolling-update
//! state machines — as verified functions over plain values.  The container
//! engine, the filesystem watcher and the proxy are external collaborators:
//! callers perform those effects and feed the results back in.

pub mod config;
pub mod container;
pub mod context;
pub mod ext;
pub mod limits;
pub mod names;
pub mod orphans;
pub mod rolling;
pub mod scaling;
pub mod store;
pub mod supervisor;
pub mod text;
pub mod validate;
pub mod watcher;
