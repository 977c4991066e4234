//! Reconciles a catalog of commits with the commit history that a remote
//! hosting service reports for each tracked project.
//!
//! The library holds the decisions of a synchronisation run: which remote
//! commits are new, how each new record is built and attributed, and how a
//! project's ongoing release is resolved. Fetching and persisting are done by
//! the caller, which hands the library plain values.
pub mod model;
pub mod store;
pub mod reconcile;
pub mod laws;
pub mod sync;
