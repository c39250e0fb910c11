//! Verified core of a self-hosted game-save catalog and sync backend.
//!
//! The library holds the logic of the system: the data model of the catalog
//! and of the external manifest feed, the extraction of save paths and
//! executables from feed entries, the reconciliation of feed content against
//! the catalog, the periodic job scheduler's bookkeeping, the conditional
//! fetch decisions, the save retention policy, and configuration validation.
//! All I/O (HTTP, file system, persistence) lives outside the library and
//! hands it plain values.

pub mod configuration;
pub mod dialog;
pub mod endpoint;
pub mod extract;
pub mod jobs;
pub mod laws;
pub mod manifest;
pub mod reconcile;
pub mod retention;
pub mod scheduler;
pub mod store_rows;
