//! Local discovery and cloud-sync engine for per-game save folders.
//!
//! The library holds the verified core: the save-folder classifier and
//! candidate scanner, the library-manifest resolver, the sync batch
//! accounting, the conflict detector, and the watch-batch mapping.
//! Filesystem walks, network requests and configuration persistence live
//! in the surrounding application, which hands this crate plain values.

pub mod classify;
pub mod config;
pub mod conflict;
pub mod expand;
pub mod manifest;
pub mod scan;
pub mod search;
pub mod sync;
pub mod text;
pub mod tree;
pub mod watch;
