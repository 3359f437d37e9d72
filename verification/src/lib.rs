//! Inventory of game installations across third-party library managers,
//! with stable identity records and layered launch profiles.
//!
//! The crate has three verified subsystems: detectors that turn on-disk
//! metadata (Steam manifests, Heroic library files, Lutris database rows)
//! into uniform discovered-game records; a durable game database keyed by
//! `source:id` with merge, lookup and exclusion cleanup; and a profile
//! store whose single-parent inheritance chains are flattened by a
//! cycle-checked walk and a deep merge.

pub mod cache;
pub mod cli;
pub mod config;
pub mod database;
pub mod exe_resolver;
pub mod fingerprint;
pub mod heroic;
pub mod lutris;
pub mod profile;
pub mod runner;
pub mod settings;
pub mod source;
pub mod steam;
pub mod steam_options;
pub mod strutil;
pub mod vdf;

use vstd::prelude::*;

verus! {

/// Errors surfaced by the verified core. Filesystem and parse failures
/// found by the surrounding I/O code are mapped onto these same variants.
#[derive(Debug, Clone, Copy, PartialEq, Eq, Structural)]
pub enum CoreError {
    /// A required file, profile or game was absent.
    NotFound,
    /// A metadata document existed but could not be understood.
    ParseError,
    /// Neither known schema of the Lutris database matched.
    SchemaMismatch,
    /// A profile inheritance chain revisited a profile name.
    CycleDetected,
}

} // verus!
