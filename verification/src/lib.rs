//! Track-identity matching and reconciliation for scraped audio collections.
//!
//! The crate decides whether an externally supplied search candidate is the
//! same musical track as a locally known item, and keeps per-track progress
//! (resolved catalog id, playlist assignment, download state) consistent
//! across repeated runs.  All text comparison goes through a locale-aware
//! normalizer and a Jaro-style similarity scorer; a weighted composite score
//! with hard gating floors decides a match.  A reconciliation store merges
//! freshly fetched metadata with previously persisted records, and a janitor
//! plans the removal of orphaned or duplicated on-disk artifacts.
//!
//! Everything here is pure computation: callers perform the fetching, disk
//! and network I/O and hand the results in as plain values.

pub mod bandcamp;
pub mod matcher;
pub mod metrics;
pub mod numfmt;
pub mod similarity;
pub mod spotify;
pub mod state;
pub mod tag;
pub mod text;
pub mod types;
