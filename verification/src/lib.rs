//! Name recovery for the entries of a numbered data-pack archive.
//!
//! An archive stores, for each entry, only a digest of its lowercased path.
//! This library rebuilds names from a dictionary of candidates, classifies
//! unnamed payloads by their leading bytes, and keeps the tallies of a run.

pub mod hasher;
pub mod text;
pub mod signature;
pub mod dictionary;
pub mod router;
pub mod report;
pub mod run;
pub mod tally;
