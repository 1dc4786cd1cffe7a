//! Finds the dependencies that a package declares and never names in its sources.
//!
//! The library decides, for each declared dependency of a package, whether any source file
//! refers to it textually, and classifies the outcome against the package's ignore lists.
//! Walking the filesystem, reading files, running the build tool's metadata command and
//! printing are left to the caller, which hands the library plain values.
use vstd::prelude::*;

pub mod pattern;
pub mod search;
pub mod deps;
pub mod metadata;
pub mod manifest;
pub mod analysis;
pub mod laws;
pub mod cli;
pub mod sample;
pub mod fix;
