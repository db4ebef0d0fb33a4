//! Raw facts the caller gathers for one extraction target.
//!
//! Filesystem walks and network queries happen outside the library; their
//! results arrive here as plain values, each fact set independently either
//! present or failed with a message, so one failed gatherer never poisons
//! the other phases.

use vstd::prelude::*;
use crate::project::Project;

verus! {

/// One source file of a target: path, on-disk size, contents.
pub struct SourceFileFact {
    pub path: Vec<u8>,
    pub size: u64,
    pub text: Vec<u8>,
}

/// Build configuration facts of a target.
pub struct BuildFacts {
    pub has_build_script: bool,
    pub features: Vec<Vec<u8>>,
    pub platforms: Vec<Vec<u8>>,
}

/// Aggregate ecosystem facts about a target.
pub struct EcosystemFacts {
    pub downloads: u64,
    pub reverse_dependencies: u64,
    pub categories: Vec<Vec<u8>>,
}

/// One published version record of a target.
pub struct VersionRecord {
    pub version: Vec<u8>,
    pub timestamp: u64,
    pub yanked: bool,
}

/// Everything gathered about one target, fact set by fact set.
pub struct TargetFacts {
    pub project: Project,
    pub source: Result<Vec<SourceFileFact>, String>,
    pub build: Result<BuildFacts, String>,
    pub ecosystem: Result<EcosystemFacts, String>,
    pub versions: Result<Vec<VersionRecord>, String>,
}

} // verus!
