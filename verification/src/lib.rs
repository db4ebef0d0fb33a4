//! Verified core of a multi-phase project-fact extraction pipeline.
//!
//! The library parses a phase selector, resolves a project's dependency
//! graph against a registry snapshot, runs one extractor per requested
//! phase over the root project and its resolved dependencies, and encodes
//! the resulting schema-conformant rows into one columnar table per phase.
//! Filesystem, network and process concerns stay outside; the library works
//! on plain values handed in by its caller.

pub mod bytes;
pub mod cli;
pub mod codec;
pub mod extract;
pub mod facts;
pub mod orchestrator;
pub mod phases;
pub mod report;
pub mod project;
pub mod resolver;
pub mod schema;
pub mod writer;
