//! The extraction report and the run's terminal status and errors.

use vstd::prelude::*;
use crate::phases::ExtractionPhase;
use crate::project::ResolutionFailure;

verus! {

/// How a finished run ended: every (phase, target) pair succeeded, or
/// some failed while at least one phase produced output.
#[derive(Clone, Copy, PartialEq, Eq, Structural, Debug)]
pub enum RunStatus {
    Completed,
    CompletedWithFailures,
}

/// A fatal error that aborts the run before or instead of output.
#[derive(Clone, Copy, PartialEq, Eq, Structural, Debug)]
pub enum PipelineError {
    /// The requested phase list was empty.
    ConfigurationError,
    /// Every requested phase failed on every target.
    NothingExtracted,
}

/// The outcome of one extractor invocation on one target.
pub struct OutcomeRecord {
    pub phase: ExtractionPhase,
    pub target: Vec<u8>,
    pub ok: bool,
    pub message: String,
}

/// The mathematical model of an outcome record.
pub struct OutcomeModel {
    pub phase: ExtractionPhase,
    pub target: Seq<u8>,
    pub ok: bool,
    pub message: Seq<char>,
}

impl View for OutcomeRecord {
    type V = OutcomeModel;

    open spec fn view(&self) -> OutcomeModel {
        OutcomeModel {
            phase: self.phase,
            target: self.target@,
            ok: self.ok,
            message: self.message@,
        }
    }
}

/// Per-phase, per-target outcomes and the resolution failures of a run.
pub struct ExtractionReport {
    pub resolution_failures: Vec<ResolutionFailure>,
    pub outcomes: Vec<OutcomeRecord>,
}

} // verus!
