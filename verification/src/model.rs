//! Work items, artifacts and per-item outcomes of one generation run.

use vstd::prelude::*;

verus! {

/// One unit of generation input: an API operation (unit-test mode) or an
/// end-to-end scenario outline.
pub enum WorkItem {
    Operation { name: String, http_method: String, path: String, schema_fragment: String },
    ScenarioOutline { name: String, step_outlines: Vec<String> },
}

/// One structured test entry of a plan.
pub struct TestEntry {
    pub name: String,
    pub method: String,
    pub path: String,
    pub assertions: Vec<String>,
}

/// One end-to-end scenario of a plan.
pub struct Scenario {
    pub name: String,
    pub steps: Vec<String>,
}

/// What one completed work item produced.
pub enum Artifact {
    Entry { entry: TestEntry },
    ScenarioEntry { scenario: Scenario },
    Script { name: String, code: String },
}

/// Why one work item failed; every kind is fatal for its item only.
#[derive(Clone, Copy, PartialEq, Eq, Structural, Debug)]
pub enum ErrorKind {
    Template,
    Transport,
    Service,
    Parse,
    Sink,
}

/// Whether an error kind may be retried against the completion service.
pub open spec fn spec_retryable(kind: ErrorKind) -> bool {
    kind is Transport
}

/// Tagged outcome for one work item.
pub enum GenerationResult {
    Success { artifact: Artifact },
    Failure { kind: ErrorKind, message: String },
}

impl GenerationResult {
    /// Whether this outcome is a success.
    pub fn is_success(&self) -> (r: bool)
        ensures
            r == (self is Success),
    {
        match self {
            GenerationResult::Success { .. } => true,
            GenerationResult::Failure { .. } => false,
        }
    }
}

} // verus!
