//! The persisted test plan: what the planning phase writes and the
//! build phase reads.

use vstd::prelude::*;
use crate::model::{TestEntry, Scenario};

verus! {

/// The top-level persisted object. Exactly one of `tests` / `scenarios`
/// is populated, selected by `e2e`.
pub struct TestPlan {
    pub api_title: String,
    pub api_version: String,
    pub e2e: bool,
    pub tests: Vec<TestEntry>,
    pub scenarios: Vec<Scenario>,
}

impl TestPlan {
    /// The mode invariant: a unit plan has no scenarios, an end-to-end
    /// plan has no unit tests.
    pub open spec fn wf(&self) -> bool {
        if self.e2e {
            self.tests@.len() == 0
        } else {
            self.scenarios@.len() == 0
        }
    }

    /// A unit-mode plan over the given test entries.
    pub fn new_unit(api_title: String, api_version: String, tests: Vec<TestEntry>) -> (r:
        TestPlan)
        ensures
            r.wf(),
            !r.e2e,
            r.api_title == api_title,
            r.api_version == api_version,
            r.tests == tests,
            r.scenarios@.len() == 0,
    {
        TestPlan { api_title, api_version, e2e: false, tests, scenarios: Vec::new() }
    }

    /// An end-to-end plan over the given scenarios.
    pub fn new_e2e(api_title: String, api_version: String, scenarios: Vec<Scenario>) -> (r:
        TestPlan)
        ensures
            r.wf(),
            r.e2e,
            r.api_title == api_title,
            r.api_version == api_version,
            r.scenarios == scenarios,
            r.tests@.len() == 0,
    {
        TestPlan { api_title, api_version, e2e: true, tests: Vec::new(), scenarios }
    }
}

} // verus!
