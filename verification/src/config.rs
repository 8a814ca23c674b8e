//! Configuration values handed to the engine.

use vstd::prelude::*;

verus! {

/// Optional configuration read from the tool's config file: the test
/// target, the completion service base URL, and the model identifier.
#[derive(Debug, Clone)]
pub struct Config {
    pub target: Option<String>,
    pub api_base: Option<String>,
    pub model: Option<String>,
}

impl Default for Config {
    /// The empty configuration: nothing set, every knob at its default.
    fn default() -> (r: Config)
        ensures
            r.target is None,
            r.api_base is None,
            r.model is None,
    {
        Config { target: None, api_base: None, model: None }
    }
}

} // verus!
