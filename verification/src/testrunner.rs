//! Options of a run.
use vstd::prelude::*;

verus! {

/// How a run of the testcases is carried out and reported.
#[derive(Debug)]
pub struct TestrunnerOptions {
    pub verbose: bool,
    pub protected_mode: bool,
    pub ws_hints: bool,
    pub sudo: Option<String>,
}

impl Default for TestrunnerOptions {
    /// Quiet, unprotected, with whitespace hints, without sudo.
    fn default() -> (r: Self)
        ensures
            !r.verbose,
            !r.protected_mode,
            r.ws_hints,
            r.sudo is None,
    {
        TestrunnerOptions { verbose: false, protected_mode: false, ws_hints: true, sudo: None }
    }
}

} // verus!
