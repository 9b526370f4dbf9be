//! The description of the project under test, as its configuration gives it.
use vstd::prelude::*;

verus! {

/// Where the program under test is and how it is built and run.
#[derive(Clone, Debug)]
pub struct ProjectDefinition {
    pub binary_path: String,
    pub makefile_path: Option<String>,
    pub make_targets: Option<Vec<String>>,
    pub global_timeout: Option<u64>,
    pub valgrind_flags: Option<Vec<String>>,
    pub valgrind_log_folder: Option<String>,
    pub diff_table_width: Option<u64>,
    pub use_valgrind: Option<bool>,
}

impl ProjectDefinition {
    /// Programs run under valgrind unless the configuration turns it off.
    pub open spec fn spec_uses_valgrind(&self) -> bool {
        self.use_valgrind != Some(false)
    }

    #[verifier::when_used_as_spec(spec_uses_valgrind)]
    pub fn uses_valgrind(&self) -> (r: bool)
        ensures
            r == self.spec_uses_valgrind(),
    {
        match self.use_valgrind {
            Some(v) => v,
            None => true,
        }
    }
}

} // verus!
