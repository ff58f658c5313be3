//! Run-scoped configuration.

use vstd::prelude::*;

verus! {

/// The switches of one run. A switch that is not set counts as off.
#[derive(Debug, Clone, Default)]
pub struct RunConfig {
    pub verbose: Option<bool>,
    pub quiet: Option<bool>,
    pub no_cache: Option<bool>,
}

/// Whether a switch is on.
pub open spec fn is_on(switch: Option<bool>) -> bool {
    switch == Some(true)
}

impl RunConfig {
    /// Whether narration was asked for.
    pub fn is_verbose(&self) -> (r: bool)
        ensures
            r == is_on(self.verbose),
    {
        match self.verbose {
            Some(v) => v,
            None => false,
        }
    }

    /// Whether the extraction cache is switched off.
    pub fn cache_disabled(&self) -> (r: bool)
        ensures
            r == is_on(self.no_cache),
    {
        match self.no_cache {
            Some(v) => v,
            None => false,
        }
    }
}

} // verus!
