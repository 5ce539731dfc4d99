//! Listing projects.

use vstd::prelude::*;

verus! {

/// The options of `re get projects`.
pub struct GetProjectsArgs {
    /// A single project, by name.
    pub project: Option<String>,
}

} // verus!
