//! Updating a project.

use vstd::prelude::*;

verus! {

/// The options of `re update project`.
pub struct UpdateProjectArgs {
    /// The project's name.
    pub name: String,
    /// A new title.
    pub title: Option<String>,
    /// A new description.
    pub description: Option<String>,
}

} // verus!
