//! Updating a dataset.

use vstd::prelude::*;

verus! {

/// The options of `re update dataset`.
pub struct UpdateDatasetArgs {
    /// The dataset, by name or id.
    pub dataset: String,
    /// A new title.
    pub title: Option<String>,
    /// A new description.
    pub description: Option<String>,
    /// A new set of sources, by name or id.
    pub sources: Option<Vec<String>>,
}

} // verus!
