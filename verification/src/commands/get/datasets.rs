//! Listing datasets.

use vstd::prelude::*;

verus! {

/// The options of `re get datasets`.
pub struct GetDatasetsArgs {
    /// A single dataset, by name or id.
    pub dataset: Option<String>,
    /// Include statistics.
    pub include_stats: bool,
    /// Only the datasets using this source, by name or id.
    pub source_identifier: Option<String>,
}

} // verus!
