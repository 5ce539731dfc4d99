//! Listing sources.

use vstd::prelude::*;

verus! {

/// The options of `re get sources`.
pub struct GetSourcesArgs {
    /// A single source, by name or id.
    pub source: Option<String>,
    /// Include statistics.
    pub include_stats: bool,
}

} // verus!
