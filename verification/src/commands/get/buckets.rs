//! Listing buckets.

use vstd::prelude::*;

verus! {

/// The options of `re get buckets`.
pub struct GetBucketsArgs {
    /// A single bucket, by name or id.
    pub bucket: Option<String>,
    /// Include statistics.
    pub include_stats: bool,
}

} // verus!
