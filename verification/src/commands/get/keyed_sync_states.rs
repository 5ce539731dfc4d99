//! Listing the keyed sync states of a bucket.

use vstd::prelude::*;

verus! {

/// The options of `re get keyed-sync-states`.
pub struct GetKeyedSyncStatesArgs {
    /// The bucket, by name or id.
    pub bucket: String,
}

} // verus!
