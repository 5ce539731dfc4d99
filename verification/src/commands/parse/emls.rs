//! Uploading a directory of `.eml` files as emails.

use vstd::prelude::*;

verus! {

/// The options of `re parse emls`.
pub struct ParseEmlArgs {
    /// The directory holding the `.eml` files.
    pub directory: String,
    /// The bucket to upload the emails to, by name or id.
    pub bucket: String,
    /// Don't charge AI units.
    pub no_charge: bool,
    /// Consent to the AI unit charge without being asked.
    pub yes: bool,
}

} // verus!
