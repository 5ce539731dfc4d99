//! Listing integrations.

use vstd::prelude::*;

verus! {

/// The options of `re get integrations`.
pub struct GetIntegrationsArgs {
    /// A single integration, by full name.
    pub name: Option<String>,
    /// Write the listing to this file.
    pub path: Option<String>,
}

} // verus!
