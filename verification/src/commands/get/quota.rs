//! Showing quotas.

use vstd::prelude::*;

verus! {

/// The options of `re get quota`.
pub struct GetQuotaArgs {
    /// The UiPath tenant whose quotas are shown.
    pub tenant_id: Option<String>,
}

} // verus!
