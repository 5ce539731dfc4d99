//! The API token a context authenticates with.

use vstd::prelude::*;

verus! {

/// An API token.
#[derive(Clone, Debug)]
pub struct Token(pub String);

} // verus!
