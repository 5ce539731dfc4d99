//! Updating a source.

use vstd::prelude::*;

verus! {

/// The options of `re update source`.
pub struct UpdateSourceArgs {
    /// The source, by name or id.
    pub source: String,
    /// A new title.
    pub title: Option<String>,
    /// A new description.
    pub description: Option<String>,
    /// Whether comments are translated.
    pub should_translate: Option<bool>,
    /// A bucket to attach, by name or id.
    pub bucket: Option<String>,
    /// A new transform tag.
    pub transform_tag: Option<String>,
    /// Detach the source's bucket.
    pub detach_bucket: bool,
}

} // verus!
