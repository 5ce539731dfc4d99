//! Identifiers of the platform's resources, as plain strings.

use vstd::prelude::*;

verus! {

/// Identifier of a dataset.
pub struct DatasetId(pub String);

/// Identifier of a source.
pub struct SourceId(pub String);

/// Identifier of a bucket.
pub struct BucketId(pub String);

/// Identifier of a comment within its source.
pub struct CommentId(pub String);

/// Identifier of an email within its bucket.
pub struct EmailId(pub String);

/// Globally unique identifier of a comment.
pub struct CommentUid(pub String);

} // verus!
