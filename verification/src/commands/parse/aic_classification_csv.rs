//! Uploading an AI Center classification CSV as annotated comments.

use vstd::prelude::*;

verus! {

/// The options of `re parse aic-classification-csv`.
pub struct ParseAicClassificationCsvArgs {
    /// The CSV file to read.
    pub file_path: String,
    /// The source to upload the comments to, by name or id.
    pub source: String,
    /// The dataset to annotate them in, by full name.
    pub dataset: String,
    /// Don't charge AI units.
    pub no_charge: bool,
}

/// One row of the CSV: a text and the label it is classified under.
pub struct AicClassificationRecord {
    pub input: String,
    pub target: String,
}

/// Comments sent to the platform in one request.
pub const UPLOAD_BATCH_SIZE: usize = 128;

/// Whether the comments gathered are sent now: when forced, or once there
/// are more than can keep every worker thread busy with one batch.
pub fn should_send_comments(pending: usize, thread_count: u32, force_send: bool) -> (send: bool)
    ensures
        send == (force_send || pending > thread_count * UPLOAD_BATCH_SIZE),
{
    let capacity: u64 = (thread_count as u64) * (UPLOAD_BATCH_SIZE as u64);
    force_send || (pending as u64) > capacity
}

} // verus!
