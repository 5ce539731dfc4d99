//! Parsing local email files and uploading them.

pub mod aic_classification_csv;
pub mod emls;
pub mod msgs;
pub mod pff;
pub mod pff_sys;
pub mod pst;

use vstd::prelude::*;
use std::sync::atomic::{AtomicUsize, Ordering};

verus! {

/// Running totals of a parse-and-upload run. Each counter is an atomic that other
/// threads read while it grows, so no contract states which value a read
/// returns.
pub struct Statistics {
    processed: AtomicUsize,
    failed: AtomicUsize,
    uploaded: AtomicUsize,
    annotations: AtomicUsize,
    failed_annotations: AtomicUsize,
}

impl Statistics {
    /// Every counter at zero.
    pub fn new() -> Statistics {
        Statistics { processed: AtomicUsize::new(0), failed: AtomicUsize::new(0), uploaded: AtomicUsize::new(0), annotations: AtomicUsize::new(0), failed_annotations: AtomicUsize::new(0) }
    }

    /// Counts one more annotation uploaded.
    pub fn add_annotation(&self) {
        self.annotations.fetch_add(1, Ordering::SeqCst);
    }

    /// Counts one more annotation that failed to upload.
    pub fn add_failed_annotation(&self) {
        self.failed_annotations.fetch_add(1, Ordering::SeqCst);
    }

    /// Counts more documents uploaded.
    pub fn add_uploaded(&self, num_uploaded: usize) {
        self.uploaded.fetch_add(num_uploaded, Ordering::SeqCst);
    }

    /// Counts one more file that failed.
    pub fn increment_failed(&self) {
        self.failed.fetch_add(1, Ordering::SeqCst);
    }

    /// Counts one more file processed.
    pub fn increment_processed(&self) {
        self.processed.fetch_add(1, Ordering::SeqCst);
    }

    /// Documents uploaded so far.
    pub fn num_uploaded(&self) -> usize {
        self.uploaded.load(Ordering::SeqCst)
    }

    /// Files that failed so far.
    pub fn num_failed(&self) -> usize {
        self.failed.load(Ordering::SeqCst)
    }

    /// Files processed so far.
    pub fn num_processed(&self) -> usize {
        self.processed.load(Ordering::SeqCst)
    }

    /// Annotations uploaded so far.
    pub fn num_annotations(&self) -> usize {
        self.annotations.load(Ordering::SeqCst)
    }
}

} // verus!
