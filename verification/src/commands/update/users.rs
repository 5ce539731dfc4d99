//! Updating users in bulk: the counters shown while the input is read.

use vstd::prelude::*;
use std::sync::atomic::{AtomicUsize, Ordering};

verus! {

/// The options of `re update users`.
pub struct UpdateUsersArgs {
    /// The JSON lines file to read, or standard input.
    pub input_file: Option<String>,
    /// Don't display a progress bar.
    pub no_progress: bool,
}

/// Running totals of a bulk user update. Each counter is an atomic that other
/// threads read while it grows, so no contract states which value a read
/// returns.
pub struct Statistics {
    bytes_read: AtomicUsize,
    updated: AtomicUsize,
}

impl Statistics {
    /// Every counter at zero.
    pub fn new() -> Statistics {
        Statistics { bytes_read: AtomicUsize::new(0), updated: AtomicUsize::new(0) }
    }

    /// Counts more bytes of input read.
    pub fn add_bytes_read(&self, bytes_read: usize) {
        self.bytes_read.fetch_add(bytes_read, Ordering::SeqCst);
    }

    /// Counts one more user updated.
    pub fn add_user(&self) {
        self.updated.fetch_add(1, Ordering::SeqCst);
    }

    /// Bytes of input read so far.
    pub fn bytes_read(&self) -> usize {
        self.bytes_read.load(Ordering::SeqCst)
    }

    /// Users updated so far.
    pub fn num_updated(&self) -> usize {
        self.updated.load(Ordering::SeqCst)
    }
}

} // verus!
