//! Downloading emails: the counter shown while they are fetched.

use vstd::prelude::*;
use std::sync::atomic::{AtomicUsize, Ordering};

verus! {

/// Running total of an email download. Each counter is an atomic that other
/// threads read while it grows, so no contract states which value a read
/// returns.
pub struct Statistics {
    downloaded: AtomicUsize,
}

impl Statistics {
    /// Every counter at zero.
    pub fn new() -> Statistics {
        Statistics { downloaded: AtomicUsize::new(0) }
    }

    /// Counts more emails downloaded.
    pub fn add_emails(&self, num_downloaded: usize) {
        self.downloaded.fetch_add(num_downloaded, Ordering::SeqCst);
    }

    /// Emails downloaded so far.
    pub fn num_downloaded(&self) -> usize {
        self.downloaded.load(Ordering::SeqCst)
    }
}

} // verus!
