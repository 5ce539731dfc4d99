//! Downloading a project package: the counters shown while it is written.

use vstd::prelude::*;
use std::sync::atomic::{AtomicUsize, Ordering};

verus! {

/// The options of `re package download`.
pub struct DownloadPackageArgs {
    /// The project (dataset) to package.
    pub project: String,
    /// Where to write the package.
    pub file: String,
    /// Overwrite the package file if it exists.
    pub overwrite: bool,
    /// Number of comments fetched per request.
    pub batch_size: usize,
    /// How many megabytes of attachments to hold before writing them out.
    pub max_attachment_memory_mb: u64,
}

/// The sum of `sizes`.
pub open spec fn total_size(sizes: Seq<u64>) -> nat
    decreases sizes.len(),
{
    if sizes.len() == 0 {
        0
    } else {
        total_size(sizes.drop_last()) + sizes.last() as nat
    }
}

/// Whether the documents held, of these sizes in bytes, have reached the
/// memory budget of `max_attachment_memory_mb` megabytes, counted in whole
/// megabytes of a million bytes.
pub fn should_package_batch_of_documents(sizes: &[u64], max_attachment_memory_mb: u64) -> (full:
    bool)
    requires
        total_size(sizes@) <= u64::MAX,
    ensures
        full == (total_size(sizes@) / 1_000_000 >= max_attachment_memory_mb),
{
    let total = sum_sizes(sizes);
    total / 1_000_000 >= max_attachment_memory_mb
}

/// The sum of `sizes`.
pub fn sum_sizes(sizes: &[u64]) -> (total: u64)
    requires
        total_size(sizes@) <= u64::MAX,
    ensures
        total == total_size(sizes@),
{
    let mut total: u64 = 0;
    let mut i: usize = 0;
    while i < sizes.len()
        invariant
            i <= sizes.len(),
            total == total_size(sizes@.subrange(0, i as int)),
            total_size(sizes@) <= u64::MAX,
        decreases sizes.len() - i,
    {
        proof {
            lemma_total_size_prefix(sizes@, i + 1);
            assert(sizes@.subrange(0, i + 1).drop_last() =~= sizes@.subrange(0, i as int));
        }
        total = total + sizes[i];
        i = i + 1;
    }
    assert(sizes@.subrange(0, sizes@.len() as int) =~= sizes@);
    total
}

/// A prefix sums to no more than the whole.
pub proof fn lemma_total_size_prefix(sizes: Seq<u64>, n: int)
    requires
        0 <= n <= sizes.len(),
    ensures
        total_size(sizes.subrange(0, n)) <= total_size(sizes),
    decreases sizes.len(),
{
    if n < sizes.len() {
        assert(sizes.drop_last().subrange(0, n) =~= sizes.subrange(0, n));
        lemma_total_size_prefix(sizes.drop_last(), n);
    } else {
        assert(sizes.subrange(0, n) =~= sizes);
    }
}

/// Running totals of a package download. Each counter is an atomic that other
/// threads read while it grows, so no contract states which value a read
/// returns.
pub struct Statistics {
    comments: AtomicUsize,
    emails: AtomicUsize,
    document_downloads: AtomicUsize,
    document_writes: AtomicUsize,
    annotations: AtomicUsize,
}

impl Statistics {
    /// Every counter at zero.
    pub fn new() -> Statistics {
        Statistics { comments: AtomicUsize::new(0), emails: AtomicUsize::new(0), document_downloads: AtomicUsize::new(0), document_writes: AtomicUsize::new(0), annotations: AtomicUsize::new(0) }
    }

    /// Counts more comments downloaded.
    pub fn add_comments(&self, num: usize) {
        self.comments.fetch_add(num, Ordering::SeqCst);
    }

    /// Counts more emails downloaded.
    pub fn add_emails(&self, num: usize) {
        self.emails.fetch_add(num, Ordering::SeqCst);
    }

    /// Counts more documents downloaded.
    pub fn add_document_download(&self, num: usize) {
        self.document_downloads.fetch_add(num, Ordering::SeqCst);
    }

    /// Counts more documents written.
    pub fn add_document_write(&self, num: usize) {
        self.document_writes.fetch_add(num, Ordering::SeqCst);
    }

    /// Counts more annotations downloaded.
    pub fn add_annotations(&self, num: usize) {
        self.annotations.fetch_add(num, Ordering::SeqCst);
    }

    /// Comments downloaded so far.
    pub fn num_comments(&self) -> usize {
        self.comments.load(Ordering::SeqCst)
    }

    /// Emails downloaded so far.
    pub fn num_emails(&self) -> usize {
        self.emails.load(Ordering::SeqCst)
    }

    /// Documents downloaded so far.
    pub fn num_document_downloaded(&self) -> usize {
        self.document_downloads.load(Ordering::SeqCst)
    }

    /// Documents written so far.
    pub fn num_document_writes(&self) -> usize {
        self.document_writes.load(Ordering::SeqCst)
    }

    /// Annotations downloaded so far.
    pub fn num_annotations(&self) -> usize {
        self.annotations.load(Ordering::SeqCst)
    }
}

} // verus!
