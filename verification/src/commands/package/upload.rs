//! Uploading a project package: batching decisions and the counters shown
//! while it is uploaded.

use vstd::prelude::*;
use std::sync::atomic::{AtomicUsize, Ordering};
use crate::commands::package::download::{sum_sizes, total_size};
use crate::text::{chars_of, contains_text, owned, push_str, str_eq};

verus! {

/// The options of `re package upload`.
pub struct UploadPackageArgs {
    /// The package to upload.
    pub file: String,
    /// Carry on after a batch fails to upload.
    pub resume_on_error: bool,
    /// How many megabytes of attachments to hold before uploading them.
    pub max_attachment_memory_mb: u64,
    /// Seconds to wait for a new dataset to appear.
    pub dataset_creation_timeout: u64,
    /// Name of the project (or dataset owner) to create.
    pub new_project_name: Option<DatasetOrOwnerName>,
    /// Don't charge AI units.
    pub no_charge: bool,
    /// Skip the confirmation prompt.
    pub yes: bool,
    /// Upload the dataset without its comments.
    pub skip_comment_upload: bool,
}

/// A name given on the command line for a new dataset or its owner.
pub struct DatasetOrOwnerName(pub String);

impl DatasetOrOwnerName {
    /// The name, read as a dataset name.
    pub fn to_dataset_name(&self) -> (name: String)
        ensures
            name@ == self.0@,
    {
        self.0.clone()
    }

    /// The name, read as a project name.
    pub fn to_project_name(&self) -> (name: String)
        ensures
            name@ == self.0@,
    {
        self.0.clone()
    }

    /// Any text is a name.
    pub fn from_text(text: &str) -> (name: DatasetOrOwnerName)
        ensures
            name.0@ == text@,
    {
        DatasetOrOwnerName(owned(text))
    }
}

/// Whether the documents held, of these sizes in bytes, have reached the
/// memory budget of `max_attachment_memory_mb` megabytes, counted in whole
/// megabytes of a million bytes.
pub fn should_upload_batch(sizes: &[u64], max_attachment_memory_mb: u64) -> (full: bool)
    requires
        total_size(sizes@) <= u64::MAX,
    ensures
        full == (total_size(sizes@) / 1_000_000 >= max_attachment_memory_mb),
{
    let total = sum_sizes(sizes);
    total / 1_000_000 >= max_attachment_memory_mb
}

/// Number of `/` in `s`.
pub open spec fn slash_count(s: Seq<char>) -> nat
    decreases s.len(),
{
    if s.len() == 0 {
        0
    } else {
        slash_count(s.drop_last()) + if s.last() == '/' {
            1nat
        } else {
            0nat
        }
    }
}

proof fn lemma_slash_count_split(s: Seq<char>, k: int)
    requires
        0 <= k <= s.len(),
    ensures
        slash_count(s) == slash_count(s.subrange(0, k)) + slash_count(s.subrange(k, s.len() as int)),
    decreases s.len() - k,
{
    if k < s.len() {
        lemma_slash_count_split(s.drop_last(), k);
        assert(s.drop_last().subrange(0, k) =~= s.subrange(0, k));
        assert(s.subrange(k, s.len() as int).drop_last() =~= s.drop_last().subrange(
            k,
            s.drop_last().len() as int,
        ));
        assert(s.subrange(k, s.len() as int).last() == s.last());
    } else {
        assert(s.subrange(0, k) =~= s);
        assert(s.subrange(k, s.len() as int) =~= Seq::<char>::empty());
    }
}

proof fn lemma_no_slash(s: Seq<char>)
    requires
        forall|i: int| 0 <= i < s.len() ==> s[i] != '/',
    ensures
        slash_count(s) == 0,
    decreases s.len(),
{
    if s.len() > 0 {
        lemma_no_slash(s.drop_last());
    }
}

/// Splits `owner/name` into its two parts; anything but exactly one `/` is
/// refused, with the message the command reports.
pub fn parse_dataset_full_name(dataset_full_name: &str) -> (parts: Result<(&str, &str), String>)
    ensures
        parts is Ok <==> slash_count(dataset_full_name@) == 1,
        parts matches Ok((owner, name)) ==> owner@ + "/"@ + name@ == dataset_full_name@
            && slash_count(owner@) == 0,
        parts matches Err(message) ==> message@ == "Invalid dataset full name format: "@
            + dataset_full_name@,
{
    let chars = chars_of(dataset_full_name);
    let mut slash: usize = 0;
    let mut count: usize = 0;
    let mut i: usize = 0;
    while i < chars.len()
        invariant
            i <= chars.len(),
            chars@ == dataset_full_name@,
            count == slash_count(chars@.subrange(0, i as int)),
            count <= i,
            count >= 1 ==> slash < i && chars@[slash as int] == '/' && forall|k: int|
                0 <= k < slash ==> chars@[k] != '/',
        decreases chars.len() - i,
    {
        assert(chars@.subrange(0, i + 1).drop_last() =~= chars@.subrange(0, i as int));
        if chars[i] == '/' {
            if count == 0 {
                slash = i;
                proof {
                    assert forall|k: int| 0 <= k < i implies chars@[k] != '/' by {
                        if chars@[k] == '/' {
                            lemma_slash_count_split(chars@.subrange(0, i as int), k);
                            lemma_slash_count_split(chars@.subrange(0, i as int).subrange(k, i as int), 1);
                            assert(chars@.subrange(0, i as int).subrange(k, i as int).subrange(0, 1) =~= seq!['/']);
                            assert(slash_count(seq!['/']) == 1) by {
                                assert(seq!['/'].drop_last() =~= Seq::<char>::empty());
                            }
                        }
                    }
                }
            }
            count = count + 1;
        }
        i = i + 1;
    }
    assert(chars@.subrange(0, chars@.len() as int) =~= chars@);
    if count == 1 {
        let owner = dataset_full_name.substring_char(0, slash);
        let name = dataset_full_name.substring_char(slash + 1, chars.len());
        proof {
            reveal_strlit("/");
            assert(owner@ + "/"@ + name@ =~= dataset_full_name@);
            lemma_no_slash(owner@);
        }
        Ok((owner, name))
    } else {
        let mut message = owned("Invalid dataset full name format: ");
        push_str(&mut message, dataset_full_name);
        Err(message)
    }
}

/// Whether an error reported by the platform says the project does not exist.
pub fn is_project_not_found_error(message: &str) -> (not_found: bool)
    ensures
        not_found == crate::text::contains_seq(message@, "No such project"@),
{
    contains_text(message, "No such project")
}

/// Running totals of a Communications Mining package upload. Each counter is an atomic that other
/// threads read while it grows, so no contract states which value a read
/// returns.
pub struct CmStatistics {
    comment_uploads: AtomicUsize,
    email_uploads: AtomicUsize,
    annotations: AtomicUsize,
    failed_comment_uploads: AtomicUsize,
    failed_email_uploads: AtomicUsize,
    failed_annotations: AtomicUsize,
}

impl CmStatistics {
    /// Every counter at zero.
    pub fn new() -> CmStatistics {
        CmStatistics { comment_uploads: AtomicUsize::new(0), email_uploads: AtomicUsize::new(0), annotations: AtomicUsize::new(0), failed_comment_uploads: AtomicUsize::new(0), failed_email_uploads: AtomicUsize::new(0), failed_annotations: AtomicUsize::new(0) }
    }

    /// Counts one more annotation uploaded.
    pub fn add_annotation(&self) {
        self.annotations.fetch_add(1, Ordering::SeqCst);
    }

    /// Counts one more annotation that failed to upload.
    pub fn add_failed_annotation(&self) {
        self.failed_annotations.fetch_add(1, Ordering::SeqCst);
    }

    /// Counts more comment batches uploaded.
    pub fn add_comment_batch_upload(&self, num: usize) {
        self.comment_uploads.fetch_add(num, Ordering::SeqCst);
    }

    /// Counts more email batches uploaded.
    pub fn add_email_batch_uploads(&self, num: usize) {
        self.email_uploads.fetch_add(num, Ordering::SeqCst);
    }

    /// Counts more comments that failed to upload.
    pub fn add_failed_comment_uploads(&self, num: usize) {
        self.failed_comment_uploads.fetch_add(num, Ordering::SeqCst);
    }

    /// Counts more emails that failed to upload.
    pub fn add_failed_email_uploads(&self, num: usize) {
        self.failed_email_uploads.fetch_add(num, Ordering::SeqCst);
    }

    /// Comment batches uploaded so far.
    pub fn num_comment_batches_uploaded(&self) -> usize {
        self.comment_uploads.load(Ordering::SeqCst)
    }

    /// Email batches uploaded so far.
    pub fn num_email_batches_uploaded(&self) -> usize {
        self.email_uploads.load(Ordering::SeqCst)
    }

    /// Annotations uploaded so far.
    pub fn num_annotations(&self) -> usize {
        self.annotations.load(Ordering::SeqCst)
    }

    /// Comments that failed to upload so far.
    pub fn num_failed_comment_uploads(&self) -> usize {
        self.failed_comment_uploads.load(Ordering::SeqCst)
    }

    /// Emails that failed to upload so far.
    pub fn num_failed_email_uploads(&self) -> usize {
        self.failed_email_uploads.load(Ordering::SeqCst)
    }

    /// Annotations that failed to upload so far.
    pub fn num_failed_annotations(&self) -> usize {
        self.failed_annotations.load(Ordering::SeqCst)
    }
}

/// Running totals of an IXP package upload. Each counter is an atomic that other
/// threads read while it grows, so no contract states which value a read
/// returns.
pub struct IxpStatistics {
    document_reads: AtomicUsize,
    document_uploads: AtomicUsize,
    annotations: AtomicUsize,
    failed_annotations: AtomicUsize,
    failed_reads: AtomicUsize,
    failed_uploads: AtomicUsize,
}

impl IxpStatistics {
    /// Every counter at zero.
    pub fn new() -> IxpStatistics {
        IxpStatistics { document_reads: AtomicUsize::new(0), document_uploads: AtomicUsize::new(0), annotations: AtomicUsize::new(0), failed_annotations: AtomicUsize::new(0), failed_reads: AtomicUsize::new(0), failed_uploads: AtomicUsize::new(0) }
    }

    /// Counts more annotations uploaded.
    pub fn add_annotation(&self, num: usize) {
        self.annotations.fetch_add(num, Ordering::SeqCst);
    }

    /// Counts more annotations that failed to upload.
    pub fn add_failed_annotations(&self, num: usize) {
        self.failed_annotations.fetch_add(num, Ordering::SeqCst);
    }

    /// Counts more documents that failed to upload.
    pub fn add_failed_uploads(&self, num: usize) {
        self.failed_uploads.fetch_add(num, Ordering::SeqCst);
    }

    /// Counts more documents uploaded.
    pub fn add_document_uploads(&self, num: usize) {
        self.document_uploads.fetch_add(num, Ordering::SeqCst);
    }

    /// Counts more documents read from the package.
    pub fn add_document_reads(&self, num: usize) {
        self.document_reads.fetch_add(num, Ordering::SeqCst);
    }

    /// Counts more documents that could not be read.
    pub fn add_failed_document_reads(&self, num: usize) {
        self.failed_reads.fetch_add(num, Ordering::SeqCst);
    }

    /// Documents uploaded so far.
    pub fn num_document_uploads(&self) -> usize {
        self.document_uploads.load(Ordering::SeqCst)
    }

    /// Documents read so far.
    pub fn num_document_reads(&self) -> usize {
        self.document_reads.load(Ordering::SeqCst)
    }

    /// Annotations uploaded so far.
    pub fn num_annotations(&self) -> usize {
        self.annotations.load(Ordering::SeqCst)
    }

    /// Annotations that failed to upload so far.
    pub fn num_failed_annotations(&self) -> usize {
        self.failed_annotations.load(Ordering::SeqCst)
    }

    /// Documents that could not be read so far.
    pub fn num_failed_reads(&self) -> usize {
        self.failed_reads.load(Ordering::SeqCst)
    }

    /// Documents that failed to upload so far.
    pub fn num_failed_uploads(&self) -> usize {
        self.failed_uploads.load(Ordering::SeqCst)
    }
}

/// The full name of a dataset: its owner, a slash, its name.
pub open spec fn full_name(owner: Seq<char>, name: Seq<char>) -> Seq<char> {
    owner + "/"@ + name
}

/// Whether the dataset `owner/name` is among `datasets` (each an owner and
/// a name), comparing full names, as the upload does while it waits for a
/// new dataset to appear.
pub fn dataset_is_listed(datasets: &[(String, String)], owner: &str, name: &str) -> (listed: bool)
    ensures
        listed == exists|i: int|
            0 <= i < datasets@.len() && full_name(datasets@[i].0@, datasets@[i].1@) == full_name(
                owner@,
                name@,
            ),
{
    let mut wanted = owned(owner);
    push_str(&mut wanted, "/");
    push_str(&mut wanted, name);
    let mut i: usize = 0;
    while i < datasets.len()
        invariant
            i <= datasets.len(),
            wanted@ == full_name(owner@, name@),
            forall|k: int|
                0 <= k < i ==> full_name(datasets@[k].0@, datasets@[k].1@) != full_name(
                    owner@,
                    name@,
                ),
        decreases datasets.len() - i,
    {
        let mut listed_name = owned(datasets[i].0.as_str());
        push_str(&mut listed_name, "/");
        push_str(&mut listed_name, datasets[i].1.as_str());
        if str_eq(listed_name.as_str(), wanted.as_str()) {
            return true;
        }
        i = i + 1;
    }
    false
}

} // verus!
