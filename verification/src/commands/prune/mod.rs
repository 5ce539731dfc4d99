//! Pruning old comments and emails: back up the deletion set, verify every
//! backup against its manifest entry, and only then delete, sourcing every id
//! from the verified backups.

pub mod batches;
pub mod checksum;
pub mod framing;
pub mod mailbox;
pub mod paths;
pub mod prompt;
pub mod scope;
pub mod session;

use vstd::prelude::*;
use crate::text::{join, joined, owned, push_str};
use crate::commands::prune::checksum::crc32_of_lines;
use crate::commands::prune::framing::{
    all_complete, crc_and_count, framed_record, has_no_newline, is_framing,
    lemma_framed_record_is_complete, lemma_framing_is_unique, lemma_read_back_matches_written,
    read_back_summary,
};

verus! {

/// Errors of the prune command's own rules.
#[derive(Debug)]
pub enum PruneError {
    /// No dataset was given.
    NoDatasets,
    /// The operator answered no to the confirmation prompt.
    AbortedByUser,
    /// In-scope sources are also used by these datasets, which are not in scope.
    SharedSources { datasets: Vec<String> },
    /// The backup at `path` does not match its manifest entry.
    BackupMismatch { path: String },
    /// A line of the backup at `path` could not be parsed.
    CorruptBackupLine { path: String },
    /// A line of the annotation backup at `path` could not be parsed.
    CorruptAnnotationLine { path: String },
    /// `--older-than-days` reaches before the earliest representable date.
    CutoffOutOfRange,
}

/// The text of an error, as the command reports it.
pub open spec fn error_text(error: PruneError) -> Seq<char> {
    match error {
        PruneError::NoDatasets => "At least one dataset must be given via --datasets."@,
        PruneError::AbortedByUser => "Prune aborted by user."@,
        PruneError::SharedSources { datasets } => "Refusing to prune: in-scope sources are also used by datasets not in --datasets: "@
            + joined(datasets@.map_values(|name: String| name@), ", "@)
            + ". Add them to --datasets or narrow the scope."@,
        PruneError::BackupMismatch { path } => "Backup `"@ + path@
            + "` failed verification (count/checksum mismatch with the manifest)"@,
        PruneError::CorruptBackupLine { path } => "Corrupt backup line in `"@ + path@ + "`"@,
        PruneError::CorruptAnnotationLine { path } => "Corrupt annotation backup line in `"@ + path@
            + "`"@,
        PruneError::CutoffOutOfRange => "`--older-than-days` is too large: the cutoff date is out of range"@,
    }
}

impl PruneError {
    /// The message shown for this error.
    pub fn message(&self) -> (text: String)
        ensures
            text@ == error_text(*self),
    {
        match self {
            PruneError::NoDatasets => owned("At least one dataset must be given via --datasets."),
            PruneError::AbortedByUser => owned("Prune aborted by user."),
            PruneError::SharedSources { datasets } => {
                let mut text = owned(
                    "Refusing to prune: in-scope sources are also used by datasets not in --datasets: ",
                );
                let names = join(datasets.as_slice(), ", ");
                push_str(&mut text, names.as_str());
                push_str(&mut text, ". Add them to --datasets or narrow the scope.");
                text
            },
            PruneError::BackupMismatch { path } => {
                let mut text = owned("Backup `");
                push_str(&mut text, path.as_str());
                push_str(
                    &mut text,
                    "` failed verification (count/checksum mismatch with the manifest)",
                );
                text
            },
            PruneError::CorruptBackupLine { path } => {
                let mut text = owned("Corrupt backup line in `");
                push_str(&mut text, path.as_str());
                push_str(&mut text, "`");
                text
            },
            PruneError::CorruptAnnotationLine { path } => {
                let mut text = owned("Corrupt annotation backup line in `");
                push_str(&mut text, path.as_str());
                push_str(&mut text, "`");
                text
            },
            PruneError::CutoffOutOfRange => owned(
                "`--older-than-days` is too large: the cutoff date is out of range",
            ),
        }
    }
}

/// The options of `re prune`.
pub struct PruneArgs {
    /// Datasets in scope, by name or id.
    pub datasets: Vec<String>,
    /// Delete data older than this many days.
    pub older_than_days: u32,
    /// Also delete annotated comments.
    pub include_annotated: bool,
    /// Restrict the run to a single mailbox.
    pub mailbox: Option<String>,
    /// Directory under which the backup folder is created.
    pub backup_dir: String,
    /// Back up and report, without deleting.
    pub dry_run: bool,
    /// Skip the confirmation prompt.
    pub yes: bool,
    /// Don't display progress bars.
    pub no_progress: bool,
}

/// Checks what the option parser cannot: at least one dataset is given.
pub fn validate_args(args: &PruneArgs) -> (result: Result<(), PruneError>)
    ensures
        result is Ok <==> args.datasets@.len() > 0,
        result is Err ==> result->Err_0 is NoDatasets,
{
    if args.datasets.len() == 0 {
        Err(PruneError::NoDatasets)
    } else {
        Ok(())
    }
}

/// Maps the operator's answer to the confirmation prompt to a result.
pub fn decide(confirmed: bool) -> (result: Result<(), PruneError>)
    ensures
        result is Ok <==> confirmed,
        result is Err ==> result->Err_0 is AbortedByUser,
{
    if confirmed {
        Ok(())
    } else {
        Err(PruneError::AbortedByUser)
    }
}

/// The instant `days` days before the instant `secs` seconds and `nanos`
/// nanoseconds after the Unix epoch, as `chrono` computes it, or `None` where
/// it falls outside the dates `chrono` represents.
pub uninterp spec fn days_before(secs: i64, nanos: u32, days: u32) -> Option<(i64, u32)>;

/// Steps back a whole number of days (`chrono::DateTime::from_timestamp`,
/// `DateTime::checked_sub_signed` with `TimeDelta::days`, then
/// `DateTime::timestamp` and `DateTime::timestamp_subsec_nanos`). The
/// result is named, as a function of the arguments, by `days_before`; when
/// there is one, it is exactly `days` days of 86400 seconds earlier, as
/// chrono subtracts without leap seconds. chrono's dates run from year
/// -262143 to year 262142 (`NaiveDate::MIN` to `NaiveDate::MAX`), fewer than
/// 192 million days, so stepping back 200 million days or more never lands
/// in range; where exactly the range ends is not stated.
#[verifier::external_body]
fn checked_days_before(secs: i64, nanos: u32, days: u32) -> (earlier: Option<(i64, u32)>)
    requires
        nanos < 1_000_000_000,
    ensures
        earlier == days_before(secs, nanos, days),
        earlier matches Some((s, n)) ==> s == secs - 86400 * days && n == nanos,
        days >= 200_000_000 ==> earlier is None,
{
    let now = match chrono::DateTime::from_timestamp(secs, nanos) {
        Some(now) => now,
        None => return None,
    };
    let earlier = now.checked_sub_signed(chrono::TimeDelta::days(i64::from(days)))?;
    Some((earlier.timestamp(), earlier.timestamp_subsec_nanos()))
}

/// The cutoff of a run started at `now_secs` (and `now_nanos`) after the Unix
/// epoch: `older_than_days` days earlier. A cutoff before the earliest date
/// that can be represented is refused rather than wrapped; 200 million days
/// or more are always refused.
pub fn resolve_cutoff(now_secs: i64, now_nanos: u32, older_than_days: u32) -> (cutoff: Result<
    (i64, u32),
    PruneError,
>)
    requires
        now_nanos < 1_000_000_000,
    ensures
        cutoff is Ok <==> days_before(now_secs, now_nanos, older_than_days) is Some,
        cutoff matches Ok((secs, nanos)) ==> secs == now_secs - 86400 * older_than_days && nanos
            == now_nanos,
        cutoff is Err ==> cutoff->Err_0 is CutoffOutOfRange,
        older_than_days >= 200_000_000 ==> cutoff is Err,
{
    match checked_days_before(now_secs, now_nanos, older_than_days) {
        Some(earlier) => Ok(earlier),
        None => Err(PruneError::CutoffOutOfRange),
    }
}

/// The manifest entry of one backup file.
#[derive(Debug)]
pub struct BackupFile {
    /// Full name of the source (comments) or bucket (emails) the file covers.
    pub resource: String,
    /// Path of the file, relative to the backup directory.
    pub file: String,
    /// Number of records written.
    pub count: usize,
    /// CRC32 over every line written, newlines included.
    pub crc32: u32,
}

/// A backup that was read back with `count` lines and checksum `crc32`
/// matches its manifest entry.
pub open spec fn integrity_holds(expected: BackupFile, count: nat, crc32: u32) -> bool {
    count == expected.count && crc32 == expected.crc32
}

/// Fails unless the count and CRC32 observed while reading the backup at
/// `path` match its manifest entry.
pub fn check_integrity(path: &str, expected: &BackupFile, count: usize, crc32: u32) -> (result:
    Result<(), PruneError>)
    ensures
        result is Ok <==> integrity_holds(*expected, count as nat, crc32),
        result matches Err(e) ==> (e matches PruneError::BackupMismatch { path: p } && p@
            == path@),
{
    if count != expected.count || crc32 != expected.crc32 {
        Err(PruneError::BackupMismatch { path: owned(path) })
    } else {
        Ok(())
    }
}

/// Verifies a backup file's line count and CRC32 against its manifest entry
/// without parsing its contents: reads `file` (the bytes of the backup at
/// `path`) back and checks what it observes.
pub fn verify_backup(file: &[u8], path: &str, expected: &BackupFile) -> (result: Result<
    (),
    PruneError,
>)
    ensures
        result is Ok <==> (exists|count: nat, crc32: u32|
            read_back_summary(file@, count, crc32) && #[trigger] integrity_holds(
                *expected,
                count,
                crc32,
            )),
        result matches Err(e) ==> (e matches PruneError::BackupMismatch { path: p } && p@
            == path@),
{
    let (count, crc32) = crc_and_count(file);
    let result = check_integrity(path, expected, count, crc32);
    proof {
        if result is Ok {
            assert(integrity_holds(*expected, count as nat, crc32));
        } else {
            assert forall|c: nat, k: u32|
                read_back_summary(file@, c, k) implies !#[trigger] integrity_holds(
                    *expected,
                    c,
                    k,
                ) by {
                let a = choose|lines: Seq<Seq<u8>>|
                    is_framing(lines) && lines.flatten() == file@ && count == lines.len()
                        && crc32 == crc32_of_lines(lines);
                let b = choose|lines: Seq<Seq<u8>>|
                    is_framing(lines) && lines.flatten() == file@ && c == lines.len() && k
                        == crc32_of_lines(lines);
                lemma_framing_is_unique(a, b);
            }
        }
    }
    result
}

/// A backup read back intact passes verification: when its manifest entry
/// holds the count and checksum the writer reported for records without
/// newlines, and the file read back holds the bytes written, the count and
/// checksum the reader observes match the entry.
pub proof fn lemma_intact_backup_verifies(
    entry: BackupFile,
    records: Seq<Seq<u8>>,
    read: Seq<Seq<u8>>,
)
    requires
        forall|i: int| 0 <= i < records.len() ==> has_no_newline(#[trigger] records[i]),
        entry.count == records.len(),
        entry.crc32 == crc32_of_lines(records.map_values(|r: Seq<u8>| framed_record(r))),
        is_framing(read),
        read.flatten() == records.map_values(|r: Seq<u8>| framed_record(r)).flatten(),
    ensures
        integrity_holds(entry, read.len(), crc32_of_lines(read)),
{
    let written = records.map_values(|r: Seq<u8>| framed_record(r));
    assert(all_complete(written)) by {
        assert forall|i: int| 0 <= i < written.len() implies #[trigger] framing::is_complete_line(
            written[i],
        ) by {
            lemma_framed_record_is_complete(records[i]);
        }
    }
    lemma_read_back_matches_written(written, read);
}

/// A backup whose count or checksum differs from its manifest entry fails
/// verification, and the error names its path.
pub proof fn lemma_mismatch_is_refused(entry: BackupFile, count: nat, crc32: u32)
    requires
        count != entry.count || crc32 != entry.crc32,
    ensures
        !integrity_holds(entry, count, crc32),
{
}

/// Summary of a prune run: per-file counts and checksums, not the ids.
pub struct Manifest {
    /// Identifier of the run, its start time in UTC.
    pub run_id: String,
    /// Data older than this instant (seconds since the Unix epoch) is pruned.
    pub cutoff: i64,
    /// Whether annotated comments are deleted too.
    pub include_annotated: bool,
    /// The mailbox the run is restricted to, if any.
    pub mailbox: Option<String>,
    /// Full names of the datasets in scope.
    pub datasets: Vec<String>,
    /// Backups of the annotated comments of each in-scope dataset and source.
    pub annotation_backups: Vec<BackupFile>,
    /// Backups of the comments to delete, one per source.
    pub comment_backups: Vec<BackupFile>,
    /// Backups of the emails to delete, one per bucket.
    pub email_backups: Vec<BackupFile>,
    /// Number of comments to delete.
    pub comment_count: usize,
    /// Number of emails to delete.
    pub email_count: usize,
}

} // verus!
