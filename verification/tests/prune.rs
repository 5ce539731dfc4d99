use reinfer_cli::commands::prune::checksum::BackupTally;
use reinfer_cli::commands::prune::batches::{IdBatcher, DELETION_BATCH_SIZE};
use reinfer_cli::commands::prune::framing::{
    crc_and_count, BackupReader, BackupWriter, LineSplitter,
};
use reinfer_cli::ids::{BucketId, CommentId, CommentUid, DatasetId, SourceId};
use reinfer_cli::commands::prune::mailbox::{
    comment_in_mailbox, eq_ignore_ascii_case, should_back_up_comment, Comment, PropertyMap,
    PropertyValue,
};
use reinfer_cli::commands::prune::paths::{
    annotation_backup_file, comment_backup_file, email_backup_file,
};
use reinfer_cli::commands::prune::session::{Step, VerifyThenDelete};
use reinfer_cli::commands::prune::{
    check_integrity, decide, validate_args, verify_backup, BackupFile, Manifest, PruneArgs, PruneError,
};

fn args(older_than_days: u32) -> PruneArgs {
    PruneArgs {
        datasets: vec![],
        older_than_days,
        include_annotated: false,
        mailbox: None,
        backup_dir: String::new(),
        dry_run: false,
        yes: false,
        no_progress: false,
    }
}

/// Frames each record with a `BackupWriter`, returning the file's bytes and
/// the writer's (count, crc32).
fn write_backup(records: &[Vec<u8>]) -> (Vec<u8>, usize, u32) {
    let mut writer = BackupWriter::create();
    let mut file = Vec::new();
    for record in records {
        file.extend(writer.write_record(record));
    }
    let (count, crc32) = writer.finish();
    (file, count, crc32)
}

fn id_records(ids: &[&str]) -> Vec<Vec<u8>> {
    ids.iter()
        .map(|id| format!("{{\"id\":\"{id}\"}}").into_bytes())
        .collect()
}

/// Reads `file` back in chunks of `chunk` bytes: every line, then the count
/// and CRC32 over all of them.
fn read_backup(file: &[u8], chunk: usize) -> (Vec<Vec<u8>>, usize, u32) {
    let mut reader = BackupReader::new();
    let mut lines = Vec::new();
    for piece in file.chunks(chunk) {
        lines.extend(reader.feed(piece));
    }
    let (rest, count, crc32) = reader.finish();
    lines.extend(rest);
    (lines, count, crc32)
}

fn backup_file(count: usize, crc32: u32) -> BackupFile {
    BackupFile {
        resource: "owner/thing".to_owned(),
        file: "f.jsonl".to_owned(),
        count,
        crc32,
    }
}

fn line_id(line: &[u8]) -> Option<String> {
    let value: serde_json::Value = serde_json::from_slice(line).ok()?;
    value.get("id")?.as_str().map(str::to_owned)
}

/// Streams `file` as the delete pass does: reads every line, parses its id and
/// hands the ids out in deletion batches; fails on a corrupt line or on a
/// count or checksum that does not match `expected`.
fn verified_batches(file: &[u8], expected: &BackupFile) -> Result<Vec<Vec<String>>, PruneError> {
    let (lines, count, crc32) = read_backup(file, 7);
    let mut batcher = IdBatcher::new();
    let mut batches = Vec::new();
    for line in &lines {
        let id = line_id(line).ok_or(PruneError::CorruptBackupLine {
            path: "f.jsonl".to_owned(),
        })?;
        if let Some(batch) = batcher.push(id) {
            batches.push(batch);
        }
    }
    if let Some(batch) = batcher.finish() {
        batches.push(batch);
    }
    check_integrity("f.jsonl", expected, count, crc32)?;
    Ok(batches)
}

#[test]
fn decide_accepts_yes_and_aborts_on_no() {
    assert!(decide(true).is_ok());
    let err = decide(false).unwrap_err();
    assert!(err.message().contains("Prune aborted by user."), "{}", err.message());
}

#[test]
fn validate_args_requires_at_least_one_dataset() {
    let err = validate_args(&args(7)).unwrap_err();
    assert!(err.message().contains("At least one dataset"), "{}", err.message());

    let mut with_dataset = args(7);
    with_dataset.datasets = vec!["owner/name".to_owned()];
    assert!(validate_args(&with_dataset).is_ok());
}

#[test]
fn annotation_backups_are_one_file_per_dataset_and_source() {
    let d1 = DatasetId("d1".to_owned());
    let d2 = DatasetId("d2".to_owned());
    let s1 = SourceId("s1".to_owned());
    let s2 = SourceId("s2".to_owned());

    assert_ne!(
        annotation_backup_file(&d1, &s1),
        annotation_backup_file(&d1, &s2)
    );
    assert_ne!(
        annotation_backup_file(&d1, &s1),
        annotation_backup_file(&d2, &s1)
    );

    assert_eq!(annotation_backup_file(&d1, &s1), "annotations/d1/s1.jsonl");
    assert_eq!(comment_backup_file(&s1), "deleted-comments/s1.jsonl");
    assert_eq!(
        email_backup_file(&BucketId("b1".to_owned())),
        "deleted-emails/b1.jsonl"
    );
    assert!(annotation_backup_file(&d1, &s1).ends_with("/s1.jsonl"));
    assert!(comment_backup_file(&s1).ends_with("/s1.jsonl"));
}

fn comment_with_mailbox(mailbox: Option<&str>) -> Comment {
    let mut properties = PropertyMap::new();
    if let Some(mailbox) = mailbox {
        properties.insert(
            "Mailbox ID".to_owned(),
            PropertyValue::String(mailbox.to_owned()),
        );
    }
    Comment {
        id: CommentId("c1".to_owned()),
        uid: CommentUid("src.c1".to_owned()),
        user_properties: properties,
    }
}

#[test]
fn comment_in_mailbox_matches_property_case_insensitively() {
    let comment = comment_with_mailbox(Some("Sales@Example.com"));
    assert!(comment_in_mailbox(&comment, "Sales@Example.com"));
    assert!(comment_in_mailbox(&comment, "sales@example.com"));
    assert!(!comment_in_mailbox(&comment, "support@example.com"));
}

#[test]
fn comment_in_mailbox_is_false_without_the_property() {
    let comment = comment_with_mailbox(None);
    assert!(!comment_in_mailbox(&comment, "sales@example.com"));
}

#[test]
fn comment_in_mailbox_is_false_for_number_typed_property() {
    let mut properties = PropertyMap::new();
    properties.insert("Mailbox ID".to_owned(), PropertyValue::Number);
    let comment = Comment {
        id: CommentId("c1".to_owned()),
        uid: CommentUid("src.c1".to_owned()),
        user_properties: properties,
    };
    assert!(!comment_in_mailbox(&comment, "42"));
}

#[test]
fn property_map_insert_replaces_and_get_finds() {
    let mut properties = PropertyMap::new();
    assert!(properties.get("Mailbox ID").is_none());
    properties.insert("Other".to_owned(), PropertyValue::Number);
    properties.insert(
        "Mailbox ID".to_owned(),
        PropertyValue::String("a@x.com".to_owned()),
    );
    properties.insert(
        "Mailbox ID".to_owned(),
        PropertyValue::String("b@x.com".to_owned()),
    );
    match properties.get("Mailbox ID") {
        Some(PropertyValue::String(value)) => assert_eq!(value, "b@x.com"),
        _ => panic!("the latest value is stored"),
    }
    assert!(matches!(properties.get("Other"), Some(PropertyValue::Number)));
}

#[test]
fn ascii_case_folding_leaves_other_characters_alone() {
    assert!(eq_ignore_ascii_case("ABC-xyz", "abc-XYZ"));
    assert!(!eq_ignore_ascii_case("abc", "abcd"));
    assert!(eq_ignore_ascii_case("Ünïcode", "Ünïcode"));
    assert!(!eq_ignore_ascii_case("Ü", "ü"));
    assert!(!eq_ignore_ascii_case("[", "{"));
}

#[test]
fn deletion_set_keeps_annotated_and_out_of_mailbox_comments() {
    let inside = comment_with_mailbox(Some("sales@x.com"));
    let outside = comment_with_mailbox(None);
    assert!(should_back_up_comment(&inside, false, false, None));
    assert!(!should_back_up_comment(&inside, false, true, None));
    assert!(should_back_up_comment(&inside, true, true, None));
    assert!(should_back_up_comment(&inside, false, false, Some("SALES@x.com")));
    assert!(!should_back_up_comment(&outside, false, false, Some("sales@x.com")));
    assert!(should_back_up_comment(&outside, false, false, None));
}

#[test]
fn reader_reproduces_writer_count_and_checksum() {
    let records = id_records(&["one", "two"]);
    let (file, count, crc32) = write_backup(&records);
    assert_eq!(file, b"{\"id\":\"one\"}\n{\"id\":\"two\"}\n".to_vec());
    for chunk in [1, 2, 5, 13, 1000] {
        let (lines, read_count, read_crc32) = read_backup(&file, chunk);
        assert_eq!((read_count, read_crc32), (count, crc32));
        assert_eq!(lines.len(), 2);
    }
    assert_eq!(crc32, crc32fast::hash(&file));
}

#[test]
fn reader_keeps_a_final_line_without_newline() {
    let mut splitter = LineSplitter::new();
    let lines = splitter.feed(b"a\nbc\nd");
    assert_eq!(lines, vec![b"a\n".to_vec(), b"bc\n".to_vec()]);
    assert_eq!(splitter.finish(), Some(b"d".to_vec()));

    let mut splitter = LineSplitter::new();
    assert!(splitter.feed(b"").is_empty());
    assert_eq!(splitter.finish(), None);
}

#[test]
fn backup_round_trips_in_bounded_batches() {
    let ids: Vec<String> = (0..70).map(|i| format!("e{i}")).collect();
    let id_refs: Vec<&str> = ids.iter().map(String::as_str).collect();
    let (file, count, crc32) = write_backup(&id_records(&id_refs));
    assert_eq!(count, 70);

    let batches = verified_batches(&file, &backup_file(count, crc32)).unwrap();
    let seen: Vec<String> = batches.iter().flatten().cloned().collect();
    assert_eq!(seen, ids, "every id is read back in order");
    assert!(batches.len() >= 3, "70 ids span multiple batches");
    assert!(batches.iter().all(|batch| batch.len() <= DELETION_BATCH_SIZE));
    assert_eq!(
        batches.iter().map(Vec::len).collect::<Vec<_>>(),
        vec![32, 32, 6]
    );
}

#[test]
fn backup_with_no_records_gives_no_batch() {
    let (file, count, crc32) = write_backup(&[]);
    assert_eq!(count, 0);
    assert!(file.is_empty());
    let batches = verified_batches(&file, &backup_file(count, crc32)).unwrap();
    assert!(batches.is_empty(), "no delete batch issued for an empty backup");
}

#[test]
fn checksum_or_count_mismatch_fails_verification() {
    let (file, count, crc32) = write_backup(&id_records(&["a", "b"]));
    let crc_mismatch = verified_batches(&file, &backup_file(count, crc32.wrapping_add(1)));
    let count_mismatch = verified_batches(&file, &backup_file(count + 1, crc32));
    for result in [crc_mismatch, count_mismatch] {
        match result {
            Err(error @ PruneError::BackupMismatch { .. }) => assert_eq!(
                error.message(),
                "Backup `f.jsonl` failed verification (count/checksum mismatch with the manifest)"
            ),
            _ => panic!("a mismatch must fail verification"),
        }
    }
}

#[test]
fn corrupt_line_fails_even_when_checksum_matches() {
    let file = b"{\"id\":\"ok\"}\nnot json\n".to_vec();
    let (_, count, crc32) = read_backup(&file, 4);
    assert_eq!(count, 2);
    match verified_batches(&file, &backup_file(count, crc32)) {
        Err(error @ PruneError::CorruptBackupLine { .. }) => {
            assert_eq!(error.message(), "Corrupt backup line in `f.jsonl`")
        }
        _ => panic!("a corrupt line must fail verification"),
    }
}

fn manifest_with(
    comment_backups: Vec<BackupFile>,
    email_backups: Vec<BackupFile>,
    annotation_backups: Vec<BackupFile>,
) -> Manifest {
    Manifest {
        run_id: "run".to_owned(),
        cutoff: 1_704_067_200,
        include_annotated: false,
        mailbox: None,
        datasets: vec![],
        annotation_backups,
        comment_backups,
        email_backups,
        comment_count: 0,
        email_count: 0,
    }
}

/// Runs a verify-then-delete pass where `intact(kind, index)` says whether a
/// verification succeeds; returns every step carried out, in order.
fn run_pass(manifest: &Manifest, intact: impl Fn(&Step) -> bool) -> (Vec<String>, bool) {
    let mut pass = VerifyThenDelete::new(manifest);
    let mut steps = Vec::new();
    let mut failed = false;
    while let Some(step) = pass.next_step() {
        let name = match &step {
            Step::VerifyAnnotationBackup(i) => format!("verify annotations {i}"),
            Step::VerifyCommentBackup(i) => format!("verify comments {i}"),
            Step::VerifyEmailBackup(i) => format!("verify emails {i}"),
            Step::DeleteFromCommentBackup(i) => format!("delete comments {i}"),
            Step::DeleteFromEmailBackup(i) => format!("delete emails {i}"),
        };
        let ok = intact(&step);
        failed |= !ok;
        steps.push(name);
        pass.record(ok);
    }
    (steps, failed)
}

#[test]
fn verify_then_delete_deletes_every_backup_when_intact() {
    let manifest = manifest_with(
        vec![backup_file(2, 1), backup_file(1, 2)],
        vec![backup_file(2, 3)],
        vec![backup_file(1, 4)],
    );
    let (steps, failed) = run_pass(&manifest, |_| true);
    assert!(!failed);
    assert_eq!(
        steps,
        vec![
            "verify annotations 0",
            "verify comments 0",
            "verify comments 1",
            "verify emails 0",
            "delete comments 0",
            "delete comments 1",
            "delete emails 0",
        ]
    );
}

#[test]
fn verify_then_delete_stops_before_any_delete_when_a_later_backup_is_corrupt() {
    let manifest = manifest_with(
        vec![backup_file(2, 1), backup_file(1, 2)],
        vec![backup_file(1, 3)],
        vec![backup_file(1, 4)],
    );
    for corrupt in [
        Step::VerifyCommentBackup(1),
        Step::VerifyEmailBackup(0),
        Step::VerifyAnnotationBackup(0),
    ] {
        let (steps, failed) = run_pass(&manifest, |step| step != &corrupt);
        assert!(failed);
        assert!(
            steps.iter().all(|step| step.starts_with("verify")),
            "no deletion after a failed verification: {steps:?}"
        );
    }
}

#[test]
fn verify_then_delete_with_no_backups_does_nothing() {
    let manifest = manifest_with(vec![], vec![], vec![]);
    let (steps, _) = run_pass(&manifest, |_| true);
    assert!(steps.is_empty());
}

use reinfer_cli::commands::prune::prompt::confirm_prompt;

const SAMPLE_CUTOFF: &str = "2024-01-01T00:00:00Z";

#[test]
fn confirm_prompt_default_is_whole_bucket_and_keeps_annotated() {
    let datasets = vec!["owner/a".to_owned(), "owner/b".to_owned()];
    let prompt = confirm_prompt(&datasets, 3, 2, SAMPLE_CUTOFF, false, None);
    assert!(prompt.contains("2 dataset(s): owner/a, owner/b"));
    assert!(prompt.contains("3 source(s) and 2 bucket(s)"));
    assert!(prompt.contains("whole-bucket by age"));
    assert!(!prompt.contains("restricted to mailbox"));
    assert!(!prompt.contains("Annotated comments will be deleted too"));
    assert!(prompt.contains("attachment content is not backed up"));
    assert!(prompt.contains("a project you can't access"));
    assert!(prompt.contains("out of scope"));
    assert!(prompt.contains("their comments are NOT deleted"));
    assert!(prompt.contains("restore is manual"));
}

#[test]
fn confirm_prompt_mailbox_adds_restriction_and_caveat() {
    let datasets = vec!["owner/a".to_owned()];
    let prompt = confirm_prompt(&datasets, 1, 1, SAMPLE_CUTOFF, false, Some("sales@x.com"));
    assert!(prompt.contains("in mailbox `sales@x.com`"));
    assert!(prompt.contains("Email deletion is restricted to mailbox `sales@x.com`"));
    assert!(prompt.contains("`Mailbox ID` user property"));
    assert!(!prompt.contains("whole-bucket by age"));
}

#[test]
fn confirm_prompt_include_annotated_adds_warning() {
    let datasets = vec!["owner/a".to_owned()];
    let prompt = confirm_prompt(&datasets, 1, 0, SAMPLE_CUTOFF, true, None);
    assert!(prompt.contains("Annotated comments will be deleted too"));
    assert!(prompt.contains("datasets you can't access"));
    assert!(prompt.contains("annotations are NOT backed up"));
    let without = confirm_prompt(&datasets, 1, 0, SAMPLE_CUTOFF, false, None);
    assert!(!without.contains("Annotated comments will be deleted too"));
}

#[test]
fn confirm_prompt_full_text_with_mailbox() {
    let datasets = vec!["owner/a".to_owned(), "owner/b".to_owned()];
    let prompt = confirm_prompt(&datasets, 12, 0, SAMPLE_CUTOFF, true, Some("m@x.com"));
    let expected = "About to back up and then delete comments and emails dated before 2024-01-01T00:00:00Z in mailbox `m@x.com` from 12 source(s) and 0 bucket(s) across 2 dataset(s): owner/a, owner/b.\n\nAnnotated comments will be deleted too (--include-annotated), including ones annotated only in datasets you can't access — whose annotations are NOT backed up.\n\nWARNING:\n  - Comment attachment content is not backed up — only attachment metadata.\n  - A comment is kept only if it's annotated in a dataset you listed. A comment annotated only\n    in a dataset you can't access is treated as un-annotated: it is deleted, and that annotation\n    is NOT backed up.\n  - Email deletion is restricted to mailbox `m@x.com`: only emails in that mailbox dated before the cutoff are deleted.\n  - Comments are matched to the mailbox via their `Mailbox ID` user property (written by email\n    parsing when mailbox-id injection is enabled). A comment without it is treated as not in\n    mailbox `m@x.com` and is kept — so if injection was off for these sources, NO comments are deleted.\n  - Only datasets you can read are checked for shared sources. If an in-scope source also belongs\n    to a dataset in a project you can't access, that dataset loses the comments deleted here.\n  - Sources not in any listed dataset are out of scope — their comments are NOT deleted, even if\n    their bucket's emails are.\n\nThe backup is your only way to undo this, and it contains personal data. Write it somewhere secure and keep it safe — restore is manual, via `re create comments` / `re create emails`.\n\nThe backup is written before anything is deleted. Proceed?";
    assert_eq!(prompt, expected);
}

/// The prompt written as a single `format!` template, to compare with.
fn reference_prompt(
    datasets: &[String],
    sources: usize,
    buckets: usize,
    cutoff: &str,
    include_annotated: bool,
    mailbox: Option<&str>,
) -> String {
    let datasets_count = datasets.len();
    let datasets = datasets.join(", ");
    let annotated_note = if include_annotated {
        "\n\nAnnotated comments will be deleted too (--include-annotated), including ones annotated \
         only in datasets you can't access — whose annotations are NOT backed up."
    } else {
        ""
    };
    let (mailbox_clause, email_bullet, mailbox_bullet) = match mailbox {
        Some(mailbox) => (
            format!(" in mailbox `{mailbox}`"),
            format!(
                "Email deletion is restricted to mailbox `{mailbox}`: only emails in that mailbox \
                 dated before the cutoff are deleted."
            ),
            format!(
                "\n  - Comments are matched to the mailbox via their `Mailbox ID` user property \
                 (written by email\n    parsing when mailbox-id injection is enabled). A comment \
                 without it is treated as not in\n    mailbox `{mailbox}` and is kept — so if \
                 injection was off for these sources, NO comments are deleted."
            ),
        ),
        None => (
            String::new(),
            "Email deletion is whole-bucket by age: every email before the cutoff is deleted from \
             each\n    bucket, including emails feeding other sources or datasets — in scope or not."
                .to_owned(),
            String::new(),
        ),
    };
    format!(
        "About to back up and then delete comments and emails dated before {cutoff}{mailbox_clause} \
from {sources} source(s) and {buckets} bucket(s) across {datasets_count} dataset(s): \
{datasets}.{annotated_note}

WARNING:
  - Comment attachment content is not backed up — only attachment metadata.
  - A comment is kept only if it's annotated in a dataset you listed. A comment annotated only
    in a dataset you can't access is treated as un-annotated: it is deleted, and that annotation
    is NOT backed up.
  - {email_bullet}{mailbox_bullet}
  - Only datasets you can read are checked for shared sources. If an in-scope source also belongs
    to a dataset in a project you can't access, that dataset loses the comments deleted here.
  - Sources not in any listed dataset are out of scope — their comments are NOT deleted, even if
    their bucket's emails are.

The backup is your only way to undo this, and it contains personal data. Write it somewhere secure \
and keep it safe — restore is manual, via `re create comments` / `re create emails`.

The backup is written before anything is deleted. Proceed?"
    )
}

#[test]
fn confirm_prompt_matches_the_template_in_every_branch() {
    let one = vec!["owner/a".to_owned()];
    let two = vec!["owner/a".to_owned(), "owner/b".to_owned()];
    for datasets in [&one, &two] {
        for include_annotated in [false, true] {
            for mailbox in [None, Some("sales@x.com")] {
                assert_eq!(
                    confirm_prompt(datasets, 3, 1_000, SAMPLE_CUTOFF, include_annotated, mailbox),
                    reference_prompt(datasets, 3, 1_000, SAMPLE_CUTOFF, include_annotated, mailbox)
                );
            }
        }
    }
}

use reinfer_cli::commands::prune::resolve_cutoff;

fn now() -> (i64, u32) {
    let now = chrono::Utc::now();
    (now.timestamp(), now.timestamp_subsec_nanos())
}

#[test]
fn cutoff_older_than_days_is_in_the_past() {
    let (secs, nanos) = now();
    let (cutoff, _) = resolve_cutoff(secs, nanos, 7).unwrap();
    let now = chrono::Utc::now().timestamp();
    assert!(cutoff < now);
    assert!(cutoff > now - 8 * 86_400);
    assert!(cutoff <= now - 7 * 86_400 + 60);
}

#[test]
fn cutoff_older_than_zero_days_is_about_now() {
    let before = chrono::Utc::now().timestamp();
    let (secs, nanos) = now();
    let (cutoff, _) = resolve_cutoff(secs, nanos, 0).unwrap();
    let after = chrono::Utc::now().timestamp();
    assert!(cutoff >= before && cutoff <= after);
}

#[test]
fn cutoff_with_huge_older_than_days_errors_instead_of_panicking() {
    let (secs, nanos) = now();
    match resolve_cutoff(secs, nanos, u32::MAX) {
        Err(error) => assert_eq!(
            error.message(),
            "`--older-than-days` is too large: the cutoff date is out of range"
        ),
        Ok(_) => panic!("the cutoff must be out of range"),
    }
}

#[test]
fn cutoff_is_whole_days_earlier() {
    assert_eq!(resolve_cutoff(1_704_067_200, 5, 2).unwrap(), (1_703_894_400, 5));
}


#[test]
fn tally_checksum_is_the_standard_crc32() {
    let mut tally = BackupTally::new();
    tally.add_line(b"123456789");
    assert_eq!(tally.count(), 1);
    assert_eq!(tally.crc32(), 0xCBF4_3926);
    let mut split = BackupTally::new();
    split.add_line(b"1234");
    split.add_line(b"56789");
    assert_eq!(split.count(), 2);
    assert_eq!(split.crc32(), 0xCBF4_3926);
    assert_eq!(BackupTally::new().crc32(), 0);
}


#[test]
fn crc_and_count_matches_backup_writer() {
    let (file, count, crc32) = write_backup(&id_records(&["one", "two"]));
    // Reading the file back must reproduce the writer's count and checksum.
    assert_eq!(crc_and_count(&file), (count, crc32));
}

#[test]
fn verify_backup_checks_crc_and_count() {
    let (file, count, crc32) = write_backup(&id_records(&["x", "y", "z"]));
    assert_eq!(count, 3);
    assert!(verify_backup(&file, "f.jsonl", &backup_file(count, crc32)).is_ok());
    assert!(verify_backup(&file, "f.jsonl", &backup_file(count, crc32.wrapping_add(1))).is_err());
    assert!(verify_backup(&file, "f.jsonl", &backup_file(count + 1, crc32)).is_err());
}
