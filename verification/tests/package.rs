use reinfer_cli::commands::package::download::should_package_batch_of_documents;
use reinfer_cli::commands::package::upload::{
    dataset_is_listed, is_project_not_found_error, parse_dataset_full_name, should_upload_batch, DatasetOrOwnerName,
};
use reinfer_cli::commands::package::{
    get_comment_batch_count_for_source, get_document_count,
    get_filenames_with_postfix_and_extension, AttachmentKey, CommentBatchKey, PackageContentId,
};
use reinfer_cli::ids::{CommentId, DatasetId, SourceId};

#[test]
fn package_files_are_named_by_kind() {
    let dataset_id = DatasetId("d1".to_owned());
    let source_id = SourceId("s1".to_owned());
    let comment_id = CommentId("c9".to_owned());
    let key = AttachmentKey(3);
    assert_eq!(
        PackageContentId::Dataset { dataset_id: &dataset_id }.filename(),
        "datasets/d1.dataset.json"
    );
    assert_eq!(
        PackageContentId::Source { source_id: &source_id }.filename(),
        "sources/s1.source.json"
    );
    assert_eq!(
        PackageContentId::CommentBatch { key: CommentBatchKey(12), source_id: &source_id }
            .filename(),
        "comments/s1.12.comments.json"
    );
    let with_extension = PackageContentId::Document {
        source_id: &source_id,
        comment_id: &comment_id,
        key: &key,
        extension: Some("pdf".to_owned()),
    };
    assert_eq!(with_extension.filename(), "documents/s1.c9.3.document.pdf");
    assert_eq!(
        with_extension.friendly_name(),
        "pdf attachment for comment c9, in source s1 with key 3"
    );
    let without_extension = PackageContentId::Document {
        source_id: &source_id,
        comment_id: &comment_id,
        key: &key,
        extension: None,
    };
    assert_eq!(without_extension.filename(), "s1.c9.3.document");
    assert_eq!(
        without_extension.friendly_name(),
        "attachment for comment c9, in source s1 with key 3"
    );
    assert_eq!(
        PackageContentId::CommentBatch { key: CommentBatchKey(0), source_id: &source_id }
            .friendly_name(),
        "comment batch 0 for source s1"
    );
    assert_eq!(PackageContentId::Dataset { dataset_id: &dataset_id }.friendly_name(), "dataset d1");
    assert_eq!(PackageContentId::Source { source_id: &source_id }.friendly_name(), "source s1");
}

#[test]
fn package_contents_are_found_by_name() {
    let names: Vec<String> = [
        "datasets/d1.dataset.json",
        "sources/s1.source.json",
        "comments/s1.0.comments.json",
        "comments/s1.1.comments.json",
        "comments/s10.0.comments.json",
        "comments/s2.0.comments.json",
        "documents/s1.c1.0.document.pdf",
        "documents/s1.c2.0.document",
        "s1.c3.0.document",
    ]
    .iter()
    .map(|name| name.to_string())
    .collect();
    assert_eq!(
        get_filenames_with_postfix_and_extension(&names, "dataset.json"),
        vec!["datasets/d1.dataset.json".to_owned()]
    );
    assert_eq!(get_comment_batch_count_for_source(&names, &SourceId("s1".to_owned())), 3);
    assert_eq!(get_comment_batch_count_for_source(&names, &SourceId("s2".to_owned())), 1);
    assert_eq!(get_document_count(&names), 2);
}

#[test]
fn dataset_full_names_have_one_slash() {
    assert_eq!(parse_dataset_full_name("owner/name").unwrap(), ("owner", "name"));
    assert_eq!(parse_dataset_full_name("/").unwrap(), ("", ""));
    assert_eq!(
        parse_dataset_full_name("owner").unwrap_err(),
        "Invalid dataset full name format: owner"
    );
    assert!(parse_dataset_full_name("a/b/c").is_err());
}

#[test]
fn batches_upload_once_the_memory_budget_is_reached() {
    assert!(!should_upload_batch(&[], 1));
    assert!(should_upload_batch(&[], 0));
    assert!(!should_upload_batch(&[999_999], 1));
    assert!(should_upload_batch(&[600_000, 400_000], 1));
    assert!(should_package_batch_of_documents(&[256_000_000], 256));
    assert!(!should_package_batch_of_documents(&[255_999_999], 256));
}

#[test]
fn project_not_found_is_recognised_in_messages() {
    assert!(is_project_not_found_error("API error: No such project `x`"));
    assert!(!is_project_not_found_error("No such dataset"));
    assert!(!is_project_not_found_error(""));
}

#[test]
fn dataset_or_owner_names_are_kept_as_given() {
    let name = DatasetOrOwnerName::from_text("acme");
    assert_eq!(name.to_dataset_name(), "acme");
    assert_eq!(name.to_project_name(), "acme");
}

#[test]
fn distinct_package_contents_get_distinct_files() {
    let s1 = SourceId("s1".to_owned());
    let s2 = SourceId("s2".to_owned());
    let c1 = CommentId("c1".to_owned());
    let (k1, k2) = (AttachmentKey(1), AttachmentKey(12));
    let d1 = DatasetId("s1".to_owned());
    let names = vec![
        PackageContentId::Dataset { dataset_id: &d1 }.filename(),
        PackageContentId::Source { source_id: &s1 }.filename(),
        PackageContentId::CommentBatch { key: CommentBatchKey(1), source_id: &s1 }.filename(),
        PackageContentId::CommentBatch { key: CommentBatchKey(12), source_id: &s1 }.filename(),
        PackageContentId::CommentBatch { key: CommentBatchKey(1), source_id: &s2 }.filename(),
        PackageContentId::Document {
            source_id: &s1,
            comment_id: &c1,
            key: &k1,
            extension: Some("pdf".to_owned()),
        }
        .filename(),
        PackageContentId::Document { source_id: &s1, comment_id: &c1, key: &k2, extension: None }
            .filename(),
        PackageContentId::Document { source_id: &s1, comment_id: &c1, key: &k1, extension: None }
            .filename(),
    ];
    for (i, a) in names.iter().enumerate() {
        for b in &names[i + 1..] {
            assert_ne!(a, b);
        }
    }
    assert_eq!(
        std::path::Path::new(&names[5]).parent(),
        Some(std::path::Path::new("documents"))
    );
}

#[test]
fn a_dataset_is_found_by_its_full_name() {
    let datasets = vec![
        ("acme".to_owned(), "sales".to_owned()),
        ("acme".to_owned(), "support".to_owned()),
    ];
    assert!(dataset_is_listed(&datasets, "acme", "support"));
    assert!(!dataset_is_listed(&datasets, "acme", "legal"));
    assert!(!dataset_is_listed(&datasets, "other", "sales"));
    assert!(!dataset_is_listed(&[], "acme", "sales"));
}
