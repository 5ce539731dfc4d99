use reinfer_cli::commands::parse::aic_classification_csv::should_send_comments;
use reinfer_cli::commands::parse::msgs::{
    get_attachment_store_path, read_unicode_stream, remove_content_headers,
};
use reinfer_cli::commands::parse::pff::{FolderPath, LibPffAttachmentType};
use reinfer_cli::commands::parse::pff_sys::{LibPffEntryType, LibPffEntryValueFlags};
use reinfer_cli::commands::task::take_more_labels::{
    make_labellings_lookup, merge_assigned_labels, transfer_label_name, AnnotatedComment, Label,
    Labelling, Sentiment,
};
use reinfer_cli::errors::ErrorKind;
use reinfer_cli::printer::{OutputFormat, Printer};
use reinfer_cli::progress::Options;
use reinfer_cli::thousands::decimal_text;

#[test]
fn output_formats_parse_and_default_to_table() {
    assert_eq!(OutputFormat::parse("table"), Ok(OutputFormat::Table));
    assert_eq!(OutputFormat::parse("json"), Ok(OutputFormat::Json));
    assert_eq!(OutputFormat::parse("yaml"), Err("yaml".to_owned()));
    assert_eq!("json".parse::<OutputFormat>(), Ok(OutputFormat::Json));
    assert_eq!(OutputFormat::default(), OutputFormat::Table);
    assert_eq!(Printer::new(OutputFormat::Json).output(), OutputFormat::Json);
    assert_eq!(Printer::default().output(), OutputFormat::Table);
    assert!(Options::default().bytes_units);
}

#[test]
fn error_kinds_read_as_messages() {
    assert_eq!(ErrorKind::Input("bad".to_owned()).message(), "Input error: bad");
    assert_eq!(ErrorKind::UnknownShell("fish".to_owned()).message(), "Unknown shell `fish`");
    assert_eq!(
        ErrorKind::Unknown("x".to_owned()).message(),
        "An unknown error has occurred: x"
    );
    assert_eq!(ErrorKind::Client("c".to_owned()).message(), "c");
}

#[test]
fn attachment_stores_are_numbered_with_eight_digits() {
    assert_eq!(get_attachment_store_path(0), "__attach_version1.0_#00000000");
    assert_eq!(get_attachment_store_path(42), "__attach_version1.0_#00000042");
    assert_eq!(get_attachment_store_path(123_456_789), "__attach_version1.0_#123456789");
}

#[test]
fn content_headers_are_removed() {
    let headers = "Subject: hi\nContent-Type: text/plain;\n charset=utf-8\nContent-Transfer-Encoding: 7bit\n quoted\nTo: a@b.c\n";
    assert_eq!(remove_content_headers(headers.to_owned()), "Subject: hi\nTo: a@b.c\n");
    assert_eq!(remove_content_headers("To: a@b.c\n".to_owned()), "To: a@b.c\n");
}

#[test]
fn utf16_streams_are_decoded() {
    let data: Vec<u8> = "héllo".encode_utf16().flat_map(|unit| unit.to_le_bytes()).collect();
    assert_eq!(read_unicode_stream(&data), "héllo");
    assert_eq!(read_unicode_stream(&[]), "");
}

#[test]
fn comments_are_sent_when_workers_would_be_full() {
    assert!(should_send_comments(0, 4, true));
    assert!(!should_send_comments(512, 4, false));
    assert!(should_send_comments(513, 4, false));
}

#[test]
fn folder_paths_grow_from_the_root() {
    let root = FolderPath::root();
    assert!(root.is_root());
    let inbox = root.sub_path("Inbox".to_owned());
    let nested = inbox.sub_path("2024".to_owned());
    assert!(!inbox.is_root());
    assert_eq!(nested.0, vec!["Inbox".to_owned(), "2024".to_owned()]);
}

#[test]
fn attachment_types_round_trip_through_their_codes() {
    for (code, kind) in [
        (0, LibPffAttachmentType::Undefined),
        ('d' as isize, LibPffAttachmentType::Data),
        ('i' as isize, LibPffAttachmentType::Item),
        ('r' as isize, LibPffAttachmentType::Reference),
    ] {
        assert_eq!(LibPffAttachmentType::from_isize(code), Ok(kind));
        assert_eq!(LibPffAttachmentType::from_isize(code).unwrap().code(), code);
    }
    assert_eq!(
        LibPffAttachmentType::from_isize(-7),
        Err("Unknown Attachment type -7".to_owned())
    );
    assert_eq!(LibPffEntryType::MessageTransportHeaders.code(), 0x007d);
    assert_eq!(LibPffEntryType::AttachmentFilenameLong.code(), 0x3707);
    assert_eq!(LibPffEntryValueFlags::MatchAnyValueType.code(), 0x01);
}

#[test]
fn decimal_text_matches_to_string() {
    for value in [0u64, 9, 10, 99, 100, 1_234_567, u64::MAX] {
        assert_eq!(decimal_text(value), value.to_string());
    }
}

fn label(name: &str, sentiment: Sentiment) -> Label {
    Label { name: name.to_owned(), sentiment }
}

#[test]
fn transferred_labels_are_nested_under_the_parent() {
    assert_eq!(transfer_label_name("Billing", "Imported"), "Imported > Billing");
    assert_eq!(transfer_label_name("Imported", "Imported"), "Imported");
    assert_eq!(transfer_label_name("Imported > Billing", "Imported"), "Imported > Billing");
    assert_eq!(transfer_label_name("Importedx", "Imported"), "Imported > Importedx");
}

#[test]
fn merged_labels_are_sorted_and_unique() {
    let merged = merge_assigned_labels(
        vec![label("Zeta", Sentiment::Positive), label("Imported", Sentiment::Positive)],
        vec![
            label("Billing", Sentiment::Negative),
            label("Imported > Billing", Sentiment::Negative),
            label("Alpha", Sentiment::Positive),
        ],
        "Imported",
    );
    let names: Vec<(String, Sentiment)> =
        merged.into_iter().map(|label| (label.name, label.sentiment)).collect();
    assert_eq!(
        names,
        vec![
            ("Imported".to_owned(), Sentiment::Positive),
            ("Imported > Alpha".to_owned(), Sentiment::Positive),
            ("Imported > Billing".to_owned(), Sentiment::Negative),
            ("Zeta".to_owned(), Sentiment::Positive),
        ]
    );
}

fn positive(name: &str) -> Label {
    Label { name: name.to_string(), sentiment: Sentiment::Positive }
}

fn annotated(uid: &str, assigned: Option<Vec<&str>>) -> AnnotatedComment {
    AnnotatedComment {
        uid: uid.to_string(),
        labelling: assigned.map(|names| Labelling {
            assigned: names.into_iter().map(positive).collect(),
            dismissed: Vec::new(),
        }),
    }
}

#[test]
fn lookup_keeps_comments_with_the_label_and_the_last_labelling_per_uid() {
    let comments = vec![
        annotated("1", Some(vec!["x", "target"])),
        annotated("2", Some(vec!["x"])),
        annotated("3", None),
        annotated("1", Some(vec!["target", "y"])),
        annotated("4", Some(vec!["target"])),
    ];
    let mut lookup = make_labellings_lookup(comments, "target");
    lookup.sort_by(|a, b| a.0.cmp(&b.0));
    assert_eq!(lookup.len(), 2);
    assert_eq!(lookup[0].0, "1");
    let names: Vec<&str> = lookup[0].1.assigned.iter().map(|l| l.name.as_str()).collect();
    assert_eq!(names, vec!["target", "y"]);
    assert_eq!(lookup[1].0, "4");
    assert!(make_labellings_lookup(vec![annotated("5", None)], "target").is_empty());
}

use reinfer_cli::input::{input_or_default, token_from_input};

#[test]
fn empty_answers_take_the_default() {
    assert_eq!(input_or_default("  \n", Some("https://reinfer.dev")), "https://reinfer.dev");
    assert_eq!(input_or_default(" prod \n", Some("dev")), "prod");
    assert_eq!(input_or_default("\n", None), "");
    assert_eq!(input_or_default("\tname\n", None), "name");
}

#[test]
fn an_empty_token_answer_means_no_token() {
    assert_eq!(token_from_input("\n"), None);
    assert_eq!(token_from_input("  secret \n"), Some("secret".to_owned()));
}

use reinfer_cli::commands::parse::pst::{kept_attachments, normalize_date_header, parse_date_header};

#[test]
fn date_headers_are_cut_and_unknown_zones_read_as_utc() {
    assert_eq!(
        normalize_date_header("Mon, 15 Apr 2019 14:05:23 +0000 (UTC)"),
        "Mon, 15 Apr 2019 14:05:23 +0000"
    );
    assert_eq!(
        normalize_date_header("Tue, 1 Jul 2003 10:52:37 -0000"),
        "Tue, 1 Jul 2003 10:52:37 +0000"
    );
    // A one-digit day leaves a space at the cut, which trimming removes.
    assert_eq!(
        normalize_date_header("Tue, 1 Jul 2003 10:52:37 +0000 (UTC)"),
        "Tue, 1 Jul 2003 10:52:37 +0000"
    );
    assert_eq!(normalize_date_header(" short "), "short");
    assert_eq!(parse_date_header("Mon, 15 Apr 2019 14:05:23 +0000 (UTC)"), Some(1_555_337_123));
    assert_eq!(parse_date_header("Tue, 1 Jul 2003 10:52:37 -0000"), Some(1_057_056_757));
    assert_eq!(parse_date_header("not a date"), None);
}

#[test]
fn only_data_attachments_are_kept() {
    let kinds = [
        LibPffAttachmentType::Item,
        LibPffAttachmentType::Data,
        LibPffAttachmentType::Reference,
        LibPffAttachmentType::Data,
        LibPffAttachmentType::Undefined,
    ];
    assert_eq!(kept_attachments(&kinds), vec![1, 3]);
    assert!(kept_attachments(&[LibPffAttachmentType::Item]).is_empty());
}
