use reinfer_cli::commands::get::comments::{
    label_filter_names, parse_comma_separated_values, picks_from_list, progress_target, query_page_action,
    source_page_action, take_selected_values, validate_get_many_args,
    validate_single_comment_args, GetManyCommentsArgs, GetSingleCommentArgs, PageAction,
    PROPERTY_VALUE_COUNT_CIRCUIT_BREAKER,
};
use reinfer_cli::commands::get::streams::{
    stream_batch_actions, validate_stream_stats_args, StreamAction,
};
use reinfer_cli::commands::get::users::{
    filter_users_by_project, validate_filter_arguments, UserPermissions,
};
use reinfer_cli::commands::get::custom_label_trend_report::ModelVersion;
use reinfer_cli::commands::{clean_file_name, LocalAttachmentPath};

#[test]
fn test_clean_file_name() {
    let filename = "this is a file 2024:08:07?";
    let cleaned = clean_file_name(filename.to_string());

    assert_eq!("this is a file 2024□08□07□", cleaned)
}

#[test]
fn clean_file_name_replaces_every_forbidden_character() {
    assert_eq!(clean_file_name("a/b<c>d:e\"f\\g|h?i*j".to_owned()), "a□b□c□d□e□f□g□h□i□j");
    assert_eq!(clean_file_name("ünïcödé.pdf".to_owned()), "ünïcödé.pdf");
    assert_eq!(clean_file_name(String::new()), "");
}

#[test]
fn attachment_file_name_is_index_dot_clean_name() {
    let path = LocalAttachmentPath::new(12, "report: Q1?.pdf".to_owned(), "/tmp/x".to_owned());
    assert_eq!(path.name(), "12.report□ Q1□.pdf");
    assert_eq!(path.parent_dir(), "/tmp/x");
}

fn many_args() -> GetManyCommentsArgs {
    GetManyCommentsArgs {
        source: "owner/source".to_owned(),
        dataset: None,
        no_progress: false,
        include_predictions: None,
        model_version: None,
        reviewed_only: None,
        from_timestamp: None,
        to_timestamp: None,
        senders: None,
        recipients: None,
        path: None,
        label_filter: None,
        property_filter: None,
        interactive_property_filter: false,
        attachment_type_filters: vec![],
        include_attachment_content: None,
        only_with_attachments: None,
        shuffle: None,
        stop_after: None,
    }
}

#[test]
fn get_many_rules_are_checked_in_order() {
    assert!(validate_get_many_args(&many_args()).is_ok());

    let mut args = many_args();
    args.reviewed_only = Some(true);
    args.from_timestamp = Some(0);
    assert_eq!(
        validate_get_many_args(&args).unwrap_err(),
        "The `reviewed_only` and `from/to-timestamp` options are mutually exclusive."
    );

    let mut args = many_args();
    args.reviewed_only = Some(true);
    assert_eq!(
        validate_get_many_args(&args).unwrap_err(),
        "Cannot get reviewed comments when `dataset` is not provided."
    );
    args.dataset = Some("owner/dataset".to_owned());
    assert!(validate_get_many_args(&args).is_ok());
    args.model_version = Some(3);
    assert_eq!(
        validate_get_many_args(&args).unwrap_err(),
        "The `reviewed_only` and `model_version` options are mutually exclusive."
    );

    let mut args = many_args();
    args.reviewed_only = Some(false);
    args.from_timestamp = Some(0);
    assert!(validate_get_many_args(&args).is_ok());

    let mut args = many_args();
    args.label_filter = Some(".*".to_owned());
    assert_eq!(
        validate_get_many_args(&args).unwrap_err(),
        "Cannot use a label filter when `dataset` is not provided."
    );
    args.dataset = Some("owner/dataset".to_owned());
    args.model_version = Some(1);
    assert_eq!(
        validate_get_many_args(&args).unwrap_err(),
        "The `label_filter` and `model_version` options are mutually exclusive."
    );

    let mut args = many_args();
    args.dataset = Some("owner/dataset".to_owned());
    args.property_filter = Some("{}".to_owned());
    args.interactive_property_filter = true;
    assert_eq!(
        validate_get_many_args(&args).unwrap_err(),
        "The `interative_property_filter` and `property_filter` options are mutually exclusive."
    );

    let mut args = many_args();
    args.include_attachment_content = Some(true);
    assert_eq!(
        validate_get_many_args(&args).unwrap_err(),
        "Cannot include attachment content when no file is provided"
    );

    let mut args = many_args();
    args.shuffle = Some(false);
    assert_eq!(
        validate_get_many_args(&args).unwrap_err(),
        "Cannot shuffle data when dataset is not provided"
    );

    let mut args = many_args();
    args.attachment_type_filters = vec!["pdf".to_owned()];
    assert_eq!(
        validate_get_many_args(&args).unwrap_err(),
        "Cannot use a attachment type filter when `dataset` is not provided."
    );
}

#[test]
fn single_comment_attachments_need_a_file() {
    let mut args = GetSingleCommentArgs {
        source: "owner/source".to_owned(),
        comment_id: "c1".to_owned(),
        path: None,
        include_attachment_content: Some(true),
    };
    assert_eq!(
        validate_single_comment_args(&args).unwrap_err(),
        "Cannot include attachment content when no file is provided"
    );
    args.path = Some("out.jsonl".to_owned());
    assert!(validate_single_comment_args(&args).is_ok());
}

#[test]
fn paging_stops_on_empty_pages_and_limits() {
    assert_eq!(source_page_action(0, 0, None, true), PageAction::Stop);
    assert_eq!(source_page_action(5, 10, Some(10), true), PageAction::Stop);
    assert_eq!(source_page_action(5, 9, Some(10), true), PageAction::WriteAndContinue);
    assert_eq!(source_page_action(5, 9, None, false), PageAction::WriteAndStop);
    assert_eq!(query_page_action(5, 9, None, false), PageAction::Stop);
    assert_eq!(query_page_action(5, 9, None, true), PageAction::WriteAndContinue);
    assert_eq!(progress_target(Some(10), 100), 10);
    assert_eq!(progress_target(Some(1000), 100), 100);
    assert_eq!(progress_target(None, 100), 100);
}

#[test]
fn stream_batches_are_printed_and_advanced() {
    let ids = vec!["s1".to_owned(), "s2".to_owned()];
    assert_eq!(stream_batch_actions(&[], "b", 0, false), vec![StreamAction::Wait]);
    assert_eq!(stream_batch_actions(&[], "b", 3, true), vec![StreamAction::AdvanceToBatch]);
    assert_eq!(
        stream_batch_actions(&ids, "b", 0, false),
        vec![StreamAction::Print(0), StreamAction::Print(1), StreamAction::AdvanceToBatch]
    );
    assert_eq!(
        stream_batch_actions(&ids, "s2", 0, true),
        vec![
            StreamAction::Print(0),
            StreamAction::AdvanceToResult(0),
            StreamAction::Print(1),
            StreamAction::AdvanceToResult(1),
        ]
    );
    assert_eq!(
        stream_batch_actions(&ids, "b", 0, true).last(),
        Some(&StreamAction::AdvanceToBatch)
    );
}

#[test]
fn option_combinations_of_streams_and_users() {
    assert!(validate_stream_stats_args(&None, &None).is_ok());
    assert!(validate_stream_stats_args(&None, &Some(ModelVersion(2))).is_ok());
    assert_eq!(
        validate_stream_stats_args(&Some("owner/d".to_owned()), &None).unwrap_err(),
        "You cannot provide `compare_to_dataset` without `compare_to_model_version`"
    );
    assert!(validate_filter_arguments(&Some("p".to_owned()), &Some("read".to_owned())).is_ok());
    assert_eq!(
        validate_filter_arguments(&None, &Some("read".to_owned())).unwrap_err(),
        "You cannot filter on `permission` without a `project`"
    );
}

fn owned_strings(items: &[&str]) -> Vec<String> {
    items.iter().map(|item| item.to_string()).collect()
}

#[test]
fn typed_values_are_lowercased_split_and_trimmed() {
    assert_eq!(
        parse_comma_separated_values(" Foo , BAR,baz "),
        owned_strings(&["foo", "bar", "baz"])
    );
    assert_eq!(parse_comma_separated_values(""), owned_strings(&[""]));
    assert_eq!(parse_comma_separated_values("a,,b"), owned_strings(&["a", "", "b"]));
    assert_eq!(parse_comma_separated_values("\tX\n"), owned_strings(&["x"]));
}

#[test]
fn selected_values_are_taken_and_removed_in_turn() {
    let mut possible = owned_strings(&["a", "b", "c", "d"]);
    let values = take_selected_values(&mut possible, &[0, 2]);
    assert_eq!(values, owned_strings(&["a", "c"]));
    // Removing index 0 leaves [b, c, d]; index 2 of that is `d`.
    assert_eq!(possible, owned_strings(&["b", "c"]));
    let none = take_selected_values(&mut possible, &[]);
    assert!(none.is_empty());
    assert_eq!(possible, owned_strings(&["b", "c"]));
}

#[test]
fn long_value_lists_are_typed_in() {
    assert!(picks_from_list(0));
    assert!(picks_from_list(PROPERTY_VALUE_COUNT_CIRCUIT_BREAKER - 1));
    assert!(!picks_from_list(PROPERTY_VALUE_COUNT_CIRCUIT_BREAKER));
    assert_eq!(PROPERTY_VALUE_COUNT_CIRCUIT_BREAKER, 256);
}

#[test]
fn label_filter_selects_matching_label_names_in_order() {
    let names = owned_strings(&["Billing > Refund", "Other", "billing", "Billing"]);
    assert_eq!(
        label_filter_names(&names, "^Billing").unwrap(),
        Some(owned_strings(&["Billing > Refund", "Billing"]))
    );
    assert_eq!(label_filter_names(&names, "^Nothing$").unwrap(), None);
    assert_eq!(label_filter_names(&[], ".*").unwrap(), None);
    assert_eq!(label_filter_names(&names, "(").unwrap_err(), "(");
}

fn user(id: &str, projects: &[(&str, &[&str])]) -> UserPermissions {
    UserPermissions {
        id: id.to_owned(),
        projects: projects
            .iter()
            .map(|(name, permissions)| (name.to_string(), owned_strings(permissions)))
            .collect(),
    }
}

fn ids(users: &[UserPermissions]) -> Vec<String> {
    users.iter().map(|user| user.id.clone()).collect()
}

#[test]
fn users_are_filtered_by_project_and_permission() {
    let all = || {
        vec![
            user("a", &[("p", &["read"]), ("q", &["write"])]),
            user("b", &[("q", &["read"])]),
            user("c", &[("p", &["write", "read"])]),
            user("d", &[("p", &[])]),
        ]
    };
    let mut users = all();
    filter_users_by_project(&mut users, "p", &None);
    assert_eq!(ids(&users), vec!["a", "c", "d"]);

    let mut users = all();
    filter_users_by_project(&mut users, "p", &Some("read".to_owned()));
    assert_eq!(ids(&users), vec!["a", "c"]);

    let mut users = all();
    filter_users_by_project(&mut users, "r", &None);
    assert!(users.is_empty());
}
