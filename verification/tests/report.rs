use reinfer_cli::commands::get::custom_label_trend_report::{
    count_for_predicted_labels, date_range, model_version_selections, pop_label_selection,
    sampling_plan, DateEntry, ModelVersion, ModelVersionSelection, Report, MAX_COMMENT_SAMPLE,
};

fn strings(items: &[&str]) -> Vec<String> {
    items.iter().map(|item| item.to_string()).collect()
}

#[test]
fn date_entry_counts_each_label() {
    let mut entry = DateEntry::new();
    entry.count_label("a");
    entry.count_label("b");
    entry.count_label("a");
    assert_eq!(entry.get_label_count("a"), 2);
    assert_eq!(entry.get_label_count("b"), 1);
    assert_eq!(entry.get_label_count("c"), 0);
    entry.scale(3);
    assert_eq!(entry.get_label_count("a"), 6);
    assert_eq!(entry.get_label_count("b"), 3);
}

#[test]
fn report_counts_by_version_day_and_label() {
    let latest = ModelVersionSelection::Latest;
    let pinned = ModelVersionSelection::ModelVersion(ModelVersion(7));
    let mut report = Report::new(100, 102);
    report.count_label(&latest, 100, "x");
    report.count_label(&latest, 100, "x");
    report.count_label(&latest, 101, "y");
    report.count_label(&pinned, 100, "y");
    assert_eq!(report.get_labels(), &strings(&["x", "y"]));
    assert_eq!(report.get_model_versions(), vec![latest, ModelVersionSelection::ModelVersion(ModelVersion(7))]);
    let latest = ModelVersionSelection::Latest;
    assert_eq!(report.counts_row(&latest, 100), vec![2, 0]);
    assert_eq!(report.counts_row(&latest, 101), vec![0, 1]);
    assert_eq!(report.counts_row(&latest, 102), vec![0, 0]);
    assert_eq!(report.counts_row(&pinned, 100), vec![0, 1]);
    report.scale_sampled_results(5);
    assert_eq!(report.counts_row(&latest, 100), vec![10, 0]);
    assert_eq!(report.counts_row(&pinned, 100), vec![0, 5]);
    assert_eq!(report.date_bounds(), (100, 102));
}

#[test]
fn predicted_labels_are_counted_once_unless_excluded() {
    let latest = ModelVersionSelection::Latest;
    let wanted = strings(&["a", "b"]);
    let unwanted = strings(&["spam"]);
    let mut report = Report::new(0, 0);
    count_for_predicted_labels(&strings(&["z", "b", "a"]), &wanted, &unwanted, &latest, 0, &mut report);
    count_for_predicted_labels(&strings(&["a", "spam"]), &wanted, &unwanted, &latest, 0, &mut report);
    count_for_predicted_labels(&strings(&["z"]), &wanted, &unwanted, &latest, 0, &mut report);
    assert_eq!(report.get_labels(), &strings(&["b"]));
    assert_eq!(report.counts_row(&latest, 0), vec![1]);
}

#[test]
fn sampling_scales_only_large_datasets() {
    assert_eq!(sampling_plan(0), (1, 0));
    assert_eq!(sampling_plan(149_999), (1, 149_999));
    assert_eq!(sampling_plan(MAX_COMMENT_SAMPLE), (1, MAX_COMMENT_SAMPLE));
    assert_eq!(sampling_plan(450_001), (3, MAX_COMMENT_SAMPLE));
}

#[test]
fn date_range_includes_both_ends() {
    assert_eq!(date_range(5, 8), vec![5, 6, 7, 8]);
    assert_eq!(date_range(5, 5), vec![5]);
    assert!(date_range(6, 5).is_empty());
}

#[test]
fn popped_labels_come_last_first_and_the_rest_stay_in_order() {
    let mut names = strings(&["a", "b", "c", "d", "e"]);
    let popped = pop_label_selection(&mut names, &[1, 3]);
    assert_eq!(popped, strings(&["d", "b"]));
    assert_eq!(names, strings(&["a", "c", "e"]));
    let none = pop_label_selection(&mut names, &[]);
    assert!(none.is_empty());
    assert_eq!(names, strings(&["a", "c", "e"]));
}

#[test]
fn model_version_item_zero_is_the_latest_model() {
    let picked = model_version_selections(&[0, 2], &[5, 9]);
    assert_eq!(
        picked,
        vec![
            ModelVersionSelection::Latest,
            ModelVersionSelection::ModelVersion(ModelVersion(9))
        ]
    );
}
