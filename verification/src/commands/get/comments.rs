//! Downloading comments: the counters shown while they are fetched.

use vstd::prelude::*;
use std::sync::atomic::{AtomicUsize, Ordering};
use crate::text::{lowercased, owned, split_on, split_text, string_views, to_lowercase, trim, trimmed};

verus! {

/// The options of `re get comment`.
pub struct GetSingleCommentArgs {
    /// The source, by name or id.
    pub source: String,
    /// The comment's id.
    pub comment_id: String,
    /// Write the comment to this file.
    pub path: Option<String>,
    /// Include the content of attachments.
    pub include_attachment_content: Option<bool>,
}

/// `--attachments` needs `--file`: attachments are saved beside it.
pub fn validate_single_comment_args(args: &GetSingleCommentArgs) -> (result: Result<(), String>)
    ensures
        result is Err <==> (args.path is None && args.include_attachment_content is Some),
        result matches Err(message) ==> message@
            == "Cannot include attachment content when no file is provided"@,
{
    if args.path.is_none() && args.include_attachment_content.is_some() {
        Err(owned("Cannot include attachment content when no file is provided"))
    } else {
        Ok(())
    }
}

/// The options of `re get comments`.
pub struct GetManyCommentsArgs {
    /// The source, by name or id.
    pub source: String,
    /// The dataset, by name or id.
    pub dataset: Option<String>,
    /// Don't display a progress bar.
    pub no_progress: bool,
    /// Save predicted labels and entities.
    pub include_predictions: Option<bool>,
    /// The model version to take predictions from.
    pub model_version: Option<u32>,
    /// Download reviewed comments only.
    pub reviewed_only: Option<bool>,
    /// First instant to download from, in seconds since the Unix epoch.
    pub from_timestamp: Option<i64>,
    /// Last instant to download up to, in seconds since the Unix epoch.
    pub to_timestamp: Option<i64>,
    /// Only comments from these senders.
    pub senders: Option<Vec<String>>,
    /// Only emails to these recipients.
    pub recipients: Option<Vec<String>>,
    /// Where to write the comments.
    pub path: Option<String>,
    /// Regular expression selecting the labels to download predictions for.
    pub label_filter: Option<String>,
    /// The user property filter, as JSON.
    pub property_filter: Option<String>,
    /// Build the user property filter interactively.
    pub interactive_property_filter: bool,
    /// Only comments with attachments of these types.
    pub attachment_type_filters: Vec<String>,
    /// Save attachment content.
    pub include_attachment_content: Option<bool>,
    /// Only comments with attachments.
    pub only_with_attachments: Option<bool>,
    /// Return comments in a random order.
    pub shuffle: Option<bool>,
    /// Stop after about this many comments.
    pub stop_after: Option<usize>,
}

/// `flag` is given as true.
pub open spec fn set(flag: Option<bool>) -> bool {
    flag matches Some(true)
}

/// The first rule of `re get comments` that the options break, as the
/// message it is reported with; the rules are checked in this order.
pub open spec fn get_many_args_error(args: GetManyCommentsArgs) -> Option<Seq<char>> {
    let by_timerange = args.from_timestamp is Some || args.to_timestamp is Some;
    let no_dataset = args.dataset is None;
    let property_filtered = args.property_filter is Some || args.interactive_property_filter;
    if set(args.reviewed_only) && by_timerange {
        Some("The `reviewed_only` and `from/to-timestamp` options are mutually exclusive."@)
    } else if set(args.reviewed_only) && args.model_version is Some {
        Some("The `reviewed_only` and `model_version` options are mutually exclusive."@)
    } else if set(args.reviewed_only) && no_dataset {
        Some("Cannot get reviewed comments when `dataset` is not provided."@)
    } else if set(args.include_predictions) && no_dataset {
        Some("Cannot get predictions when `dataset` is not provided."@)
    } else if args.label_filter is Some && no_dataset {
        Some("Cannot use a label filter when `dataset` is not provided."@)
    } else if (args.attachment_type_filters@.len() > 0 || args.only_with_attachments is Some)
        && no_dataset {
        Some("Cannot use a attachment type filter when `dataset` is not provided."@)
    } else if args.label_filter is Some && set(args.reviewed_only) {
        Some("The `reviewed_only` and `label_filter` options are mutually exclusive."@)
    } else if args.label_filter is Some && args.model_version is Some {
        Some("The `label_filter` and `model_version` options are mutually exclusive."@)
    } else if property_filtered && no_dataset {
        Some("Cannot use a property filter when `dataset` is not provided."@)
    } else if property_filtered && set(args.reviewed_only) {
        Some("The `reviewed_only` and `property_filter` options are mutually exclusive."@)
    } else if args.property_filter is Some && args.interactive_property_filter {
        Some(
            "The `interative_property_filter` and `property_filter` options are mutually exclusive."@,
        )
    } else if (args.senders is Some || args.recipients is Some) && no_dataset {
        Some("Cannot filter on `senders` or `recipients` when `dataset` is not provided"@)
    } else if args.path is None && args.include_attachment_content is Some {
        Some("Cannot include attachment content when no file is provided"@)
    } else if args.shuffle is Some && no_dataset {
        Some("Cannot shuffle data when dataset is not provided"@)
    } else {
        None
    }
}

/// Checks the combination of options of `re get comments`, reporting the
/// first rule broken.
pub fn validate_get_many_args(args: &GetManyCommentsArgs) -> (result: Result<(), String>)
    ensures
        match get_many_args_error(*args) {
            Some(message) => result matches Err(e) && e@ == message,
            None => result is Ok,
        },
{
    let by_timerange = args.from_timestamp.is_some() || args.to_timestamp.is_some();
    let reviewed_only = match args.reviewed_only {
        Some(flag) => flag,
        None => false,
    };
    let include_predictions = match args.include_predictions {
        Some(flag) => flag,
        None => false,
    };
    let no_dataset = args.dataset.is_none();
    let property_filtered = args.property_filter.is_some() || args.interactive_property_filter;
    if reviewed_only && by_timerange {
        return Err(
            owned("The `reviewed_only` and `from/to-timestamp` options are mutually exclusive."),
        );
    }
    if reviewed_only && args.model_version.is_some() {
        return Err(
            owned("The `reviewed_only` and `model_version` options are mutually exclusive."),
        );
    }
    if reviewed_only && no_dataset {
        return Err(owned("Cannot get reviewed comments when `dataset` is not provided."));
    }
    if include_predictions && no_dataset {
        return Err(owned("Cannot get predictions when `dataset` is not provided."));
    }
    if args.label_filter.is_some() && no_dataset {
        return Err(owned("Cannot use a label filter when `dataset` is not provided."));
    }
    if (args.attachment_type_filters.len() > 0 || args.only_with_attachments.is_some())
        && no_dataset {
        return Err(owned("Cannot use a attachment type filter when `dataset` is not provided."));
    }
    if args.label_filter.is_some() && reviewed_only {
        return Err(
            owned("The `reviewed_only` and `label_filter` options are mutually exclusive."),
        );
    }
    if args.label_filter.is_some() && args.model_version.is_some() {
        return Err(
            owned("The `label_filter` and `model_version` options are mutually exclusive."),
        );
    }
    if property_filtered && no_dataset {
        return Err(owned("Cannot use a property filter when `dataset` is not provided."));
    }
    if property_filtered && reviewed_only {
        return Err(
            owned("The `reviewed_only` and `property_filter` options are mutually exclusive."),
        );
    }
    if args.property_filter.is_some() && args.interactive_property_filter {
        return Err(
            owned(
                "The `interative_property_filter` and `property_filter` options are mutually exclusive.",
            ),
        );
    }
    if (args.senders.is_some() || args.recipients.is_some()) && no_dataset {
        return Err(owned("Cannot filter on `senders` or `recipients` when `dataset` is not provided"));
    }
    if args.path.is_none() && args.include_attachment_content.is_some() {
        return Err(owned("Cannot include attachment content when no file is provided"));
    }
    if args.shuffle.is_some() && no_dataset {
        return Err(owned("Cannot shuffle data when dataset is not provided"));
    }
    Ok(())
}

/// What to do with a page of comments just fetched.
#[derive(PartialEq, Eq, Structural, Debug)]
pub enum PageAction {
    /// Stop without writing the page.
    Stop,
    /// Write the page, then fetch the next one.
    WriteAndContinue,
    /// Write the page, then stop.
    WriteAndStop,
}

/// Enough comments have been downloaded.
pub open spec fn reached_limit(downloaded: usize, stop_after: Option<usize>) -> bool {
    stop_after matches Some(limit) && downloaded >= limit
}

/// Paging through a source: an empty page, or reaching `--stop-after`
/// before the page, stops; otherwise the page is written, and the last
/// page (one without a continuation) ends the download.
pub fn source_page_action(
    page_len: usize,
    downloaded: usize,
    stop_after: Option<usize>,
    has_continuation: bool,
) -> (action: PageAction)
    ensures
        action == if page_len == 0 || reached_limit(downloaded, stop_after) {
            PageAction::Stop
        } else if has_continuation {
            PageAction::WriteAndContinue
        } else {
            PageAction::WriteAndStop
        },
{
    if page_len == 0 {
        return PageAction::Stop;
    }
    match stop_after {
        Some(limit) => {
            if downloaded >= limit {
                return PageAction::Stop;
            }
        },
        None => {},
    }
    if has_continuation {
        PageAction::WriteAndContinue
    } else {
        PageAction::WriteAndStop
    }
}

/// Paging through a dataset query: an empty page, or reaching
/// `--stop-after` before the page, stops; a page without a continuation is
/// counted but stops the download before it is written; any other page is
/// written and the next one fetched.
pub fn query_page_action(
    page_len: usize,
    downloaded: usize,
    stop_after: Option<usize>,
    has_continuation: bool,
) -> (action: PageAction)
    ensures
        action == if page_len == 0 || reached_limit(downloaded, stop_after) || !has_continuation {
            PageAction::Stop
        } else {
            PageAction::WriteAndContinue
        },
{
    if page_len == 0 {
        return PageAction::Stop;
    }
    match stop_after {
        Some(limit) => {
            if downloaded >= limit {
                return PageAction::Stop;
            }
        },
        None => {},
    }
    if has_continuation {
        PageAction::WriteAndContinue
    } else {
        PageAction::Stop
    }
}

/// The total a download's progress bar counts to: the comments there are,
/// but no more than `--stop-after`.
pub fn progress_target(stop_after: Option<usize>, total_comments: u64) -> (target: u64)
    ensures
        target == match stop_after {
            Some(limit) => if (limit as int) < total_comments {
                limit as int
            } else {
                total_comments as int
            },
            None => total_comments as int,
        },
{
    match stop_after {
        Some(limit) => {
            let limit = limit as u64;
            if limit < total_comments {
                limit
            } else {
                total_comments
            }
        },
        None => total_comments,
    }
}

/// Whether the regular expression `pattern` compiles, as
/// `regex::Regex::new` decides.
pub uninterp spec fn regex_compiles(pattern: Seq<char>) -> bool;

/// Whether the regular expression `pattern` matches somewhere in `text`, as
/// `regex::Regex::is_match` decides.
pub uninterp spec fn regex_is_match(pattern: Seq<char>, text: Seq<char>) -> bool;

/// Matches a regular expression against a text (`regex::Regex::new`, then
/// `Regex::is_match`): `None` where the pattern does not compile. Both
/// outcomes are named, as functions of the arguments, by `regex_compiles`
/// and `regex_is_match`; the regular expression language is not stated.
#[verifier::external_body]
fn regex_match(pattern: &str, text: &str) -> (found: Option<bool>)
    ensures
        found is Some <==> regex_compiles(pattern@),
        found matches Some(b) ==> b == regex_is_match(pattern@, text@),
{
    match regex::Regex::new(pattern) {
        Ok(regex) => Some(regex.is_match(text)),
        Err(_) => None,
    }
}

/// The names of `names` that the regular expression `pattern` matches, in
/// order.
pub open spec fn labels_matching(names: Seq<Seq<char>>, pattern: Seq<char>) -> Seq<Seq<char>>
    decreases names.len(),
{
    if names.len() == 0 {
        Seq::empty()
    } else if regex_is_match(pattern, names.last()) {
        labels_matching(names.drop_last(), pattern).push(names.last())
    } else {
        labels_matching(names.drop_last(), pattern)
    }
}

/// The labels of a dataset that `--label-filter` selects: the pattern back
/// as the error where it does not compile, `None` where no label name
/// matches (there is then nothing to download), else the matching names in
/// order.
pub fn label_filter_names(label_names: &[String], label_filter: &str) -> (result: Result<
    Option<Vec<String>>,
    String,
>)
    ensures
        result is Err <==> !regex_compiles(label_filter@),
        result matches Err(pattern) ==> pattern@ == label_filter@,
        result matches Ok(None) ==> labels_matching(string_views(label_names@), label_filter@).len()
            == 0,
        result matches Ok(Some(names)) ==> string_views(names@) == labels_matching(
            string_views(label_names@),
            label_filter@,
        ) && names@.len() > 0,
{
    if regex_match(label_filter, "").is_none() {
        return Err(owned(label_filter));
    }
    let ghost all = string_views(label_names@);
    let mut names: Vec<String> = Vec::new();
    let mut i: usize = 0;
    while i < label_names.len()
        invariant
            i <= label_names.len(),
            all == string_views(label_names@),
            regex_compiles(label_filter@),
            string_views(names@) == labels_matching(all.take(i as int), label_filter@),
        decreases label_names.len() - i,
    {
        let found = regex_match(label_filter, label_names[i].as_str());
        let ghost before = string_views(names@);
        proof {
            assert(all.take(i + 1).drop_last() =~= all.take(i as int));
            assert(all.take(i + 1).last() == label_names@[i as int]@);
        }
        if let Some(true) = found {
            names.push(label_names[i].clone());
            assert(string_views(names@) =~= before.push(label_names@[i as int]@));
        }
        i = i + 1;
    }
    assert(all.take(label_names@.len() as int) =~= all);
    if names.len() == 0 {
        Ok(None)
    } else {
        Ok(Some(names))
    }
}

/// Above this many known values a property's filter values are typed in,
/// separated by commas, instead of picked from a list.
pub const PROPERTY_VALUE_COUNT_CIRCUIT_BREAKER: usize = 256;

/// Whether a property's filter values are picked from the list of its
/// known values, rather than typed in: only for fewer than
/// `PROPERTY_VALUE_COUNT_CIRCUIT_BREAKER` values.
pub fn picks_from_list(value_count: usize) -> (from_list: bool)
    ensures
        from_list == (value_count < PROPERTY_VALUE_COUNT_CIRCUIT_BREAKER),
{
    value_count < PROPERTY_VALUE_COUNT_CIRCUIT_BREAKER
}

/// Filter values typed in one line: the text is lower-cased, cut at each
/// comma and each piece trimmed.
pub fn parse_comma_separated_values(text: &str) -> (values: Vec<String>)
    ensures
        string_views(values@) == split_on(lowercased(text@), ',').map_values(
            |piece: Seq<char>| trimmed(piece),
        ),
{
    let lower = to_lowercase(text);
    let pieces = split_text(lower.as_str(), ',');
    let ghost cut = split_on(lowercased(text@), ',');
    let mut values: Vec<String> = Vec::new();
    let mut i: usize = 0;
    while i < pieces.len()
        invariant
            i <= pieces.len(),
            string_views(pieces@) == cut,
            string_views(values@) == cut.take(i as int).map_values(
                |piece: Seq<char>| trimmed(piece),
            ),
        decreases pieces.len() - i,
    {
        let value = trim(pieces[i].as_str());
        let ghost before = string_views(values@);
        values.push(value);
        proof {
            assert(pieces@[i as int]@ == cut[i as int]);
            assert(string_views(values@) =~= before.push(trimmed(cut[i as int])));
            assert(cut.take(i + 1) =~= cut.take(i as int).push(cut[i as int]));
            assert(cut.take(i + 1).map_values(|piece: Seq<char>| trimmed(piece)) =~= cut.take(
                i as int,
            ).map_values(|piece: Seq<char>| trimmed(piece)).push(trimmed(cut[i as int])));
        }
        i = i + 1;
    }
    assert(cut.take(pieces@.len() as int) =~= cut);
    values
}

/// What is left of `items` after removing, in turn, the item at each of
/// `selections`: each index counts in the list as the removals before it
/// left it.
pub open spec fn removed_in_turn(items: Seq<Seq<char>>, selections: Seq<usize>) -> Seq<Seq<char>>
    decreases selections.len(),
{
    if selections.len() == 0 {
        items
    } else {
        removed_in_turn(items.remove(selections[0] as int), selections.drop_first())
    }
}

/// Each removal in turn finds an item at its index: the `k`-th index is
/// below the length left after `k` removals.
pub open spec fn removals_in_range(len: nat, selections: Seq<usize>) -> bool {
    forall|k: int| 0 <= k < selections.len() ==> #[trigger] selections[k] < len - k
}

/// The values picked in a multi-select over `possible_values`: returns the
/// picked values, in the order of `selections`, and then removes from
/// `possible_values` the item at each selected index in turn, so that a
/// second question offers what is left.
pub fn take_selected_values(possible_values: &mut Vec<String>, selections: &[usize]) -> (values:
    Vec<String>)
    requires
        removals_in_range(old(possible_values)@.len(), selections@),
    ensures
        string_views(values@) == selections@.map_values(
            |i: usize| string_views(old(possible_values)@)[i as int],
        ),
        string_views(final(possible_values)@) == removed_in_turn(
            string_views(old(possible_values)@),
            selections@,
        ),
{
    let ghost items = string_views(possible_values@);
    let ghost sel = selections@;
    let mut values: Vec<String> = Vec::new();
    let mut k: usize = 0;
    while k < selections.len()
        invariant
            k <= selections.len(),
            sel == selections@,
            string_views(possible_values@) == items,
            removals_in_range(items.len(), sel),
            string_views(values@) == sel.take(k as int).map_values(
                |i: usize| items[i as int],
            ),
        decreases selections.len() - k,
    {
        let index = selections[k];
        assert(sel[k as int] < items.len() - k);
        let value = possible_values[index].clone();
        let ghost before = string_views(values@);
        values.push(value);
        proof {
            assert(string_views(values@) =~= before.push(items[index as int]));
            assert(sel.take(k + 1) =~= sel.take(k as int).push(index));
            assert(sel.take(k + 1).map_values(|i: usize| items[i as int]) =~= sel.take(
                k as int,
            ).map_values(|i: usize| items[i as int]).push(items[index as int]));
        }
        k = k + 1;
    }
    assert(sel.take(sel.len() as int) =~= sel);
    let mut j: usize = 0;
    assert(sel.skip(0) =~= sel);
    while j < selections.len()
        invariant
            j <= selections.len(),
            sel == selections@,
            removals_in_range(items.len(), sel),
            possible_values@.len() == items.len() - j,
            removed_in_turn(string_views(possible_values@), sel.skip(j as int)) == removed_in_turn(
                items,
                sel,
            ),
        decreases selections.len() - j,
    {
        let index = selections[j];
        assert(sel[j as int] < items.len() - j);
        let ghost current = string_views(possible_values@);
        possible_values.remove(index);
        proof {
            assert(string_views(possible_values@) =~= current.remove(index as int));
            assert(sel.skip(j as int)[0] == index);
            assert(sel.skip(j as int).drop_first() =~= sel.skip(j + 1));
        }
        j = j + 1;
    }
    assert(sel.skip(sel.len() as int) =~= Seq::<usize>::empty());
    values
}

/// Running totals of a comment download. Each counter is an atomic that other
/// threads read while it grows, so no contract states which value a read
/// returns.
pub struct Statistics {
    downloaded: AtomicUsize,
    annotated: AtomicUsize,
    attachments: AtomicUsize,
}

impl Statistics {
    /// Every counter at zero.
    pub fn new() -> Statistics {
        Statistics { downloaded: AtomicUsize::new(0), annotated: AtomicUsize::new(0), attachments: AtomicUsize::new(0) }
    }

    /// Counts more comments downloaded.
    pub fn add_comments(&self, num_downloaded: usize) {
        self.downloaded.fetch_add(num_downloaded, Ordering::SeqCst);
    }

    /// Counts more attachments downloaded.
    pub fn add_attachments(&self, num_downloaded: usize) {
        self.attachments.fetch_add(num_downloaded, Ordering::SeqCst);
    }

    /// Counts more annotated comments.
    pub fn add_annotated(&self, num_downloaded: usize) {
        self.annotated.fetch_add(num_downloaded, Ordering::SeqCst);
    }

    /// Comments downloaded so far.
    pub fn num_downloaded(&self) -> usize {
        self.downloaded.load(Ordering::SeqCst)
    }

    /// Attachments downloaded so far.
    pub fn num_attachments(&self) -> usize {
        self.attachments.load(Ordering::SeqCst)
    }

    /// Annotated comments so far.
    pub fn num_annotated(&self) -> usize {
        self.annotated.load(Ordering::SeqCst)
    }
}

} // verus!
