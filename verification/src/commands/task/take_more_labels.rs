//! Counters shown while labels are taken from one dataset into another.

use vstd::prelude::*;
use std::sync::atomic::{AtomicUsize, Ordering};
use crate::text::{chars_of, owned, push_str, str_eq};

verus! {

/// The options of `re task take-more-labels`.
pub struct TakeMoreLabelsArgs {
    /// The dataset to take labels from.
    pub source_dataset: String,
    /// The dataset to merge labels into.
    pub target_dataset: String,
    /// Only comments with this label in the target dataset are updated.
    pub only_for_target_label: String,
    /// Transferred labels are nested under this label.
    pub transferred_label_parent: String,
}

/// Whether a label applies or explicitly does not.
#[derive(PartialEq, Eq, Structural, Debug, Clone, Copy)]
pub enum Sentiment {
    Positive,
    Negative,
}

/// A label assigned to a comment.
#[derive(Debug)]
pub struct Label {
    pub name: String,
    pub sentiment: Sentiment,
}

/// Where a sentiment sorts: positive first.
pub open spec fn sentiment_rank(sentiment: Sentiment) -> int {
    match sentiment {
        Sentiment::Positive => 0,
        Sentiment::Negative => 1,
    }
}

/// `a` sorts before `b`: lexicographically by code point.
pub open spec fn text_less(a: Seq<char>, b: Seq<char>) -> bool
    decreases a.len(),
{
    if b.len() == 0 {
        false
    } else if a.len() == 0 {
        true
    } else if a[0] != b[0] {
        (a[0] as u32) < (b[0] as u32)
    } else {
        text_less(a.drop_first(), b.drop_first())
    }
}

/// What a label is sorted and compared by: its name, then its sentiment.
pub open spec fn label_key(label: Label) -> (Seq<char>, int) {
    (label.name@, sentiment_rank(label.sentiment))
}

/// `a` sorts before `b`.
pub open spec fn key_less(a: (Seq<char>, int), b: (Seq<char>, int)) -> bool {
    text_less(a.0, b.0) || (a.0 == b.0 && a.1 < b.1)
}

proof fn lemma_text_less_total(a: Seq<char>, b: Seq<char>)
    ensures
        a == b || text_less(a, b) || text_less(b, a),
        !(text_less(a, b) && text_less(b, a)),
        !text_less(a, a),
    decreases a.len(),
{
    if a.len() > 0 && b.len() > 0 {
        vstd::utf8::char_u32_cast(a[0], a[0] as u32);
        vstd::utf8::char_u32_cast(b[0], b[0] as u32);
        lemma_text_less_total(a.drop_first(), b.drop_first());
        if a[0] == b[0] && a.drop_first() == b.drop_first() {
            assert forall|i: int| 0 <= i < a.len() implies a[i] == b[i] by {
                if i > 0 {
                    assert(a[i] == a.drop_first()[i - 1]);
                    assert(b[i] == b.drop_first()[i - 1]);
                }
            }
            assert(a =~= b);
        }
    } else if a.len() == 0 && b.len() == 0 {
        assert(a =~= b);
    }
    if a.len() > 0 {
        lemma_text_less_total(a.drop_first(), a.drop_first());
    }
}

proof fn lemma_text_less_transitive(a: Seq<char>, b: Seq<char>, c: Seq<char>)
    requires
        text_less(a, b),
        text_less(b, c),
    ensures
        text_less(a, c),
    decreases a.len(),
{
    if a.len() > 0 && b.len() > 0 && c.len() > 0 && a[0] == b[0] && b[0] == c[0] {
        lemma_text_less_transitive(a.drop_first(), b.drop_first(), c.drop_first());
    }
}

/// Whether `a` sorts before `b`, by code point.
fn text_is_less(a: &str, b: &str) -> (less: bool)
    ensures
        less == text_less(a@, b@),
{
    let x = chars_of(a);
    let y = chars_of(b);
    let mut i: usize = 0;
    assert(a@.skip(0) =~= a@);
    assert(b@.skip(0) =~= b@);
    while i < x.len() && i < y.len() && x[i] == y[i]
        invariant
            x@ == a@,
            y@ == b@,
            i <= x.len(),
            i <= y.len(),
            text_less(a@, b@) == text_less(a@.skip(i as int), b@.skip(i as int)),
        decreases x.len() - i,
    {
        assert(a@.skip(i as int).drop_first() =~= a@.skip(i + 1));
        assert(b@.skip(i as int).drop_first() =~= b@.skip(i + 1));
        i = i + 1;
    }
    assert(a@.skip(i as int).len() == x.len() - i);
    assert(b@.skip(i as int).len() == y.len() - i);
    if i == y.len() {
        false
    } else if i == x.len() {
        true
    } else {
        assert(a@.skip(i as int)[0] == x@[i as int]);
        assert(b@.skip(i as int)[0] == y@[i as int]);
        (x[i] as u32) < (y[i] as u32)
    }
}

fn sentiment_order(sentiment: Sentiment) -> (rank: u8)
    ensures
        rank == sentiment_rank(sentiment),
{
    match sentiment {
        Sentiment::Positive => 0,
        Sentiment::Negative => 1,
    }
}

/// Whether `a` sorts before `b`.
fn label_less(a: &Label, b: &Label) -> (less: bool)
    ensures
        less == key_less(label_key(*a), label_key(*b)),
{
    if text_is_less(a.name.as_str(), b.name.as_str()) {
        return true;
    }
    str_eq(a.name.as_str(), b.name.as_str()) && sentiment_order(a.sentiment) < sentiment_order(
        b.sentiment,
    )
}

/// The name a transferred label gets: nested under `parent` as
/// `parent > name`, unless it is `parent` itself or already nested under it.
pub open spec fn transferred_name(name: Seq<char>, parent: Seq<char>) -> Seq<char> {
    let nested_prefix = parent + " >"@;
    if name == parent || (name.len() >= nested_prefix.len() && name.subrange(
        0,
        nested_prefix.len() as int,
    ) == nested_prefix) {
        name
    } else {
        parent + " > "@ + name
    }
}

/// `name` is `parent` itself, or starts with `parent` followed by ` >`.
pub open spec fn nested_under(name: Seq<char>, parent: Seq<char>) -> bool {
    name == parent || (name.len() >= parent.len() + 2 && name.subrange(0, parent.len() as int)
        == parent && name[parent.len() as int] == ' ' && name[parent.len() as int + 1] == '>')
}

/// A transferred label keeps its name exactly when it is the parent or is
/// already nested under it; every other name, whatever characters it holds,
/// becomes the parent, ` > ` and the name. Either way the result starts
/// with the parent.
pub proof fn lemma_transferred_name_nests_under_parent(name: Seq<char>, parent: Seq<char>)
    ensures
        nested_under(name, parent) ==> transferred_name(name, parent) == name,
        !nested_under(name, parent) ==> transferred_name(name, parent) == parent + seq![
            ' ',
            '>',
            ' ',
        ] + name,
        transferred_name(name, parent) == name <==> nested_under(name, parent),
        transferred_name(name, parent).len() >= parent.len(),
        transferred_name(name, parent).subrange(0, parent.len() as int) == parent,
{
    reveal_strlit(" >");
    reveal_strlit(" > ");
    let prefix = parent + " >"@;
    assert(" >"@ =~= seq![' ', '>']);
    assert(" > "@ =~= seq![' ', '>', ' ']);
    if name.len() >= prefix.len() && name.subrange(0, prefix.len() as int) == prefix {
        assert(name.subrange(0, parent.len() as int) =~= prefix.subrange(0, parent.len() as int));
        assert(prefix.subrange(0, parent.len() as int) =~= parent);
        assert(name[parent.len() as int] == name.subrange(0, prefix.len() as int)[parent.len() as int]);
        assert(name[parent.len() as int + 1] == name.subrange(0, prefix.len() as int)[parent.len() as int + 1]);
    }
    if nested_under(name, parent) && name != parent {
        assert(name.subrange(0, prefix.len() as int) =~= prefix);
    }
    let nested = parent + seq![' ', '>', ' '] + name;
    assert(nested.subrange(0, parent.len() as int) =~= parent);
    if !nested_under(name, parent) {
        assert(nested.len() > name.len());
    } else {
        if name == parent {
            assert(name.subrange(0, parent.len() as int) =~= parent);
        }
    }
}

/// The name a label taken from the source dataset gets in the target.
pub fn transfer_label_name(name: &str, parent: &str) -> (renamed: String)
    ensures
        renamed@ == transferred_name(name@, parent@),
        nested_under(name@, parent@) ==> renamed@ == name@,
        !nested_under(name@, parent@) ==> renamed@ == parent@ + seq![' ', '>', ' '] + name@,
{
    proof {
        lemma_transferred_name_nests_under_parent(name@, parent@);
    }
    let mut nested_prefix = owned(parent);
    push_str(&mut nested_prefix, " >");
    let x = chars_of(name);
    let p = chars_of(nested_prefix.as_str());
    let mut already_nested = x.len() >= p.len();
    let mut i: usize = 0;
    if already_nested {
        while i < p.len()
            invariant
                x@ == name@,
                p@ == nested_prefix@,
                p.len() <= x.len(),
                i <= p.len(),
                already_nested == forall|k: int| 0 <= k < i ==> x@[k] == p@[k],
            decreases p.len() - i,
        {
            if x[i] != p[i] {
                already_nested = false;
            }
            i = i + 1;
        }
        proof {
            if already_nested {
                assert(name@.subrange(0, nested_prefix@.len() as int) =~= nested_prefix@);
            } else {
                let k = choose|k: int| 0 <= k < p.len() && x@[k] != p@[k];
                assert(name@.subrange(0, nested_prefix@.len() as int)[k] == x@[k]);
            }
        }
    }
    if str_eq(name, parent) || already_nested {
        owned(name)
    } else {
        let mut renamed = owned(parent);
        push_str(&mut renamed, " > ");
        push_str(&mut renamed, name);
        renamed
    }
}

/// `labels` is sorted, with no label twice.
pub open spec fn strictly_sorted(labels: Seq<Label>) -> bool {
    forall|i: int, j: int|
        0 <= i < j < labels.len() ==> key_less(label_key(labels[i]), label_key(labels[j]))
}

/// Some label of `labels` has the key `key`.
pub open spec fn has_key(labels: Seq<Label>, key: (Seq<char>, int)) -> bool {
    exists|i: int| 0 <= i < labels.len() && label_key(#[trigger] labels[i]) == key
}

fn copy_label(label: &Label) -> (copy: Label)
    ensures
        label_key(copy) == label_key(*label),
{
    Label { name: label.name.clone(), sentiment: label.sentiment }
}

/// Adds `label` to a sorted list of distinct labels, unless an equal label
/// is already there.
fn insert_sorted(labels: &mut Vec<Label>, label: Label)
    requires
        strictly_sorted(old(labels)@),
    ensures
        strictly_sorted(final(labels)@),
        forall|key: (Seq<char>, int)|
            #[trigger] has_key(final(labels)@, key) <==> (has_key(old(labels)@, key) || key
                == label_key(label)),
{
    let mut i: usize = 0;
    while i < labels.len() && label_less(&labels[i], &label)
        invariant
            i <= labels.len(),
            labels@ == old(labels)@,
            strictly_sorted(labels@),
            forall|k: int| 0 <= k < i ==> key_less(label_key(labels@[k]), label_key(label)),
        decreases labels.len() - i,
    {
        i = i + 1;
    }
    let ghost key = label_key(label);
    proof {
        lemma_text_less_total(key.0, key.0);
    }
    if i < labels.len() && !label_less(&label, &labels[i]) {
        proof {
            let other = label_key(labels@[i as int]);
            lemma_text_less_total(other.0, key.0);
            assert(other == key);
            assert forall|k: (Seq<char>, int)| #[trigger] has_key(labels@, k) <==> (has_key(
                old(labels)@,
                k,
            ) || k == key) by {
                if k == key {
                    assert(label_key(labels@[i as int]) == k);
                }
            }
        }
        return;
    }
    let ghost before = labels@;
    proof {
        assert forall|b0: int| i <= b0 < before.len() implies key_less(
            key,
            label_key(#[trigger] before[b0]),
        ) by {
            if b0 > i {
                lemma_key_less_transitive(key, label_key(before[i as int]), label_key(before[b0]));
            }
        }
    }
    labels.insert(i, label);
    proof {
        let after = labels@;
        assert forall|a: int, b: int| 0 <= a < b < after.len() implies key_less(
            label_key(after[a]),
            label_key(after[b]),
        ) by {
            if b == i {
                assert(after[a] == before[a]);
            } else if a == i {
                assert(after[b] == before[b - 1]);
            } else {
                let a0 = if a < i { a } else { a - 1 };
                let b0 = if b < i { b } else { b - 1 };
                assert(after[a] == before[a0]);
                assert(after[b] == before[b0]);
                if a < i && b > i {
                    lemma_key_less_transitive(label_key(before[a0]), key, label_key(before[b0]));
                }
            }
        }
        assert forall|k: (Seq<char>, int)| #[trigger] has_key(after, k) <==> (has_key(before, k)
            || k == key) by {
            if has_key(after, k) {
                let j = choose|j: int| 0 <= j < after.len() && label_key(#[trigger] after[j]) == k;
                if j < i {
                    assert(after[j] == before[j]);
                } else if j > i {
                    assert(after[j] == before[j - 1]);
                }
            }
            if has_key(before, k) {
                let j = choose|j: int| 0 <= j < before.len() && label_key(#[trigger] before[j]) == k;
                if j < i {
                    assert(after[j] == before[j]);
                } else {
                    assert(after[j + 1] == before[j]);
                }
            }
            if k == key {
                assert(label_key(after[i as int]) == k);
            }
        }
    }
}

proof fn lemma_key_less_transitive(a: (Seq<char>, int), b: (Seq<char>, int), c: (Seq<char>, int))
    requires
        key_less(a, b),
        key_less(b, c),
    ensures
        key_less(a, c),
{
    if text_less(a.0, b.0) && text_less(b.0, c.0) {
        lemma_text_less_transitive(a.0, b.0, c.0);
    }
}

/// The label keys of `target`, `parent` and the renamed `source` labels,
/// as a set.
pub open spec fn merged_keys(
    target: Seq<Label>,
    source: Seq<Label>,
    parent: Seq<char>,
) -> Set<(Seq<char>, int)> {
    Set::new(
        |key: (Seq<char>, int)|
            has_key(target, key) || key == (parent, 0int) || exists|i: int|
                0 <= i < source.len() && key == (transferred_name(source[i].name@, parent), sentiment_rank(#[trigger] source[i].sentiment)),
    )
}

/// Merges labels taken from the source dataset into a comment's labels in
/// the target: the parent label is added (as positive), each source label is
/// nested under it unless already there, and the result is sorted with
/// duplicates removed.
pub fn merge_assigned_labels(
    target_assigned: Vec<Label>,
    source_assigned: Vec<Label>,
    transferred_label_parent: &str,
) -> (assigned: Vec<Label>)
    ensures
        strictly_sorted(assigned@),
        forall|key: (Seq<char>, int)|
            #[trigger] has_key(assigned@, key) <==> merged_keys(
                target_assigned@,
                source_assigned@,
                transferred_label_parent@,
            ).contains(key),
{
    let ghost target = target_assigned@;
    let ghost source = source_assigned@;
    let ghost parent = transferred_label_parent@;
    let mut assigned: Vec<Label> = Vec::new();
    let mut i: usize = 0;
    while i < target_assigned.len()
        invariant
            i <= target_assigned.len(),
            target_assigned@ == target,
            strictly_sorted(assigned@),
            forall|key: (Seq<char>, int)|
                #[trigger] has_key(assigned@, key) <==> has_key(target.take(i as int), key),
        decreases target_assigned.len() - i,
    {
        let label = copy_label(&target_assigned[i]);
        insert_sorted(&mut assigned, label);
        proof {
            assert forall|key: (Seq<char>, int)| #[trigger] has_key(assigned@, key) <==> has_key(
                target.take(i + 1),
                key,
            ) by {
                if has_key(target.take(i as int), key) {
                    let j = choose|j: int| 0 <= j < i && label_key(#[trigger] target.take(i as int)[j]) == key;
                    assert(target.take(i + 1)[j] == target.take(i as int)[j]);
                }
                if has_key(target.take(i + 1), key) {
                    let j = choose|j: int| 0 <= j < i + 1 && label_key(#[trigger] target.take(i + 1)[j]) == key;
                    if j < i {
                        assert(target.take(i as int)[j] == target.take(i + 1)[j]);
                    }
                }
                if key == label_key(target[i as int]) {
                    assert(target.take(i + 1)[i as int] == target[i as int]);
                }
            }
        }
        i = i + 1;
    }
    assert(target.take(target.len() as int) =~= target);
    insert_sorted(&mut assigned, Label { name: owned(transferred_label_parent), sentiment: Sentiment::Positive });
    let mut j: usize = 0;
    while j < source_assigned.len()
        invariant
            j <= source_assigned.len(),
            source_assigned@ == source,
            parent == transferred_label_parent@,
            strictly_sorted(assigned@),
            forall|key: (Seq<char>, int)|
                #[trigger] has_key(assigned@, key) <==> (has_key(target, key) || key == (parent, 0int)
                    || exists|k: int|
                    0 <= k < j && key == (transferred_name(source[k].name@, parent), sentiment_rank(
                        #[trigger] source[k].sentiment,
                    ))),
        decreases source_assigned.len() - j,
    {
        let name = transfer_label_name(source_assigned[j].name.as_str(), transferred_label_parent);
        let sentiment = source_assigned[j].sentiment;
        assert(sentiment == source[j as int].sentiment);
        assert(name@ == transferred_name(source[j as int].name@, parent));
        let label = Label { name, sentiment };
        let ghost added = label_key(label);
        assert(added == (transferred_name(source[j as int].name@, parent), sentiment_rank(
            source[j as int].sentiment,
        )));
        insert_sorted(&mut assigned, label);
        proof {
            assert forall|key: (Seq<char>, int)| #[trigger] has_key(assigned@, key) <==> (has_key(
                target,
                key,
            ) || key == (parent, 0int) || exists|k: int|
                0 <= k < j + 1 && key == (transferred_name(source[k].name@, parent), sentiment_rank(
                    #[trigger] source[k].sentiment,
                ))) by {
                if key == added {
                    assert(key == (transferred_name(source[j as int].name@, parent), sentiment_rank(
                        source[j as int].sentiment,
                    )));
                }
            }
        }
        j = j + 1;
    }
    assigned
}

/// The labels assigned to a comment, and those dismissed.
#[derive(Debug)]
pub struct Labelling {
    pub assigned: Vec<Label>,
    pub dismissed: Vec<Label>,
}

/// A comment of the target dataset as the labelling pass reads it: its uid
/// and, where it has one, its labelling.
#[derive(Debug)]
pub struct AnnotatedComment {
    pub uid: String,
    pub labelling: Option<Labelling>,
}

/// The comment has a labelling that assigns a label named `name`.
pub open spec fn wants_update(comment: AnnotatedComment, name: Seq<char>) -> bool {
    &&& comment.labelling is Some
    &&& exists|k: int|
        0 <= k < comment.labelling->0.assigned@.len()
            && (#[trigger] comment.labelling->0.assigned@[k]).name@ == name
}

/// Comment `i` wants an update, and no later one that wants an update has
/// the same uid.
pub open spec fn last_wanting(comments: Seq<AnnotatedComment>, name: Seq<char>, i: int) -> bool {
    &&& 0 <= i < comments.len()
    &&& wants_update(comments[i], name)
    &&& forall|j: int|
        i < j < comments.len() && wants_update(#[trigger] comments[j], name) ==> comments[j].uid@
            != comments[i].uid@
}

/// `entry` holds the uid and the labelling of a comment, at index `from` or
/// later, that is the last one wanting an update under that uid.
pub open spec fn is_last_labelling(
    comments: Seq<AnnotatedComment>,
    name: Seq<char>,
    entry: (String, Labelling),
    from: int,
) -> bool {
    exists|i: int|
        from <= i && last_wanting(comments, name, i) && comments[i].uid@ == entry.0@
            && comments[i].labelling->0 == entry.1
}

/// Whether `labels` assigns a label named `name`.
fn assigns_label(labels: &Vec<Label>, name: &str) -> (found: bool)
    ensures
        found == exists|k: int| 0 <= k < labels@.len() && (#[trigger] labels@[k]).name@ == name@,
{
    let mut i: usize = 0;
    while i < labels.len()
        invariant
            i <= labels.len(),
            forall|k: int| 0 <= k < i ==> (#[trigger] labels@[k]).name@ != name@,
        decreases labels.len() - i,
    {
        if str_eq(labels[i].name.as_str(), name) {
            return true;
        }
        i = i + 1;
    }
    false
}

/// One of `lookup` has the uid `uid`.
pub open spec fn has_entry(lookup: Seq<(String, Labelling)>, uid: Seq<char>) -> bool {
    exists|k: int| 0 <= k < lookup.len() && (#[trigger] lookup[k]).0@ == uid
}

/// A comment at index `from` or later wants an update and has the uid `uid`.
pub open spec fn wanted_from(
    comments: Seq<AnnotatedComment>,
    name: Seq<char>,
    uid: Seq<char>,
    from: int,
) -> bool {
    exists|i: int|
        from <= i < comments.len() && wants_update(#[trigger] comments[i], name) && comments[i].uid@
            == uid
}

/// Whether one of `entries` has the uid `uid`.
fn has_uid(entries: &Vec<(String, Labelling)>, uid: &str) -> (found: bool)
    ensures
        found == has_entry(entries@, uid@),
{
    let mut i: usize = 0;
    while i < entries.len()
        invariant
            i <= entries.len(),
            forall|k: int| 0 <= k < i ==> (#[trigger] entries@[k]).0@ != uid@,
        decreases entries.len() - i,
    {
        if str_eq(entries[i].0.as_str(), uid) {
            return true;
        }
        i = i + 1;
    }
    false
}

/// The comments whose labelling assigns the label `assigned_label_name`,
/// keyed by uid: no uid twice, each with the labelling of the last such
/// comment that has it.
pub fn make_labellings_lookup(
    annotated_comments: Vec<AnnotatedComment>,
    assigned_label_name: &str,
) -> (lookup: Vec<(String, Labelling)>)
    ensures
        forall|a: int, b: int|
            0 <= a < b < lookup@.len() ==> (#[trigger] lookup@[a]).0@ != (#[trigger] lookup@[b]).0@,
        forall|uid: Seq<char>|
            #[trigger] has_entry(lookup@, uid) <==> wanted_from(
                annotated_comments@,
                assigned_label_name@,
                uid,
                0,
            ),
        forall|k: int|
            0 <= k < lookup@.len() ==> is_last_labelling(
                annotated_comments@,
                assigned_label_name@,
                #[trigger] lookup@[k],
                0,
            ),
{
    let ghost all = annotated_comments@;
    let ghost name = assigned_label_name@;
    let mut comments = annotated_comments;
    let mut lookup: Vec<(String, Labelling)> = Vec::new();
    while comments.len() > 0
        invariant
            comments@ == all.take(comments@.len() as int),
            comments@.len() <= all.len(),
            name == assigned_label_name@,
            forall|a: int, b: int|
                0 <= a < b < lookup@.len() ==> (#[trigger] lookup@[a]).0@ != (#[trigger] lookup@[b]).0@,
            forall|uid: Seq<char>|
                #[trigger] has_entry(lookup@, uid) <==> wanted_from(
                    all,
                    name,
                    uid,
                    comments@.len() as int,
                ),
            forall|k: int|
                0 <= k < lookup@.len() ==> is_last_labelling(
                    all,
                    name,
                    #[trigger] lookup@[k],
                    comments@.len() as int,
                ),
        decreases comments@.len(),
    {
        let ghost n = (comments@.len() - 1) as int;
        let comment = comments.pop().unwrap();
        assert(comment == all[n]);
        assert(comments@ =~= all.take(n));
        let ghost before = lookup@;
        let mut wanted = false;
        let AnnotatedComment { uid, labelling } = comment;
        if let Some(labelling) = labelling {
            if assigns_label(&labelling.assigned, assigned_label_name) {
                wanted = true;
                if !has_uid(&lookup, uid.as_str()) {
                    proof {
                        assert forall|j: int|
                            n < j < all.len() && wants_update(#[trigger] all[j], name) implies all[j].uid@
                            != all[n].uid@ by {
                            if all[j].uid@ == all[n].uid@ {
                                assert(wanted_from(all, name, all[n].uid@, n + 1));
                            }
                        }
                    }
                    lookup.push((uid, labelling));
                    proof {
                        let after = lookup@;
                        assert(after[before.len() as int].0@ == all[n].uid@);
                        assert(has_entry(after, all[n].uid@));
                        assert forall|k: int| 0 <= k < after.len() implies is_last_labelling(
                            all,
                            name,
                            #[trigger] after[k],
                            n,
                        ) by {
                            if k < before.len() {
                                assert(after[k] == before[k]);
                                assert(is_last_labelling(all, name, before[k], n + 1));
                            } else {
                                assert(last_wanting(all, name, n));
                                assert(all[n].labelling->0 == after[k].1);
                            }
                        }
                        assert forall|uid2: Seq<char>|
                            #[trigger] has_entry(after, uid2) <== wanted_from(all, name, uid2, n) by {
                            if wanted_from(all, name, uid2, n) && uid2 != all[n].uid@ {
                                let i = choose|i: int|
                                    n <= i < all.len() && wants_update(#[trigger] all[i], name)
                                        && all[i].uid@ == uid2;
                                assert(wanted_from(all, name, uid2, n + 1));
                                assert(has_entry(before, uid2));
                                let k = choose|k: int| 0 <= k < before.len() && (#[trigger] before[k]).0@ == uid2;
                                assert(after[k] == before[k]);
                            }
                        }
                        assert forall|uid2: Seq<char>|
                            #[trigger] has_entry(after, uid2) ==> wanted_from(all, name, uid2, n) by {
                            if has_entry(after, uid2) {
                                let k = choose|k: int| 0 <= k < after.len() && (#[trigger] after[k]).0@ == uid2;
                                if k < before.len() {
                                    assert(before[k] == after[k]);
                                    assert(has_entry(before, uid2));
                                }
                            }
                        }
                    }
                }
            }
        }
        proof {
            if !wanted {
                assert(!wants_update(all[n], name));
            }
            if lookup@ == before {
                assert forall|k: int| 0 <= k < lookup@.len() implies is_last_labelling(
                    all,
                    name,
                    #[trigger] lookup@[k],
                    n,
                ) by {
                    assert(is_last_labelling(all, name, before[k], n + 1));
                }
            }
            assert forall|uid2: Seq<char>|
                #[trigger] has_entry(lookup@, uid2) <==> wanted_from(all, name, uid2, n) by {
                if wanted_from(all, name, uid2, n) {
                    let i = choose|i: int|
                        n <= i < all.len() && wants_update(#[trigger] all[i], name) && all[i].uid@ == uid2;
                    if i > n {
                        assert(wanted_from(all, name, uid2, n + 1));
                    }
                }
                if wanted_from(all, name, uid2, n + 1) {
                    let i = choose|i: int|
                        n + 1 <= i < all.len() && wants_update(#[trigger] all[i], name) && all[i].uid@ == uid2;
                    assert(wanted_from(all, name, uid2, n));
                }
            }
        }
    }
    lookup
}

/// Running totals shared with the progress display. Each counter is an
/// atomic that other threads read while it grows, so no contract states
/// which value a read returns.
pub struct Statistics {
    target_comments: AtomicUsize,
    labellings_updated: AtomicUsize,
}

impl Statistics {
    /// Both counters at zero.
    pub fn new() -> Statistics {
        Statistics { target_comments: AtomicUsize::new(0), labellings_updated: AtomicUsize::new(0) }
    }

    /// Counts `n` more target comments checked.
    pub fn add_target_comments(&self, n: usize) {
        self.target_comments.fetch_add(n, Ordering::SeqCst);
    }

    /// Counts `n` more labellings updated.
    pub fn add_labellings_updated(&self, n: usize) {
        self.labellings_updated.fetch_add(n, Ordering::SeqCst);
    }

    /// Target comments checked so far.
    pub fn target_comments(&self) -> usize {
        self.target_comments.load(Ordering::SeqCst)
    }

    /// Labellings updated so far.
    pub fn labellings_updated(&self) -> usize {
        self.labellings_updated.load(Ordering::SeqCst)
    }
}

} // verus!
