//! Counting a label trend report: how many sampled comments carry each label
//! on each day, for each model version.

use vstd::prelude::*;
use std::sync::atomic::{AtomicUsize, Ordering};
use crate::text::{contains_string, str_eq, string_views};

verus! {

/// The options of `re get custom-label-trend-report`; the report asks for
/// everything interactively.
pub struct GetCustomLabelTrendReportArgs {}

/// Most comments sampled for one report.
pub const MAX_COMMENT_SAMPLE: u64 = 150000u64;

/// How a sample of at most `MAX_COMMENT_SAMPLE` comments stands for a dataset
/// of `total` comments: the factor each count is multiplied by, and the
/// number of comments to sample.
pub open spec fn sampling(total: u64) -> (u64, u64) {
    let ratio = if total >= MAX_COMMENT_SAMPLE {
        (total / MAX_COMMENT_SAMPLE) as u64
    } else {
        1u64
    };
    let target = if total <= MAX_COMMENT_SAMPLE {
        total
    } else {
        MAX_COMMENT_SAMPLE
    };
    (ratio, target)
}

/// The scale factor and the sample size for a dataset of `total` comments.
pub fn sampling_plan(total: u64) -> (plan: (u64, u64))
    ensures
        plan == sampling(total),
        plan.1 <= MAX_COMMENT_SAMPLE,
        plan.0 >= 1,
{
    let ratio = if total >= MAX_COMMENT_SAMPLE {
        total / MAX_COMMENT_SAMPLE
    } else {
        1
    };
    let target = if total <= MAX_COMMENT_SAMPLE {
        total
    } else {
        MAX_COMMENT_SAMPLE
    };
    (ratio, target)
}

/// A model version, as the platform numbers them.
#[derive(PartialEq, Eq, Structural, Debug)]
pub struct ModelVersion(pub i64);

/// The predictions a report counts: those of a pinned model version, or of
/// the latest model.
#[derive(PartialEq, Eq, Structural, Debug)]
pub enum ModelVersionSelection {
    ModelVersion(ModelVersion),
    Latest,
}

/// Indices of selected items: increasing, each below `len`.
pub open spec fn valid_selections(selections: Seq<usize>, len: nat) -> bool {
    &&& forall|i: int, j: int| 0 <= i < j < selections.len() ==> selections[i] < selections[j]
    &&& forall|i: int| 0 <= i < selections.len() ==> selections[i] < len
}

/// The items of `names` whose index is not selected, in order.
pub open spec fn unselected(names: Seq<Seq<char>>, selections: Seq<usize>) -> Seq<Seq<char>>
    decreases names.len(),
{
    if names.len() == 0 {
        Seq::empty()
    } else {
        let rest = unselected(names.drop_last(), selections);
        if selections.contains((names.len() - 1) as usize) {
            rest
        } else {
            rest.push(names.last())
        }
    }
}

/// Only the selected indices within range matter.
proof fn lemma_unselected_in_range(names: Seq<Seq<char>>, a: Seq<usize>, b: Seq<usize>)
    requires
        forall|j: usize| (j as int) < names.len() ==> (a.contains(j) <==> b.contains(j)),
    ensures
        unselected(names, a) == unselected(names, b),
    decreases names.len(),
{
    if names.len() > 0 {
        lemma_unselected_in_range(names.drop_last(), a, b);
    }
}

/// With no index in range selected, every item is kept.
proof fn lemma_unselected_none(names: Seq<Seq<char>>, selections: Seq<usize>)
    requires
        forall|j: usize| (j as int) < names.len() ==> !selections.contains(j),
    ensures
        unselected(names, selections) == names,
    decreases names.len(),
{
    if names.len() > 0 {
        lemma_unselected_none(names.drop_last(), selections);
        assert(names.drop_last().push(names.last()) =~= names);
    }
}

/// Selecting one more index `i`, below every index already selected, removes
/// the item at `i` from what is kept, and that item is `names[i]`.
proof fn lemma_unselected_one_more(names: Seq<Seq<char>>, selections: Seq<usize>, i: usize)
    requires
        (i as int) < names.len(),
        names.len() <= usize::MAX,
        !selections.contains(i),
        forall|k: int| 0 <= k < selections.len() ==> i < selections[k],
    ensures
        (i as int) < unselected(names, selections).len(),
        unselected(names, selections)[i as int] == names[i as int],
        unselected(names, seq![i] + selections) == unselected(names, selections).remove(i as int),
    decreases names.len(),
{
    let more = seq![i] + selections;
    let init = names.drop_last();
    let m = (names.len() - 1) as usize;
    assert(m as int == names.len() - 1);
    assert(forall|j: usize| more.contains(j) <==> (j == i || selections.contains(j))) by {
        assert forall|j: usize| more.contains(j) <==> (j == i || selections.contains(j)) by {
            if more.contains(j) {
                let k = choose|k: int| 0 <= k < more.len() && more[k] == j;
                if k > 0 {
                    assert(selections[k - 1] == j);
                }
            }
            if j == i {
                assert(more[0] == j);
            }
            if selections.contains(j) {
                let k = choose|k: int| 0 <= k < selections.len() && selections[k] == j;
                assert(more[k + 1] == j);
            }
        }
    }
    if m == i {
        assert forall|j: usize| (j as int) < init.len() implies !selections.contains(j) by {
            if selections.contains(j) {
                let k = choose|k: int| 0 <= k < selections.len() && selections[k] == j;
                assert(i < selections[k]);
            }
        }
        lemma_unselected_none(init, selections);
        assert forall|j: usize| (j as int) < init.len() implies (more.contains(j)
            <==> selections.contains(j)) by {
            assert(j != i);
        }
        lemma_unselected_in_range(init, more, selections);
        assert(unselected(names, selections) == init.push(names.last()));
        assert(unselected(names, more) == unselected(init, more));
        assert(init.push(names.last()).remove(i as int) =~= init);
    } else {
        lemma_unselected_one_more(init, selections, i);
        let rest = unselected(init, selections);
        if selections.contains(m) {
            assert(unselected(names, selections) == rest);
            assert(unselected(names, more) == unselected(init, more));
        } else {
            assert(unselected(names, selections) == rest.push(names.last()));
            assert(unselected(names, more) == unselected(init, more).push(names.last()));
            assert(rest.push(names.last()).remove(i as int) =~= rest.remove(i as int).push(
                names.last(),
            ));
        }
    }
}

/// Takes the selected labels out of `label_names`: returns their names,
/// last selected first, and leaves the others in order. The selections are
/// item indices in increasing order, as a multi-select returns them.
pub fn pop_label_selection(label_names: &mut Vec<String>, selections: &[usize]) -> (popped: Vec<
    String,
>)
    requires
        valid_selections(selections@, old(label_names)@.len()),
    ensures
        string_views(popped@) == selections@.reverse().map_values(
            |i: usize| string_views(old(label_names)@)[i as int],
        ),
        string_views(final(label_names)@) == unselected(
            string_views(old(label_names)@),
            selections@,
        ),
{
    let ghost names = string_views(label_names@);
    let ghost all = selections@;
    let mut popped: Vec<String> = Vec::new();
    let mut k = selections.len();
    let count = label_names.len();
    proof {
        lemma_unselected_none(names, all.subrange(k as int, all.len() as int));
        assert(names.len() == count);
    }
    while k > 0
        invariant
            k <= selections.len(),
            names.len() <= usize::MAX,
            all == selections@,
            valid_selections(all, names.len()),
            string_views(label_names@) == unselected(names, all.subrange(k as int, all.len() as int)),
            string_views(popped@) == all.subrange(k as int, all.len() as int).reverse().map_values(
                |i: usize| names[i as int],
            ),
        decreases k,
    {
        let ghost later = all.subrange(k as int, all.len() as int);
        let index = selections[k - 1];
        proof {
            assert forall|j: int| 0 <= j < later.len() implies index < later[j] by {
                assert(later[j] == all[k + j]);
            }
            assert(!later.contains(index)) by {
                if later.contains(index) {
                    let j = choose|j: int| 0 <= j < later.len() && later[j] == index;
                    assert(later[j] == all[k + j]);
                }
            }
            lemma_unselected_one_more(names, later, index);
            assert(all.subrange(k - 1, all.len() as int) =~= seq![index] + later);
        }
        let ghost current = label_names@;
        let name = label_names.remove(index);
        proof {
            assert(string_views(label_names@) =~= string_views(current).remove(index as int));
            assert(name@ == string_views(current)[index as int]);
        }
        let ghost popped_before = string_views(popped@);
        popped.push(name);
        proof {
            let now = all.subrange(k - 1, all.len() as int);
            assert(name@ == names[index as int]);
            assert(string_views(popped@) =~= popped_before.push(names[index as int]));
            assert(later.reverse().push(index).map_values(|i: usize| names[i as int])
                =~= later.reverse().map_values(|i: usize| names[i as int]).push(names[index as int]));
            assert(now.reverse() =~= later.reverse().push(index));
            assert(string_views(popped@) =~= now.reverse().map_values(|i: usize| names[i as int]));
        }
        k = k - 1;
    }
    assert(all.subrange(0, all.len() as int) =~= all);
    popped
}

/// The model versions picked in a multi-select over `Latest` followed by
/// the pinned versions: item 0 is the latest model, item `i` the version
/// at `i - 1`.
pub fn model_version_selections(selections: &[usize], versions: &[i64]) -> (picked: Vec<
    ModelVersionSelection,
>)
    requires
        forall|i: int| 0 <= i < selections@.len() ==> selections@[i] <= versions@.len(),
    ensures
        picked@.len() == selections@.len(),
        forall|i: int|
            0 <= i < selections@.len() ==> picked@[i] == if selections@[i] == 0 {
                ModelVersionSelection::Latest
            } else {
                ModelVersionSelection::ModelVersion(ModelVersion(versions@[selections@[i] - 1]))
            },
{
    let mut picked: Vec<ModelVersionSelection> = Vec::new();
    let mut i: usize = 0;
    while i < selections.len()
        invariant
            i <= selections.len(),
            forall|k: int| 0 <= k < selections@.len() ==> selections@[k] <= versions@.len(),
            picked@.len() == i,
            forall|k: int|
                0 <= k < i ==> picked@[k] == if selections@[k] == 0 {
                    ModelVersionSelection::Latest
                } else {
                    ModelVersionSelection::ModelVersion(ModelVersion(versions@[selections@[k] - 1]))
                },
        decreases selections.len() - i,
    {
        let selection = selections[i];
        if selection == 0 {
            picked.push(ModelVersionSelection::Latest);
        } else {
            picked.push(ModelVersionSelection::ModelVersion(ModelVersion(versions[selection - 1])));
        }
        i = i + 1;
    }
    picked
}

/// Label counts of one day.
pub struct DateEntry {
    counts: Vec<(String, usize)>,
}

/// The count stored for `label` in `counts`, or 0.
pub open spec fn label_count(counts: Seq<(String, usize)>, label: Seq<char>) -> nat
    decreases counts.len(),
{
    if counts.len() == 0 {
        0
    } else if counts[0].0@ == label {
        counts[0].1 as nat
    } else {
        label_count(counts.drop_first(), label)
    }
}

proof fn lemma_label_count_at(counts: Seq<(String, usize)>, label: Seq<char>, i: int)
    requires
        0 <= i < counts.len(),
        counts[i].0@ == label,
        forall|k: int| 0 <= k < i ==> counts[k].0@ != label,
    ensures
        label_count(counts, label) == counts[i].1,
    decreases i,
{
    if i > 0 {
        let tail = counts.drop_first();
        assert forall|k: int| 0 <= k < i - 1 implies tail[k].0@ != label by {
            assert(tail[k] == counts[k + 1]);
        }
        lemma_label_count_at(tail, label, i - 1);
    }
}

proof fn lemma_label_count_absent(counts: Seq<(String, usize)>, label: Seq<char>)
    requires
        forall|k: int| 0 <= k < counts.len() ==> counts[k].0@ != label,
    ensures
        label_count(counts, label) == 0,
    decreases counts.len(),
{
    if counts.len() > 0 {
        let tail = counts.drop_first();
        assert forall|k: int| 0 <= k < tail.len() implies tail[k].0@ != label by {
            assert(tail[k] == counts[k + 1]);
        }
        lemma_label_count_absent(tail, label);
    }
}

/// Changing only the count at `i` changes only the count of its label.
proof fn lemma_label_count_update(counts: Seq<(String, usize)>, i: int, n: usize, other: Seq<char>)
    requires
        0 <= i < counts.len(),
        forall|a: int, b: int| 0 <= a < b < counts.len() ==> counts[a].0@ != counts[b].0@,
        other != counts[i].0@,
    ensures
        label_count(counts.update(i, (counts[i].0, n)), other) == label_count(counts, other),
    decreases counts.len(),
{
    let updated = counts.update(i, (counts[i].0, n));
    assert(updated.len() == counts.len());
    assert(updated[0].0@ == counts[0].0@);
    if counts[0].0@ != other && counts.len() > 1 {
        let tail = counts.drop_first();
        if i > 0 {
            assert(updated.drop_first() =~= tail.update(i - 1, (tail[i - 1].0, n)));
            assert forall|a: int, b: int| 0 <= a < b < tail.len() implies tail[a].0@ != tail[b].0@ by {
                assert(tail[a] == counts[a + 1]);
                assert(tail[b] == counts[b + 1]);
            }
            lemma_label_count_update(tail, i - 1, n, other);
        } else {
            assert(updated.drop_first() =~= tail);
        }
    } else if counts[0].0@ == other {
        assert(i != 0);
        assert(updated[0] == counts[0]);
    } else {
        assert(i == 0);
        assert(updated.drop_first() =~= counts.drop_first());
    }
}

proof fn lemma_label_count_push(counts: Seq<(String, usize)>, entry: (String, usize), label: Seq<char>)
    requires
        forall|k: int| 0 <= k < counts.len() ==> counts[k].0@ != entry.0@,
    ensures
        label_count(counts.push(entry), label) == if label == entry.0@ {
            entry.1 as nat
        } else {
            label_count(counts, label)
        },
    decreases counts.len(),
{
    let pushed = counts.push(entry);
    if counts.len() == 0 {
        assert(pushed.drop_first() =~= Seq::<(String, usize)>::empty());
        assert(label_count(pushed.drop_first(), label) == 0);
    } else {
        let tail = counts.drop_first();
        assert(pushed.drop_first() =~= tail.push(entry));
        assert forall|k: int| 0 <= k < tail.len() implies tail[k].0@ != entry.0@ by {
            assert(tail[k] == counts[k + 1]);
        }
        lemma_label_count_push(tail, entry, label);
    }
}

proof fn lemma_label_count_scaled(
    before: Seq<(String, usize)>,
    after: Seq<(String, usize)>,
    factor: usize,
    label: Seq<char>,
)
    requires
        before.len() == after.len(),
        forall|k: int| 0 <= k < before.len() ==> #[trigger] after[k].0 == before[k].0,
        forall|k: int| 0 <= k < before.len() ==> #[trigger] after[k].1 == before[k].1 * factor,
    ensures
        label_count(after, label) == label_count(before, label) * factor,
    decreases before.len(),
{
    if before.len() == 0 {
        assert(0 * factor == 0) by (nonlinear_arith);
    } else {
        assert(after[0].0 == before[0].0);
        assert(after[0].1 == before[0].1 * factor);
        let tb = before.drop_first();
        let ta = after.drop_first();
        assert forall|k: int| 0 <= k < tb.len() implies #[trigger] ta[k].0 == tb[k].0 by {
            assert(ta[k] == after[k + 1]);
            assert(tb[k] == before[k + 1]);
        }
        assert forall|k: int| 0 <= k < tb.len() implies #[trigger] ta[k].1 == tb[k].1 * factor by {
            assert(ta[k] == after[k + 1]);
            assert(tb[k] == before[k + 1]);
        }
        lemma_label_count_scaled(tb, ta, factor, label);
    }
}

impl DateEntry {
    /// The count of `label` on this day.
    pub closed spec fn count(&self, label: Seq<char>) -> nat {
        label_count(self.counts@, label)
    }

    /// No label is stored twice.
    pub closed spec fn wf(&self) -> bool {
        forall|a: int, b: int|
            0 <= a < b < self.counts@.len() ==> self.counts@[a].0@ != self.counts@[b].0@
    }

    /// A day with no label counted.
    pub fn new() -> (entry: DateEntry)
        ensures
            entry.wf(),
            forall|label: Seq<char>| #[trigger] entry.count(label) == 0,
    {
        DateEntry { counts: Vec::new() }
    }

    /// Counts one more comment with `label`.
    pub fn count_label(&mut self, label: &str)
        requires
            old(self).wf(),
            old(self).count(label@) < usize::MAX,
        ensures
            final(self).wf(),
            forall|other: Seq<char>|
                #[trigger] final(self).count(other) == old(self).count(other) + if other == label@ {
                    1nat
                } else {
                    0nat
                },
    {
        let mut i: usize = 0;
        while i < self.counts.len()
            invariant
                i <= self.counts.len(),
                self.counts@ == old(self).counts@,
                old(self).wf(),
                old(self).count(label@) < usize::MAX,
                forall|k: int| 0 <= k < i ==> self.counts@[k].0@ != label@,
            decreases self.counts.len() - i,
        {
            if str_eq(self.counts[i].0.as_str(), label) {
                let ghost before = self.counts@;
                proof {
                    lemma_label_count_at(before, label@, i as int);
                }
                let n = self.counts[i].1 + 1;
                self.counts[i].1 = n;
                proof {
                    assert(self.counts@ == before.update(i as int, (before[i as int].0, n)));
                    lemma_label_count_at(self.counts@, label@, i as int);
                    assert forall|other: Seq<char>| #[trigger] self.count(other) == old(self).count(
                        other,
                    ) + if other == label@ {
                        1nat
                    } else {
                        0nat
                    } by {
                        if other != label@ {
                            lemma_label_count_update(before, i as int, n, other);
                        }
                    }
                }
                return;
            }
            i = i + 1;
        }
        let ghost before = self.counts@;
        proof {
            lemma_label_count_absent(before, label@);
        }
        self.counts.push((crate::text::owned(label), 1));
        proof {
            assert forall|other: Seq<char>| #[trigger] self.count(other) == old(self).count(other)
                + if other == label@ {
                1nat
            } else {
                0nat
            } by {
                lemma_label_count_push(before, self.counts@.last(), other);
                assert(self.counts@ == before.push(self.counts@.last()));
            }
        }
    }

    /// Multiplies every count by `factor`.
    pub fn scale(&mut self, factor: usize)
        requires
            old(self).wf(),
            forall|label: Seq<char>| #[trigger] old(self).count(label) * factor <= usize::MAX,
        ensures
            final(self).wf(),
            forall|label: Seq<char>| #[trigger] final(self).count(label) == old(self).count(label)
                * factor,
    {
        let ghost before = self.counts@;
        assert forall|label: Seq<char>| #[trigger] label_count(before, label) * factor
            <= usize::MAX by {
            assert(old(self).count(label) * factor <= usize::MAX);
        }
        let mut i: usize = 0;
        while i < self.counts.len()
            invariant
                i <= self.counts.len(),
                self.counts@.len() == before.len(),
                forall|a: int, b: int| 0 <= a < b < before.len() ==> before[a].0@ != before[b].0@,
                forall|k: int| 0 <= k < before.len() ==> #[trigger] self.counts@[k].0 == before[k].0,
                forall|k: int| 0 <= k < i ==> #[trigger] self.counts@[k].1 == before[k].1 * factor,
                forall|k: int| i <= k < before.len() ==> #[trigger] self.counts@[k].1 == before[k].1,
                forall|label: Seq<char>| #[trigger] label_count(before, label) * factor <= usize::MAX,
            decreases self.counts.len() - i,
        {
            proof {
                assert forall|k: int| 0 <= k < i implies before[k].0@ != before[i as int].0@ by {}
                lemma_label_count_at(before, before[i as int].0@, i as int);
                assert(label_count(before, before[i as int].0@) * factor <= usize::MAX);
            }
            let n = self.counts[i].1 * factor;
            self.counts[i].1 = n;
            i = i + 1;
        }
        proof {
            assert forall|label: Seq<char>| #[trigger] self.count(label) == label_count(before, label)
                * factor by {
                lemma_label_count_scaled(before, self.counts@, factor, label);
            }
        }
    }

    /// The count of `label` on this day.
    pub fn get_label_count(&self, label: &str) -> (n: usize)
        ensures
            n == self.count(label@),
    {
        let mut i: usize = 0;
        while i < self.counts.len()
            invariant
                i <= self.counts.len(),
                forall|k: int| 0 <= k < i ==> self.counts@[k].0@ != label@,
            decreases self.counts.len() - i,
        {
            if str_eq(self.counts[i].0.as_str(), label) {
                proof {
                    lemma_label_count_at(self.counts@, label@, i as int);
                }
                return self.counts[i].1;
            }
            i = i + 1;
        }
        proof {
            lemma_label_count_absent(self.counts@, label@);
        }
        0
    }
}

/// The index of the first entry whose key is `key`, if any.
pub open spec fn index_of<K, V>(entries: Seq<(K, V)>, key: K) -> Option<int>
    decreases entries.len(),
{
    if entries.len() == 0 {
        None
    } else if entries[0].0 == key {
        Some(0)
    } else {
        match index_of(entries.drop_first(), key) {
            Some(i) => Some(i + 1),
            None => None,
        }
    }
}

/// No key occurs twice.
pub open spec fn keys_unique<K, V>(entries: Seq<(K, V)>) -> bool {
    forall|a: int, b: int| 0 <= a < b < entries.len() ==> entries[a].0 != entries[b].0
}

proof fn lemma_index_of<K, V>(entries: Seq<(K, V)>, key: K)
    ensures
        index_of(entries, key) matches Some(i) ==> 0 <= i < entries.len() && entries[i].0 == key
            && forall|k: int| 0 <= k < i ==> entries[k].0 != key,
        index_of(entries, key) is None ==> forall|k: int|
            0 <= k < entries.len() ==> entries[k].0 != key,
    decreases entries.len(),
{
    if entries.len() > 0 {
        let tail = entries.drop_first();
        lemma_index_of(tail, key);
        assert forall|k: int| 0 <= k < tail.len() implies tail[k] == entries[k + 1] by {}
        if entries[0].0 != key {
            if let Some(i) = index_of(tail, key) {
                assert forall|k: int| 0 <= k < i + 1 implies entries[k].0 != key by {
                    if k > 0 {
                        assert(entries[k] == tail[k - 1]);
                    }
                }
            } else {
                assert forall|k: int| 0 <= k < entries.len() implies entries[k].0 != key by {
                    if k > 0 {
                        assert(entries[k] == tail[k - 1]);
                    }
                }
            }
        }
    }
}

proof fn lemma_index_of_at<K, V>(entries: Seq<(K, V)>, key: K, i: int)
    requires
        0 <= i < entries.len(),
        entries[i].0 == key,
        forall|k: int| 0 <= k < i ==> entries[k].0 != key,
    ensures
        index_of(entries, key) == Some(i),
{
    lemma_index_of(entries, key);
    if let Some(j) = index_of(entries, key) {
        if j < i {
        } else if i < j {
        }
    }
}

/// Entries with the same keys, position by position, find every key at the
/// same index.
proof fn lemma_index_of_same_keys<K, V>(a: Seq<(K, V)>, b: Seq<(K, V)>, key: K)
    requires
        a.len() == b.len(),
        forall|k: int| 0 <= k < a.len() ==> a[k].0 == b[k].0,
    ensures
        index_of(a, key) == index_of(b, key),
{
    lemma_index_of(a, key);
    lemma_index_of(b, key);
    if let Some(i) = index_of(a, key) {
        lemma_index_of_at(b, key, i);
    } else if let Some(j) = index_of(b, key) {
        assert(a[j].0 == key);
    }
}

/// An entry appended with a key not yet present is found at the end; every
/// other key is found where it was.
proof fn lemma_index_of_push<K, V>(entries: Seq<(K, V)>, entry: (K, V), key: K)
    requires
        index_of(entries, entry.0) is None,
    ensures
        index_of(entries.push(entry), key) == if key == entry.0 {
            Some(entries.len() as int)
        } else {
            index_of(entries, key)
        },
{
    let pushed = entries.push(entry);
    lemma_index_of(entries, entry.0);
    lemma_index_of(entries, key);
    assert forall|k: int| 0 <= k < entries.len() implies pushed[k] == entries[k] by {}
    if key == entry.0 {
        lemma_index_of_at(pushed, key, entries.len() as int);
    } else {
        lemma_index_of(pushed, key);
        if let Some(i) = index_of(entries, key) {
            lemma_index_of_at(pushed, key, i);
        } else if let Some(j) = index_of(pushed, key) {
            assert(j < entries.len());
        }
    }
}

/// Label counts of each day, for one model version.
pub struct ModelVersionEntry {
    dates: Vec<(i32, DateEntry)>,
}

impl ModelVersionEntry {
    /// The count of `label` on day `date`.
    pub closed spec fn count(&self, date: i32, label: Seq<char>) -> nat {
        match index_of(self.dates@, date) {
            Some(i) => self.dates@[i].1.count(label),
            None => 0,
        }
    }

    pub closed spec fn wf(&self) -> bool {
        &&& keys_unique(self.dates@)
        &&& forall|i: int| 0 <= i < self.dates@.len() ==> (#[trigger] self.dates@[i]).1.wf()
    }

    /// No day counted yet.
    pub fn new() -> (entry: ModelVersionEntry)
        ensures
            entry.wf(),
            forall|date: i32, label: Seq<char>| #[trigger] entry.count(date, label) == 0,
    {
        ModelVersionEntry { dates: Vec::new() }
    }

    /// Counts one more comment with `label` on day `date`.
    pub fn count_label(&mut self, date: i32, label: &str)
        requires
            old(self).wf(),
            old(self).count(date, label@) < usize::MAX,
        ensures
            final(self).wf(),
            forall|d: i32, other: Seq<char>|
                #[trigger] final(self).count(d, other) == old(self).count(d, other) + if d == date
                    && other == label@ {
                    1nat
                } else {
                    0nat
                },
    {
        let ghost before = self.dates@;
        proof {
            lemma_index_of(before, date);
        }
        let mut i: usize = 0;
        while i < self.dates.len()
            invariant
                i <= self.dates.len(),
                self.dates@ == before,
                forall|k: int| 0 <= k < i ==> self.dates@[k].0 != date,
            ensures
                i <= self.dates.len(),
                self.dates@ == before,
                forall|k: int| 0 <= k < i ==> self.dates@[k].0 != date,
                i < self.dates.len() ==> self.dates@[i as int].0 == date,
            decreases self.dates.len() - i,
        {
            if self.dates[i].0 == date {
                break;
            }
            i = i + 1;
        }
        if i == self.dates.len() {
            proof {
                lemma_index_of(before, date);
            }
            self.dates.push((date, DateEntry::new()));
            proof {
                assert forall|d: i32| #[trigger] index_of(self.dates@, d) == if d == date {
                    Some(before.len() as int)
                } else {
                    index_of(before, d)
                } by {
                    lemma_index_of_push(before, self.dates@.last(), d);
                    assert(self.dates@ == before.push(self.dates@.last()));
                }
                assert forall|a: int, b: int| 0 <= a < b < self.dates@.len() implies self.dates@[a].0
                    != self.dates@[b].0 by {
                    if b == before.len() {
                        assert(self.dates@[a] == before[a]);
                    }
                }
            }
        }
        let ghost middle = self.dates@;
        proof {
            lemma_index_of_at(middle, date, i as int);
            assert forall|d: i32, other: Seq<char>| #[trigger] old(self).count(d, other) == (
            match index_of(middle, d) {
                Some(j) => middle[j].1.count(other),
                None => 0,
            }) by {
                lemma_index_of(middle, d);
                lemma_index_of(before, d);
                if i == before.len() {
                    lemma_index_of_push(before, middle.last(), d);
                    assert(middle == before.push(middle.last()));
                    if d != date {
                        if let Some(j) = index_of(before, d) {
                            assert(middle[j] == before[j]);
                        }
                    } else {
                        assert(middle.last().1.count(other) == 0);
                    }
                }
            }
        }
        self.dates[i].1.count_label(label);
        proof {
            let after = self.dates@;
            assert forall|k: int| 0 <= k < after.len() implies after[k].0 == middle[k].0 by {}
            assert forall|d: i32| #[trigger] index_of(after, d) == index_of(middle, d) by {
                lemma_index_of_same_keys(after, middle, d);
            }
            assert forall|k: int| 0 <= k < after.len() implies (#[trigger] after[k]).1.wf() by {
                if k != i {
                    assert(after[k] == middle[k]);
                }
            }
            assert forall|d: i32, other: Seq<char>| #[trigger] self.count(d, other) == old(self).count(
                d,
                other,
            ) + if d == date && other == label@ {
                1nat
            } else {
                0nat
            } by {
                lemma_index_of(middle, d);
                if let Some(j) = index_of(middle, d) {
                    if j != i {
                        assert(after[j] == middle[j]);
                    }
                }
            }
        }
    }

    /// Multiplies every count by `factor`.
    pub fn scale(&mut self, factor: usize)
        requires
            old(self).wf(),
            forall|date: i32, label: Seq<char>|
                #[trigger] old(self).count(date, label) * factor <= usize::MAX,
        ensures
            final(self).wf(),
            forall|date: i32, label: Seq<char>|
                #[trigger] final(self).count(date, label) == old(self).count(date, label) * factor,
    {
        let ghost before = self.dates@;
        let mut i: usize = 0;
        while i < self.dates.len()
            invariant
                i <= self.dates.len(),
                self.dates@.len() == before.len(),
                keys_unique(before),
                forall|k: int| 0 <= k < before.len() ==> (#[trigger] before[k]).1.wf(),
                forall|k: int| 0 <= k < before.len() ==> #[trigger] self.dates@[k].0 == before[k].0,
                forall|k: int| 0 <= k < before.len() ==> (#[trigger] self.dates@[k]).1.wf(),
                forall|k: int, label: Seq<char>|
                    0 <= k < i ==> #[trigger] self.dates@[k].1.count(label) == before[k].1.count(label)
                        * factor,
                forall|k: int| i <= k < before.len() ==> #[trigger] self.dates@[k] == before[k],
                forall|date: i32, label: Seq<char>|
                    #[trigger] old(self).count(date, label) * factor <= usize::MAX,
                old(self).dates@ == before,
            decreases self.dates.len() - i,
        {
            proof {
                assert forall|k: int| 0 <= k < i implies before[k].0 != before[i as int].0 by {}
                lemma_index_of_at(before, before[i as int].0, i as int);
                assert forall|label: Seq<char>| #[trigger] self.dates@[i as int].1.count(label) * factor
                    <= usize::MAX by {
                    assert(old(self).count(before[i as int].0, label) * factor <= usize::MAX);
                }
            }
            self.dates[i].1.scale(factor);
            i = i + 1;
        }
        proof {
            assert forall|k: int| 0 <= k < self.dates@.len() implies self.dates@[k].0 == before[k].0 by {}
            assert forall|date: i32, label: Seq<char>| #[trigger] self.count(date, label) == old(
                self,
            ).count(date, label) * factor by {
                lemma_index_of_same_keys(self.dates@, before, date);
                lemma_index_of(before, date);
                if index_of(before, date) is None {
                    assert(0 * factor == 0) by (nonlinear_arith);
                }
            }
        }
    }

    /// The count of `label` on day `date`.
    pub fn get_label_count(&self, date: i32, label: &str) -> (n: usize)
        ensures
            n == self.count(date, label@),
    {
        let mut i: usize = 0;
        while i < self.dates.len()
            invariant
                i <= self.dates.len(),
                forall|k: int| 0 <= k < i ==> self.dates@[k].0 != date,
            decreases self.dates.len() - i,
        {
            if self.dates[i].0 == date {
                proof {
                    lemma_index_of_at(self.dates@, date, i as int);
                }
                return self.dates[i].1.get_label_count(label);
            }
            i = i + 1;
        }
        proof {
            lemma_index_of(self.dates@, date);
        }
        0
    }
}

/// A label trend report: for each model version, the count of each label on
/// each day, and the labels in the order they were first counted.
pub struct Report {
    volume_by_date: Vec<(ModelVersionSelection, ModelVersionEntry)>,
    labels: Vec<String>,
    start_date: i32,
    end_date: i32,
}

impl Report {
    /// The count of `label` on day `date` for `model_version`.
    pub closed spec fn count(&self, model_version: ModelVersionSelection, date: i32, label: Seq<char>) -> nat {
        match index_of(self.volume_by_date@, model_version) {
            Some(i) => self.volume_by_date@[i].1.count(date, label),
            None => 0,
        }
    }

    /// The labels counted so far, in the order first counted.
    pub closed spec fn labels(&self) -> Seq<Seq<char>> {
        self.labels@.map_values(|label: String| label@)
    }

    /// The model versions counted so far, in the order first counted.
    pub closed spec fn model_versions(&self) -> Seq<ModelVersionSelection> {
        self.volume_by_date@.map_values(|entry: (ModelVersionSelection, ModelVersionEntry)| entry.0)
    }

    /// The first day of the report, as a day number.
    pub closed spec fn start(&self) -> i32 {
        self.start_date
    }

    /// The last day of the report, as a day number.
    pub closed spec fn end(&self) -> i32 {
        self.end_date
    }

    pub closed spec fn wf(&self) -> bool {
        &&& keys_unique(self.volume_by_date@)
        &&& forall|i: int|
            0 <= i < self.volume_by_date@.len() ==> (#[trigger] self.volume_by_date@[i]).1.wf()
    }

    /// An empty report over the days `start_date` to `end_date`.
    pub fn new(start_date: i32, end_date: i32) -> (report: Report)
        ensures
            report.wf(),
            report.start() == start_date,
            report.end() == end_date,
            report.labels() == Seq::<Seq<char>>::empty(),
            report.model_versions() == Seq::<ModelVersionSelection>::empty(),
            forall|m: ModelVersionSelection, d: i32, l: Seq<char>| #[trigger] report.count(m, d, l) == 0,
    {
        let report = Report { volume_by_date: Vec::new(), labels: Vec::new(), start_date, end_date };
        assert(report.labels@.map_values(|label: String| label@) =~= Seq::<Seq<char>>::empty());
        assert(report.volume_by_date@.map_values(
            |entry: (ModelVersionSelection, ModelVersionEntry)| entry.0,
        ) =~= Seq::<ModelVersionSelection>::empty());
        report
    }

    /// Counts one more comment with `label` on day `date` for `model_version`.
    pub fn count_label(&mut self, model_version: &ModelVersionSelection, date: i32, label: &str)
        requires
            old(self).wf(),
            old(self).count(*model_version, date, label@) < usize::MAX,
        ensures
            final(self).wf(),
            final(self).start() == old(self).start(),
            final(self).end() == old(self).end(),
            final(self).labels() == if old(self).labels().contains(label@) {
                old(self).labels()
            } else {
                old(self).labels().push(label@)
            },
            forall|m: ModelVersionSelection, d: i32, l: Seq<char>|
                #[trigger] final(self).count(m, d, l) == old(self).count(m, d, l) + if m
                    == *model_version && d == date && l == label@ {
                    1nat
                } else {
                    0nat
                },
    {
        let mut known = false;
        let mut k: usize = 0;
        while k < self.labels.len()
            invariant_except_break
                !known,
            invariant
                k <= self.labels.len(),
                forall|j: int| 0 <= j < k ==> self.labels@[j]@ != label@,
            ensures
                known ==> self.labels().contains(label@),
                !known ==> forall|j: int| 0 <= j < self.labels@.len() ==> self.labels@[j]@ != label@,
            decreases self.labels.len() - k,
        {
            if str_eq(self.labels[k].as_str(), label) {
                known = true;
                assert(self.labels()[k as int] == label@);
                break;
            }
            k = k + 1;
        }
        if !known {
            let ghost labels_before = self.labels@;
            self.labels.push(crate::text::owned(label));
            assert(self.labels@.map_values(|label: String| label@) =~= labels_before.map_values(
                |label: String| label@,
            ).push(label@));
        }
        proof {
            if !known {
                assert(!old(self).labels().contains(label@)) by {
                    if old(self).labels().contains(label@) {
                        let j = choose|j: int| 0 <= j < old(self).labels().len() && old(self).labels()[j] == label@;
                        assert(old(self).labels@[j]@ == label@);
                    }
                }
            }
        }
        let ghost before = self.volume_by_date@;
        let mut i: usize = 0;
        while i < self.volume_by_date.len()
            invariant
                i <= self.volume_by_date.len(),
                self.volume_by_date@ == before,
                forall|j: int| 0 <= j < i ==> self.volume_by_date@[j].0 != *model_version,
            ensures
                i <= self.volume_by_date.len(),
                self.volume_by_date@ == before,
                forall|j: int| 0 <= j < i ==> self.volume_by_date@[j].0 != *model_version,
                i < self.volume_by_date.len() ==> self.volume_by_date@[i as int].0 == *model_version,
            decreases self.volume_by_date.len() - i,
        {
            if self.volume_by_date[i].0 == *model_version {
                break;
            }
            i = i + 1;
        }
        if i == self.volume_by_date.len() {
            proof {
                lemma_index_of(before, *model_version);
            }
            let selection = match model_version {
                ModelVersionSelection::ModelVersion(version) => ModelVersionSelection::ModelVersion(
                    ModelVersion(version.0),
                ),
                ModelVersionSelection::Latest => ModelVersionSelection::Latest,
            };
            self.volume_by_date.push((selection, ModelVersionEntry::new()));
            proof {
                assert forall|a: int, b: int| 0 <= a < b < self.volume_by_date@.len() implies self.volume_by_date@[a].0
                    != self.volume_by_date@[b].0 by {
                    if b == before.len() {
                        assert(self.volume_by_date@[a] == before[a]);
                    }
                }
            }
        }
        let ghost middle = self.volume_by_date@;
        proof {
            lemma_index_of_at(middle, *model_version, i as int);
            assert forall|m: ModelVersionSelection, d: i32, l: Seq<char>| #[trigger] old(self).count(m, d, l) == (
            match index_of(middle, m) {
                Some(j) => middle[j].1.count(d, l),
                None => 0,
            }) by {
                lemma_index_of(middle, m);
                lemma_index_of(before, m);
                if i == before.len() {
                    lemma_index_of_push(before, middle.last(), m);
                    assert(middle == before.push(middle.last()));
                    if m != *model_version {
                        if let Some(j) = index_of(before, m) {
                            assert(middle[j] == before[j]);
                        }
                    } else {
                        assert(middle.last().1.count(d, l) == 0);
                    }
                }
            }
        }
        self.volume_by_date[i].1.count_label(date, label);
        proof {
            let after = self.volume_by_date@;
            assert forall|k: int| 0 <= k < after.len() implies after[k].0 == middle[k].0 by {}
            assert forall|m: ModelVersionSelection| #[trigger] index_of(after, m) == index_of(middle, m) by {
                lemma_index_of_same_keys(after, middle, m);
            }
            assert forall|k: int| 0 <= k < after.len() implies (#[trigger] after[k]).1.wf() by {
                if k != i {
                    assert(after[k] == middle[k]);
                }
            }
            assert forall|m: ModelVersionSelection, d: i32, l: Seq<char>| #[trigger] self.count(m, d, l) == old(self).count(
                m,
                d,
                l,
            ) + if m == *model_version && d == date && l == label@ {
                1nat
            } else {
                0nat
            } by {
                lemma_index_of(middle, m);
                if let Some(j) = index_of(middle, m) {
                    if j != i {
                        assert(after[j] == middle[j]);
                    }
                }
            }
        }
    }

    /// The labels counted so far, in the order first counted.
    pub fn get_labels(&self) -> (labels: &Vec<String>)
        ensures
            string_views(labels@) == self.labels(),
    {
        &self.labels
    }

    /// The first and last day of the report.
    pub fn date_bounds(&self) -> (bounds: (i32, i32))
        ensures
            bounds == (self.start(), self.end()),
    {
        (self.start_date, self.end_date)
    }

    /// The model versions counted so far, in the order first counted.
    pub fn get_model_versions(&self) -> (versions: Vec<ModelVersionSelection>)
        ensures
            versions@ == self.model_versions(),
    {
        let mut versions: Vec<ModelVersionSelection> = Vec::new();
        let mut i: usize = 0;
        while i < self.volume_by_date.len()
            invariant
                i <= self.volume_by_date.len(),
                versions@ == self.model_versions().take(i as int),
            decreases self.volume_by_date.len() - i,
        {
            let selection = match &self.volume_by_date[i].0 {
                ModelVersionSelection::ModelVersion(version) => ModelVersionSelection::ModelVersion(
                    ModelVersion(version.0),
                ),
                ModelVersionSelection::Latest => ModelVersionSelection::Latest,
            };
            versions.push(selection);
            assert(versions@ =~= self.model_versions().take(i + 1));
            i = i + 1;
        }
        assert(self.model_versions().take(self.volume_by_date@.len() as int) =~= self.model_versions());
        versions
    }

    /// The counts of every label, in label order, on day `date` for
    /// `model_version`: one row of the report's table.
    pub fn counts_row(&self, model_version: &ModelVersionSelection, date: i32) -> (row: Vec<usize>)
        ensures
            row@.len() == self.labels().len(),
            forall|k: int|
                0 <= k < row@.len() ==> row@[k] == self.count(*model_version, date, self.labels()[k]),
    {
        let mut i: usize = 0;
        while i < self.volume_by_date.len()
            invariant
                i <= self.volume_by_date.len(),
                forall|j: int| 0 <= j < i ==> self.volume_by_date@[j].0 != *model_version,
            ensures
                i <= self.volume_by_date.len(),
                forall|j: int| 0 <= j < i ==> self.volume_by_date@[j].0 != *model_version,
                i < self.volume_by_date.len() ==> self.volume_by_date@[i as int].0 == *model_version,
            decreases self.volume_by_date.len() - i,
        {
            if self.volume_by_date[i].0 == *model_version {
                break;
            }
            i = i + 1;
        }
        proof {
            if i < self.volume_by_date.len() {
                lemma_index_of_at(self.volume_by_date@, *model_version, i as int);
            } else {
                lemma_index_of(self.volume_by_date@, *model_version);
            }
        }
        let mut row: Vec<usize> = Vec::new();
        let mut k: usize = 0;
        while k < self.labels.len()
            invariant
                k <= self.labels.len(),
                i <= self.volume_by_date.len(),
                i < self.volume_by_date.len() ==> index_of(self.volume_by_date@, *model_version)
                    == Some(i as int),
                i == self.volume_by_date.len() ==> index_of(self.volume_by_date@, *model_version)
                    is None,
                row@.len() == k,
                forall|q: int|
                    0 <= q < k ==> row@[q] == self.count(*model_version, date, self.labels()[q]),
            decreases self.labels.len() - k,
        {
            let n = if i < self.volume_by_date.len() {
                self.volume_by_date[i].1.get_label_count(date, self.labels[k].as_str())
            } else {
                0
            };
            assert(self.labels()[k as int] == self.labels@[k as int]@);
            row.push(n);
            k = k + 1;
        }
        row
    }

    /// Multiplies every count by `scale`, so that counts over a sample stand
    /// for the whole dataset.
    pub fn scale_sampled_results(&mut self, scale: usize)
        requires
            old(self).wf(),
            forall|m: ModelVersionSelection, d: i32, l: Seq<char>|
                #[trigger] old(self).count(m, d, l) * scale <= usize::MAX,
        ensures
            final(self).wf(),
            final(self).labels() == old(self).labels(),
            final(self).model_versions() == old(self).model_versions(),
            final(self).start() == old(self).start(),
            final(self).end() == old(self).end(),
            forall|m: ModelVersionSelection, d: i32, l: Seq<char>|
                #[trigger] final(self).count(m, d, l) == old(self).count(m, d, l) * scale,
    {
        let ghost before = self.volume_by_date@;
        let mut i: usize = 0;
        while i < self.volume_by_date.len()
            invariant
                i <= self.volume_by_date.len(),
                self.volume_by_date@.len() == before.len(),
                keys_unique(before),
                forall|k: int| 0 <= k < before.len() ==> (#[trigger] before[k]).1.wf(),
                forall|k: int| 0 <= k < before.len() ==> #[trigger] self.volume_by_date@[k].0 == before[k].0,
                forall|k: int| 0 <= k < before.len() ==> (#[trigger] self.volume_by_date@[k]).1.wf(),
                forall|k: int, d: i32, l: Seq<char>|
                    0 <= k < i ==> #[trigger] self.volume_by_date@[k].1.count(d, l) == before[k].1.count(d, l)
                        * scale,
                forall|k: int| i <= k < before.len() ==> #[trigger] self.volume_by_date@[k] == before[k],
                forall|m: ModelVersionSelection, d: i32, l: Seq<char>|
                    #[trigger] old(self).count(m, d, l) * scale <= usize::MAX,
                old(self).volume_by_date@ == before,
                self.labels == old(self).labels,
                self.start_date == old(self).start_date,
                self.end_date == old(self).end_date,
            decreases self.volume_by_date.len() - i,
        {
            proof {
                assert forall|k: int| 0 <= k < i implies before[k].0 != before[i as int].0 by {}
                lemma_index_of_at(before, before[i as int].0, i as int);
                assert forall|d: i32, l: Seq<char>| #[trigger] self.volume_by_date@[i as int].1.count(d, l) * scale
                    <= usize::MAX by {
                    assert(old(self).count(before[i as int].0, d, l) * scale <= usize::MAX);
                }
            }
            self.volume_by_date[i].1.scale(scale);
            i = i + 1;
        }
        proof {
            assert forall|k: int| 0 <= k < self.volume_by_date@.len() implies self.volume_by_date@[k].0 == before[k].0 by {}
            assert(self.volume_by_date@.map_values(|entry: (ModelVersionSelection, ModelVersionEntry)| entry.0)
                =~= before.map_values(|entry: (ModelVersionSelection, ModelVersionEntry)| entry.0));
            assert forall|m: ModelVersionSelection, d: i32, l: Seq<char>| #[trigger] self.count(m, d, l) == old(
                self,
            ).count(m, d, l) * scale by {
                lemma_index_of_same_keys(self.volume_by_date@, before, m);
                lemma_index_of(before, m);
                if index_of(before, m) is None {
                    assert(0 * scale == 0) by (nonlinear_arith);
                }
            }
        }
    }
}

/// The first of `predicted` that is one of `included`, if any.
pub open spec fn first_included(predicted: Seq<Seq<char>>, included: Seq<Seq<char>>) -> Option<
    Seq<char>,
>
    decreases predicted.len(),
{
    if predicted.len() == 0 {
        None
    } else if included.contains(predicted[0]) {
        Some(predicted[0])
    } else {
        first_included(predicted.drop_first(), included)
    }
}

/// The label a comment with these predicted labels is counted under: none if
/// any of them is excluded, else the first that is included, if any.
pub open spec fn counted_label(
    predicted: Seq<Seq<char>>,
    included: Seq<Seq<char>>,
    excluded: Seq<Seq<char>>,
) -> Option<Seq<char>> {
    if exists|i: int| 0 <= i < predicted.len() && excluded.contains(#[trigger] predicted[i]) {
        None
    } else {
        first_included(predicted, included)
    }
}

/// A comment carrying an excluded label, at any position among its
/// predicted labels, is counted under no label.
pub proof fn lemma_excluded_label_is_never_counted(
    predicted: Seq<Seq<char>>,
    included: Seq<Seq<char>>,
    excluded: Seq<Seq<char>>,
    i: int,
)
    requires
        0 <= i < predicted.len(),
        excluded.contains(predicted[i]),
    ensures
        counted_label(predicted, included, excluded) is None,
{
}

/// A comment none of whose predicted labels is excluded is counted under
/// the included label that comes first among its predicted labels, and
/// under none if none is included.
pub proof fn lemma_counted_under_first_included_label(
    predicted: Seq<Seq<char>>,
    included: Seq<Seq<char>>,
    excluded: Seq<Seq<char>>,
)
    requires
        forall|i: int| 0 <= i < predicted.len() ==> !excluded.contains(#[trigger] predicted[i]),
    ensures
        forall|i: int|
            0 <= i < predicted.len() && included.contains(predicted[i]) && (forall|j: int|
                0 <= j < i ==> !included.contains(#[trigger] predicted[j])) ==> counted_label(
                predicted,
                included,
                excluded,
            ) == Some(#[trigger] predicted[i]),
        (forall|i: int| 0 <= i < predicted.len() ==> !included.contains(#[trigger] predicted[i]))
            ==> counted_label(predicted, included, excluded) is None,
    decreases predicted.len(),
{
    if predicted.len() > 0 {
        let rest = predicted.drop_first();
        assert forall|i: int| 0 <= i < rest.len() implies !excluded.contains(#[trigger] rest[i]) by {
            assert(rest[i] == predicted[i + 1]);
        }
        lemma_counted_under_first_included_label(rest, included, excluded);
        assert forall|i: int|
            0 <= i < predicted.len() && included.contains(predicted[i]) && (forall|j: int|
                0 <= j < i ==> !included.contains(#[trigger] predicted[j])) implies counted_label(
            predicted,
            included,
            excluded,
        ) == Some(#[trigger] predicted[i]) by {
            if i > 0 {
                assert(!included.contains(predicted[0]));
                assert(rest[i - 1] == predicted[i]);
                assert forall|j: int| 0 <= j < i - 1 implies !included.contains(#[trigger] rest[j]) by {
                    assert(rest[j] == predicted[j + 1]);
                }
            }
        }
        if forall|i: int| 0 <= i < predicted.len() ==> !included.contains(#[trigger] predicted[i]) {
            assert(!included.contains(predicted[0]));
            assert forall|i: int| 0 <= i < rest.len() implies !included.contains(#[trigger] rest[i]) by {
                assert(rest[i] == predicted[i + 1]);
            }
        }
    }
}

/// Counts a comment with these predicted labels on day `date` for
/// `model_version`: under its first included label, unless one of its labels
/// is excluded.
pub fn count_for_predicted_labels(
    predicted_labels: &Vec<String>,
    labels_to_include: &[String],
    labels_to_exclude: &[String],
    model_version: &ModelVersionSelection,
    date: i32,
    report: &mut Report,
)
    requires
        old(report).wf(),
        counted_label(
            string_views(predicted_labels@),
            string_views(labels_to_include@),
            string_views(labels_to_exclude@),
        ) matches Some(label) ==> old(report).count(*model_version, date, label) < usize::MAX,
    ensures
        final(report).wf(),
        final(report).start() == old(report).start(),
        final(report).end() == old(report).end(),
        match counted_label(
            string_views(predicted_labels@),
            string_views(labels_to_include@),
            string_views(labels_to_exclude@),
        ) {
            Some(label) => {
                &&& final(report).labels() == if old(report).labels().contains(label) {
                    old(report).labels()
                } else {
                    old(report).labels().push(label)
                }
                &&& forall|m: ModelVersionSelection, d: i32, l: Seq<char>|
                    #[trigger] final(report).count(m, d, l) == old(report).count(m, d, l) + if m
                        == *model_version && d == date && l == label {
                        1nat
                    } else {
                        0nat
                    }
            },
            None => *final(report) == *old(report),
        },
        (exists|i: int|
            0 <= i < predicted_labels@.len() && string_views(labels_to_exclude@).contains(
                #[trigger] predicted_labels@[i]@,
            )) ==> *final(report) == *old(report),
{
    let ghost predicted = string_views(predicted_labels@);
    let ghost included = string_views(labels_to_include@);
    let ghost excluded = string_views(labels_to_exclude@);
    let mut i: usize = 0;
    while i < predicted_labels.len()
        invariant
            i <= predicted_labels.len(),
            *report == *old(report),
            old(report).wf(),
            predicted == string_views(predicted_labels@),
            excluded == string_views(labels_to_exclude@),
            forall|k: int| 0 <= k < i ==> !excluded.contains(#[trigger] predicted[k]),
        decreases predicted_labels.len() - i,
    {
        assert(predicted[i as int] == predicted_labels@[i as int]@);
        if contains_string(labels_to_exclude, predicted_labels[i].as_str()) {
            assert(excluded.contains(predicted[i as int]));
            return;
        }
        i = i + 1;
    }
    assert(!exists|k: int| 0 <= k < predicted.len() && excluded.contains(#[trigger] predicted[k]));
    assert(predicted.skip(0) =~= predicted);
    let mut j: usize = 0;
    while j < predicted_labels.len()
        invariant
            j <= predicted_labels.len(),
            *report == *old(report),
            old(report).wf(),
            predicted == string_views(predicted_labels@),
            included == string_views(labels_to_include@),
            excluded == string_views(labels_to_exclude@),
            counted_label(predicted, included, excluded) == first_included(predicted, included),
            counted_label(predicted, included, excluded) matches Some(label) ==> old(report).count(
                *model_version,
                date,
                label,
            ) < usize::MAX,
            first_included(predicted, included) == first_included(predicted.skip(j as int), included),
            forall|k: int| 0 <= k < predicted.len() ==> !excluded.contains(#[trigger] predicted[k]),
        decreases predicted_labels.len() - j,
    {
        let ghost rest = predicted.skip(j as int);
        assert(rest[0] == predicted[j as int]);
        assert(rest.drop_first() =~= predicted.skip(j + 1));
        assert(predicted[j as int] == predicted_labels@[j as int]@);
        if contains_string(labels_to_include, predicted_labels[j].as_str()) {
            assert(first_included(rest, included) == Some(predicted[j as int]));
            assert(counted_label(predicted, included, excluded) == Some(predicted[j as int]));
            report.count_label(model_version, date, predicted_labels[j].as_str());
            proof {
                assert forall|k: int| 0 <= k < predicted_labels@.len() implies !string_views(
                    labels_to_exclude@,
                ).contains(#[trigger] predicted_labels@[k]@) by {
                    assert(predicted[k] == predicted_labels@[k]@);
                }
            }
            return;
        }
        j = j + 1;
    }
    assert(predicted.skip(predicted.len() as int) =~= Seq::<Seq<char>>::empty());
}

/// The day numbers from `start` to `end`, both included.
pub fn date_range(start: i32, end: i32) -> (days: Vec<i32>)
    ensures
        days@.len() == if start <= end {
            end - start + 1
        } else {
            0
        },
        forall|k: int| 0 <= k < days@.len() ==> days@[k] == start + k,
{
    let mut days: Vec<i32> = Vec::new();
    if start > end {
        return days;
    }
    let mut day = start;
    days.push(day);
    while day < end
        invariant
            start <= day <= end,
            days@.len() == day - start + 1,
            forall|k: int| 0 <= k < days@.len() ==> days@[k] == start + k,
        decreases end - day,
    {
        day = day + 1;
        days.push(day);
    }
    days
}

/// Running totals shared with the progress display. Each counter is an
/// atomic that other threads read while it grows, so no contract states
/// which value a read returns.
pub struct Statistics {
    downloaded: AtomicUsize,
    predicted: AtomicUsize,
}

impl Statistics {
    /// Both counters at zero.
    pub fn new() -> Statistics {
        Statistics { downloaded: AtomicUsize::new(0), predicted: AtomicUsize::new(0) }
    }

    /// Counts `num_downloaded` more comments downloaded.
    pub fn add_comments(&self, num_downloaded: usize) {
        self.downloaded.fetch_add(num_downloaded, Ordering::SeqCst);
    }

    /// Counts `num_predicted` more comments predicted.
    pub fn add_predicted(&self, num_predicted: usize) {
        self.predicted.fetch_add(num_predicted, Ordering::SeqCst);
    }

    /// Comments downloaded so far.
    pub fn num_downloaded(&self) -> usize {
        self.downloaded.load(Ordering::SeqCst)
    }

    /// Comments predicted so far.
    pub fn num_predicted(&self) -> usize {
        self.predicted.load(Ordering::SeqCst)
    }
}

} // verus!
