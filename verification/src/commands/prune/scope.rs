//! The resources a prune run covers: the datasets given, the sources they
//! reference and the buckets behind those sources.

use vstd::prelude::*;
use crate::ids::{BucketId, DatasetId, SourceId};
use crate::commands::prune::PruneError;
use crate::text::str_eq;

verus! {

/// What a prune run reads of a dataset.
pub struct DatasetRef {
    pub id: DatasetId,
    /// `owner/name`.
    pub full_name: String,
    pub source_ids: Vec<SourceId>,
}

/// What a prune run reads of a source.
pub struct SourceRef {
    pub id: SourceId,
    /// `owner/name`.
    pub full_name: String,
    /// The bucket feeding the source, for email sources.
    pub bucket_id: Option<BucketId>,
}

/// What a prune run reads of a bucket.
pub struct BucketRef {
    pub id: BucketId,
    /// `owner/name`.
    pub full_name: String,
}

/// The resolved resources a prune run operates on.
pub struct Scope {
    pub datasets: Vec<DatasetRef>,
    pub sources: Vec<SourceRef>,
    pub buckets: Vec<BucketRef>,
}

/// The character views of some source ids.
pub open spec fn source_id_views(ids: Seq<SourceId>) -> Seq<Seq<char>> {
    ids.map_values(|id: SourceId| id.0@)
}

/// No two elements of `s` are equal.
pub open spec fn no_duplicates<A>(s: Seq<A>) -> bool {
    forall|i: int, j: int| 0 <= i < j < s.len() ==> s[i] != s[j]
}

/// `id` is one of the sources of one of `datasets`.
pub open spec fn referenced_source(datasets: Seq<DatasetRef>, id: Seq<char>) -> bool {
    exists|d: int, k: int|
        0 <= d < datasets.len() && 0 <= k < datasets[d].source_ids@.len()
            && #[trigger] datasets[d].source_ids@[k].0@ == id
}

/// `id` is the bucket of one of `sources`.
pub open spec fn referenced_bucket(sources: Seq<SourceRef>, id: Seq<char>) -> bool {
    exists|s: int|
        0 <= s < sources.len() && ((#[trigger] sources[s].bucket_id) matches Some(b) && b.0@ == id)
}

fn copy_source_id(id: &SourceId) -> (copy: SourceId)
    ensures
        copy.0@ == id.0@,
{
    SourceId(id.0.clone())
}

fn copy_bucket_id(id: &BucketId) -> (copy: BucketId)
    ensures
        copy.0@ == id.0@,
{
    BucketId(id.0.clone())
}

/// Whether `id` is among `ids`.
pub fn contains_source_id(ids: &[SourceId], id: &str) -> (found: bool)
    ensures
        found == source_id_views(ids@).contains(id@),
{
    let mut i: usize = 0;
    while i < ids.len()
        invariant
            i <= ids.len(),
            forall|k: int| 0 <= k < i ==> ids@[k].0@ != id@,
        decreases ids.len() - i,
    {
        if str_eq(ids[i].0.as_str(), id) {
            assert(source_id_views(ids@)[i as int] == id@);
            return true;
        }
        i = i + 1;
    }
    proof {
        if source_id_views(ids@).contains(id@) {
            let k = choose|k: int| 0 <= k < ids@.len() && source_id_views(ids@)[k] == id@;
            assert(ids@[k].0@ == id@);
        }
    }
    false
}

fn contains_bucket_id(ids: &Vec<BucketId>, id: &str) -> (found: bool)
    ensures
        found == bucket_id_views(ids@).contains(id@),
{
    let mut i: usize = 0;
    while i < ids.len()
        invariant
            i <= ids.len(),
            forall|k: int| 0 <= k < i ==> ids@[k].0@ != id@,
        decreases ids.len() - i,
    {
        if str_eq(ids[i].0.as_str(), id) {
            assert(bucket_id_views(ids@)[i as int] == id@);
            return true;
        }
        i = i + 1;
    }
    proof {
        if bucket_id_views(ids@).contains(id@) {
            let k = choose|k: int| 0 <= k < ids@.len() && bucket_id_views(ids@)[k] == id@;
            assert(ids@[k].0@ == id@);
        }
    }
    false
}

/// Every source referenced by `datasets`, each once, in the order first seen.
pub fn unique_source_ids(datasets: &[DatasetRef]) -> (ids: Vec<SourceId>)
    ensures
        no_duplicates(source_id_views(ids@)),
        forall|id: Seq<char>|
            #[trigger] source_id_views(ids@).contains(id) <==> referenced_source(datasets@, id),
{
    let mut ids: Vec<SourceId> = Vec::new();
    let mut d: usize = 0;
    while d < datasets.len()
        invariant
            d <= datasets.len(),
            no_duplicates(source_id_views(ids@)),
            forall|id: Seq<char>|
                #[trigger] source_id_views(ids@).contains(id) <==> referenced_source(
                    datasets@.take(d as int),
                    id,
                ),
        decreases datasets.len() - d,
    {
        let dataset = &datasets[d];
        let mut k: usize = 0;
        while k < dataset.source_ids.len()
            invariant
                d < datasets.len(),
                dataset == &datasets@[d as int],
                k <= dataset.source_ids.len(),
                no_duplicates(source_id_views(ids@)),
                forall|id: Seq<char>|
                    #[trigger] source_id_views(ids@).contains(id) <==> (referenced_source(
                        datasets@.take(d as int),
                        id,
                    ) || exists|j: int| 0 <= j < k && dataset.source_ids@[j].0@ == id),
            decreases dataset.source_ids.len() - k,
        {
            let id = &dataset.source_ids[k];
            let ghost before = ids@;
            if !contains_source_id(ids.as_slice(), id.0.as_str()) {
                ids.push(copy_source_id(id));
                proof {
                    assert(source_id_views(ids@) == source_id_views(before).push(id.0@));
                    assert forall|i: int, j: int|
                        0 <= i < j < source_id_views(ids@).len() implies source_id_views(ids@)[i]
                        != source_id_views(ids@)[j] by {
                        if j == before.len() {
                            assert(source_id_views(ids@)[i] == source_id_views(before)[i]);
                        } else {
                            assert(source_id_views(ids@)[i] == source_id_views(before)[i]);
                            assert(source_id_views(ids@)[j] == source_id_views(before)[j]);
                        }
                    }
                }
            }
            proof {
                assert forall|x: Seq<char>| #[trigger] source_id_views(ids@).contains(x) <==> (
                referenced_source(datasets@.take(d as int), x) || exists|j: int|
                    0 <= j < k + 1 && dataset.source_ids@[j].0@ == x) by {
                    if source_id_views(ids@).contains(x) && !source_id_views(before).contains(x) {
                        assert(x == id.0@);
                        assert(dataset.source_ids@[k as int].0@ == x);
                    }
                    if source_id_views(before).contains(x) {
                        let i = choose|i: int|
                            0 <= i < source_id_views(before).len() && source_id_views(before)[i]
                                == x;
                        assert(source_id_views(ids@)[i] == x);
                    }
                    if exists|j: int| 0 <= j < k + 1 && dataset.source_ids@[j].0@ == x {
                        let j = choose|j: int| 0 <= j < k + 1 && dataset.source_ids@[j].0@ == x;
                        if j == k {
                            if !source_id_views(before).contains(x) {
                                assert(source_id_views(ids@)[before.len() as int] == x);
                            }
                        }
                    }
                }
            }
            k = k + 1;
        }
        proof {
            assert forall|x: Seq<char>| #[trigger] source_id_views(ids@).contains(x)
                <==> referenced_source(datasets@.take(d + 1), x) by {
                let prefix = datasets@.take(d as int);
                let next = datasets@.take(d + 1);
                if referenced_source(next, x) {
                    let (dd, kk) = choose|dd: int, kk: int|
                        0 <= dd < next.len() && 0 <= kk < next[dd].source_ids@.len()
                            && #[trigger] next[dd].source_ids@[kk].0@ == x;
                    if dd < d {
                        assert(prefix[dd] == next[dd]);
                        assert(referenced_source(prefix, x));
                    } else {
                        assert(next[dd] == datasets@[d as int]);
                        assert(dataset.source_ids@[kk].0@ == x);
                    }
                }
                if referenced_source(prefix, x) {
                    let (dd, kk) = choose|dd: int, kk: int|
                        0 <= dd < prefix.len() && 0 <= kk < prefix[dd].source_ids@.len()
                            && #[trigger] prefix[dd].source_ids@[kk].0@ == x;
                    assert(next[dd] == prefix[dd]);
                    assert(next[dd].source_ids@[kk].0@ == x);
                }
                if exists|j: int| 0 <= j < dataset.source_ids@.len() && dataset.source_ids@[j].0@
                    == x {
                    let j = choose|j: int|
                        0 <= j < dataset.source_ids@.len() && dataset.source_ids@[j].0@ == x;
                    assert(next[d as int] == datasets@[d as int]);
                    assert(next[d as int].source_ids@[j].0@ == x);
                }
            }
        }
        d = d + 1;
    }
    assert(datasets@.take(datasets@.len() as int) == datasets@);
    ids
}

/// The character views of some bucket ids.
pub open spec fn bucket_id_views(ids: Seq<BucketId>) -> Seq<Seq<char>> {
    ids.map_values(|id: BucketId| id.0@)
}

/// Every bucket behind `sources`, each once, in the order first seen.
pub fn unique_bucket_ids(sources: &[SourceRef]) -> (ids: Vec<BucketId>)
    ensures
        no_duplicates(bucket_id_views(ids@)),
        forall|id: Seq<char>|
            #[trigger] bucket_id_views(ids@).contains(id) <==> referenced_bucket(sources@, id),
{
    let mut ids: Vec<BucketId> = Vec::new();
    let mut s: usize = 0;
    while s < sources.len()
        invariant
            s <= sources.len(),
            no_duplicates(bucket_id_views(ids@)),
            forall|id: Seq<char>|
                #[trigger] bucket_id_views(ids@).contains(id) <==> referenced_bucket(
                    sources@.take(s as int),
                    id,
                ),
        decreases sources.len() - s,
    {
        let ghost before = ids@;
        let ghost prefix = sources@.take(s as int);
        let ghost next = sources@.take(s + 1);
        match &sources[s].bucket_id {
            Some(bucket) => {
                if !contains_bucket_id(&ids, bucket.0.as_str()) {
                    ids.push(copy_bucket_id(bucket));
                    proof {
                        assert(bucket_id_views(ids@) == bucket_id_views(before).push(bucket.0@));
                        assert forall|i: int, j: int|
                            0 <= i < j < bucket_id_views(ids@).len() implies bucket_id_views(
                            ids@,
                        )[i] != bucket_id_views(ids@)[j] by {
                            assert(bucket_id_views(ids@)[i] == bucket_id_views(before)[i]);
                            if j < before.len() {
                                assert(bucket_id_views(ids@)[j] == bucket_id_views(before)[j]);
                            } else {
                                assert(!bucket_id_views(before).contains(bucket.0@));
                            }
                        }
                    }
                }
            },
            None => {},
        }
        proof {
            assert forall|x: Seq<char>| #[trigger] bucket_id_views(ids@).contains(x)
                <==> referenced_bucket(next, x) by {
                if bucket_id_views(before).contains(x) {
                    assert(referenced_bucket(prefix, x));
                    let t = choose|t: int|
                        0 <= t < prefix.len() && ((#[trigger] prefix[t].bucket_id) matches Some(b)
                            && b.0@ == x);
                    assert(next[t] == prefix[t]);
                    let i = choose|i: int|
                        0 <= i < bucket_id_views(before).len() && bucket_id_views(before)[i] == x;
                    assert(bucket_id_views(ids@)[i] == x);
                }
                if bucket_id_views(ids@).contains(x) && !bucket_id_views(before).contains(x) {
                    assert(next[s as int] == sources@[s as int]);
                }
                if referenced_bucket(next, x) {
                    let t = choose|t: int|
                        0 <= t < next.len() && ((#[trigger] next[t].bucket_id) matches Some(b) && b.0@
                            == x);
                    if t < s {
                        assert(prefix[t] == next[t]);
                        assert(referenced_bucket(prefix, x));
                    } else {
                        assert(next[t] == sources@[s as int]);
                        if !bucket_id_views(before).contains(x) {
                            assert(bucket_id_views(ids@)[before.len() as int] == x);
                        }
                    }
                }
            }
        }
        s = s + 1;
    }
    assert(sources@.take(sources@.len() as int) == sources@);
    ids
}

/// `id` is the id of one of `datasets`.
pub open spec fn has_dataset(datasets: Seq<DatasetRef>, id: Seq<char>) -> bool {
    exists|d: int| 0 <= d < datasets.len() && #[trigger] datasets[d].id.0@ == id
}

/// `id` is the id of one of `sources`.
pub open spec fn has_source(sources: Seq<SourceRef>, id: Seq<char>) -> bool {
    exists|s: int| 0 <= s < sources.len() && #[trigger] sources[s].id.0@ == id
}

/// A dataset outside the scope that uses an in-scope source.
pub open spec fn is_conflict(dataset: DatasetRef, scope: Scope) -> bool {
    &&& !has_dataset(scope.datasets@, dataset.id.0@)
    &&& exists|k: int|
        0 <= k < dataset.source_ids@.len() && has_source(
            scope.sources@,
            #[trigger] dataset.source_ids@[k].0@,
        )
}

/// Full names of the datasets of `all` in conflict with the scope, in order.
pub open spec fn conflicts(all: Seq<DatasetRef>, scope: Scope) -> Seq<Seq<char>>
    decreases all.len(),
{
    if all.len() == 0 {
        Seq::empty()
    } else if is_conflict(all.last(), scope) {
        conflicts(all.drop_last(), scope).push(all.last().full_name@)
    } else {
        conflicts(all.drop_last(), scope)
    }
}

fn has_dataset_id(datasets: &Vec<DatasetRef>, id: &str) -> (found: bool)
    ensures
        found == has_dataset(datasets@, id@),
{
    let mut i: usize = 0;
    while i < datasets.len()
        invariant
            i <= datasets.len(),
            forall|k: int| 0 <= k < i ==> datasets@[k].id.0@ != id@,
        decreases datasets.len() - i,
    {
        if str_eq(datasets[i].id.0.as_str(), id) {
            return true;
        }
        i = i + 1;
    }
    false
}

fn has_source_id(sources: &Vec<SourceRef>, id: &str) -> (found: bool)
    ensures
        found == has_source(sources@, id@),
{
    let mut i: usize = 0;
    while i < sources.len()
        invariant
            i <= sources.len(),
            forall|k: int| 0 <= k < i ==> sources@[k].id.0@ != id@,
        decreases sources.len() - i,
    {
        if str_eq(sources[i].id.0.as_str(), id) {
            return true;
        }
        i = i + 1;
    }
    false
}

fn conflicts_with(dataset: &DatasetRef, scope: &Scope) -> (conflict: bool)
    ensures
        conflict == is_conflict(*dataset, *scope),
{
    if has_dataset_id(&scope.datasets, dataset.id.0.as_str()) {
        return false;
    }
    let mut k: usize = 0;
    while k < dataset.source_ids.len()
        invariant
            k <= dataset.source_ids.len(),
            !has_dataset(scope.datasets@, dataset.id.0@),
            forall|j: int|
                0 <= j < k ==> !has_source(scope.sources@, #[trigger] dataset.source_ids@[j].0@),
        decreases dataset.source_ids.len() - k,
    {
        if has_source_id(&scope.sources, dataset.source_ids[k].0.as_str()) {
            assert(has_source(scope.sources@, dataset.source_ids@[k as int].0@));
            return true;
        }
        k = k + 1;
    }
    false
}

/// No in-scope dataset has the id of `dataset`, and at least one of its
/// sources, any one, is an in-scope source.
pub open spec fn shares_an_in_scope_source(dataset: DatasetRef, scope: Scope) -> bool {
    &&& forall|j: int|
        0 <= j < scope.datasets@.len() ==> (#[trigger] scope.datasets@[j]).id.0@ != dataset.id.0@
    &&& exists|k: int, s: int|
        0 <= k < dataset.source_ids@.len() && 0 <= s < scope.sources@.len()
            && (#[trigger] dataset.source_ids@[k]).0@ == (#[trigger] scope.sources@[s]).id.0@
}

proof fn lemma_conflict_is_sharing(dataset: DatasetRef, scope: Scope)
    ensures
        is_conflict(dataset, scope) <==> shares_an_in_scope_source(dataset, scope),
{
    if shares_an_in_scope_source(dataset, scope) {
        let (k, s) = choose|k: int, s: int|
            0 <= k < dataset.source_ids@.len() && 0 <= s < scope.sources@.len()
                && (#[trigger] dataset.source_ids@[k]).0@ == (#[trigger] scope.sources@[s]).id.0@;
        assert(has_source(scope.sources@, dataset.source_ids@[k].0@));
    }
    if is_conflict(dataset, scope) {
        let k = choose|k: int|
            0 <= k < dataset.source_ids@.len() && has_source(
                scope.sources@,
                #[trigger] dataset.source_ids@[k].0@,
            );
        let s = choose|s: int|
            0 <= s < scope.sources@.len() && #[trigger] scope.sources@[s].id.0@
                == dataset.source_ids@[k].0@;
        assert(dataset.source_ids@[k].0@ == scope.sources@[s].id.0@);
        assert forall|j: int| 0 <= j < scope.datasets@.len() implies (
        #[trigger] scope.datasets@[j]).id.0@ != dataset.id.0@ by {
            if scope.datasets@[j].id.0@ == dataset.id.0@ {
                assert(has_dataset(scope.datasets@, dataset.id.0@));
            }
        }
    }
}

/// The run is refused for every dataset outside the scope that uses an
/// in-scope source: the conflicts name each dataset that is not in scope and
/// references at least one in-scope source (any one of them, whatever its
/// other sources), and name no other. A dataset in conflict stays in
/// conflict when more sources are added to it.
pub proof fn lemma_shared_sources_are_refused(all: Seq<DatasetRef>, scope: Scope)
    ensures
        forall|d: int|
            0 <= d < all.len() && shares_an_in_scope_source(#[trigger] all[d], scope) ==> conflicts(
                all,
                scope,
            ).contains(all[d].full_name@),
        forall|n: int|
            #![trigger conflicts(all, scope)[n]]
            0 <= n < conflicts(all, scope).len() ==> exists|d: int|
                0 <= d < all.len() && shares_an_in_scope_source(#[trigger] all[d], scope)
                    && conflicts(all, scope)[n] == all[d].full_name@,
        conflicts(all, scope).len() == 0 <==> forall|d: int|
            0 <= d < all.len() ==> !shares_an_in_scope_source(#[trigger] all[d], scope),
    decreases all.len(),
{
    let c = conflicts(all, scope);
    if all.len() > 0 {
        let init = all.drop_last();
        let last = all.last();
        lemma_shared_sources_are_refused(init, scope);
        lemma_conflict_is_sharing(last, scope);
        let before = conflicts(init, scope);
        assert forall|d: int|
            0 <= d < all.len() && shares_an_in_scope_source(#[trigger] all[d], scope) implies c.contains(
            all[d].full_name@,
        ) by {
            if d < all.len() - 1 {
                assert(init[d] == all[d]);
                let k = choose|k: int| 0 <= k < before.len() && before[k] == init[d].full_name@;
                assert(c[k] == before[k]);
            } else {
                assert(c[c.len() - 1] == last.full_name@);
            }
        }
        assert forall|n: int| #![trigger c[n]] 0 <= n < c.len() implies exists|d: int|
            0 <= d < all.len() && shares_an_in_scope_source(#[trigger] all[d], scope) && c[n]
                == all[d].full_name@ by {
            if n < before.len() {
                assert(c[n] == before[n]);
                let d = choose|d: int|
                    0 <= d < init.len() && shares_an_in_scope_source(#[trigger] init[d], scope)
                        && before[n] == init[d].full_name@;
                assert(all[d] == init[d]);
            } else {
                assert(all[all.len() - 1] == last);
            }
        }
        if c.len() == 0 {
            assert forall|d: int| 0 <= d < all.len() implies !shares_an_in_scope_source(
                #[trigger] all[d],
                scope,
            ) by {
                if shares_an_in_scope_source(all[d], scope) {
                    assert(c.contains(all[d].full_name@));
                }
            }
        } else {
            assert(c.len() > 0);
            let d = choose|d: int|
                0 <= d < all.len() && shares_an_in_scope_source(#[trigger] all[d], scope) && c[0]
                    == all[d].full_name@;
        }
    }
}

/// A dataset that uses an in-scope source still does when it gets more
/// sources: being in conflict depends on one shared source, not on all.
pub proof fn lemma_more_sources_keep_a_conflict(
    dataset: DatasetRef,
    bigger: DatasetRef,
    scope: Scope,
)
    requires
        bigger.id.0@ == dataset.id.0@,
        forall|k: int|
            0 <= k < dataset.source_ids@.len() ==> exists|m: int|
                0 <= m < bigger.source_ids@.len() && (#[trigger] bigger.source_ids@[m]).0@ == (
                #[trigger] dataset.source_ids@[k]).0@,
        conflicts(seq![dataset], scope).len() > 0,
    ensures
        conflicts(seq![bigger], scope).len() > 0,
{
    lemma_shared_sources_are_refused(seq![dataset], scope);
    lemma_shared_sources_are_refused(seq![bigger], scope);
    assert(seq![dataset][0] == dataset);
    assert(shares_an_in_scope_source(dataset, scope));
    let (k, s) = choose|k: int, s: int|
        0 <= k < dataset.source_ids@.len() && 0 <= s < scope.sources@.len()
            && (#[trigger] dataset.source_ids@[k]).0@ == (#[trigger] scope.sources@[s]).id.0@;
    let m = choose|m: int|
        0 <= m < bigger.source_ids@.len() && (#[trigger] bigger.source_ids@[m]).0@ == (
        #[trigger] dataset.source_ids@[k]).0@;
    assert(bigger.source_ids@[m].0@ == scope.sources@[s].id.0@);
    assert(shares_an_in_scope_source(bigger, scope));
    assert(seq![bigger][0] == bigger);
}

/// Full names of the datasets outside the scope that use an in-scope source.
pub fn shared_source_conflicts(all_datasets: &[DatasetRef], scope: &Scope) -> (names: Vec<String>)
    ensures
        names@.map_values(|name: String| name@) == conflicts(all_datasets@, *scope),
{
    let mut names: Vec<String> = Vec::new();
    let mut i: usize = 0;
    while i < all_datasets.len()
        invariant
            i <= all_datasets.len(),
            names@.map_values(|name: String| name@) == conflicts(all_datasets@.take(i as int), *scope),
        decreases all_datasets.len() - i,
    {
        let dataset = &all_datasets[i];
        let ghost prefix = all_datasets@.take(i + 1);
        assert(prefix.drop_last() =~= all_datasets@.take(i as int));
        assert(prefix.last() == all_datasets@[i as int]);
        if conflicts_with(dataset, scope) {
            names.push(dataset.full_name.clone());
            assert(names@.map_values(|name: String| name@) =~= conflicts(prefix, *scope));
        }
        i = i + 1;
    }
    assert(all_datasets@.take(all_datasets@.len() as int) == all_datasets@);
    names
}

/// Refuses the run when an in-scope source is also used by a dataset that
/// is not in scope; every such dataset is named in the error.
pub fn validate_shared_sources(all_datasets: &[DatasetRef], scope: &Scope) -> (result: Result<
    (),
    PruneError,
>)
    ensures
        result is Ok <==> conflicts(all_datasets@, *scope).len() == 0,
        result matches Err(e) ==> (e matches PruneError::SharedSources { datasets } && datasets@.map_values(
            |name: String| name@,
        ) == conflicts(all_datasets@, *scope)),
        result is Ok <==> forall|d: int|
            0 <= d < all_datasets@.len() ==> !shares_an_in_scope_source(
                #[trigger] all_datasets@[d],
                *scope,
            ),
        forall|d: int|
            0 <= d < all_datasets@.len() && shares_an_in_scope_source(
                #[trigger] all_datasets@[d],
                *scope,
            ) ==> (result matches Err(PruneError::SharedSources { datasets }) && datasets@.map_values(
                |name: String| name@,
            ).contains(all_datasets@[d].full_name@)),
{
    proof {
        lemma_shared_sources_are_refused(all_datasets@, *scope);
    }
    let names = shared_source_conflicts(all_datasets, scope);
    if names.len() == 0 {
        Ok(())
    } else {
        Err(PruneError::SharedSources { datasets: names })
    }
}

/// The index of the source named `full_name` in the scope, if any.
pub fn find_source(scope: &Scope, full_name: &str) -> (index: Option<usize>)
    ensures
        index matches Some(i) ==> i < scope.sources@.len() && scope.sources@[i as int].full_name@
            == full_name@,
        index is None ==> forall|i: int|
            0 <= i < scope.sources@.len() ==> scope.sources@[i].full_name@ != full_name@,
{
    let mut i: usize = 0;
    while i < scope.sources.len()
        invariant
            i <= scope.sources.len(),
            forall|k: int| 0 <= k < i ==> scope.sources@[k].full_name@ != full_name@,
        decreases scope.sources.len() - i,
    {
        if str_eq(scope.sources[i].full_name.as_str(), full_name) {
            return Some(i);
        }
        i = i + 1;
    }
    None
}

/// The index of the bucket named `full_name` in the scope, if any.
pub fn find_bucket(scope: &Scope, full_name: &str) -> (index: Option<usize>)
    ensures
        index matches Some(i) ==> i < scope.buckets@.len() && scope.buckets@[i as int].full_name@
            == full_name@,
        index is None ==> forall|i: int|
            0 <= i < scope.buckets@.len() ==> scope.buckets@[i].full_name@ != full_name@,
{
    let mut i: usize = 0;
    while i < scope.buckets.len()
        invariant
            i <= scope.buckets.len(),
            forall|k: int| 0 <= k < i ==> scope.buckets@[k].full_name@ != full_name@,
        decreases scope.buckets.len() - i,
    {
        if str_eq(scope.buckets[i].full_name.as_str(), full_name) {
            return Some(i);
        }
        i = i + 1;
    }
    None
}

/// The (dataset, source) pairs that get an annotation backup, as indices
/// into the scope: for each dataset in order, each in-scope source it
/// references, in the order of the scope's sources.
pub open spec fn annotation_pairs(scope: Scope, datasets: nat) -> Seq<(usize, usize)>
    decreases datasets,
{
    if datasets == 0 {
        Seq::empty()
    } else {
        let d = (datasets - 1) as nat;
        annotation_pairs(scope, d) + sources_of(scope, d, scope.sources@.len())
    }
}

/// The pairs `(d, s)` for the first `n` scope sources `s` that dataset `d`
/// references.
pub open spec fn sources_of(scope: Scope, d: nat, n: nat) -> Seq<(usize, usize)>
    decreases n,
{
    if n == 0 {
        Seq::empty()
    } else {
        let s = (n - 1) as nat;
        if source_id_views(scope.datasets@[d as int].source_ids@).contains(scope.sources@[s as int].id.0@) {
            sources_of(scope, d, s).push((d as usize, s as usize))
        } else {
            sources_of(scope, d, s)
        }
    }
}

/// The (dataset, source) pairs whose annotations are backed up, in order.
pub fn annotation_targets(scope: &Scope) -> (pairs: Vec<(usize, usize)>)
    ensures
        pairs@ == annotation_pairs(*scope, scope.datasets@.len()),
{
    let mut pairs: Vec<(usize, usize)> = Vec::new();
    let mut d: usize = 0;
    while d < scope.datasets.len()
        invariant
            d <= scope.datasets.len(),
            pairs@ == annotation_pairs(*scope, d as nat),
        decreases scope.datasets.len() - d,
    {
        let ghost before = pairs@;
        let mut s: usize = 0;
        while s < scope.sources.len()
            invariant
                d < scope.datasets.len(),
                s <= scope.sources.len(),
                pairs@ == before + sources_of(*scope, d as nat, s as nat),
            decreases scope.sources.len() - s,
        {
            if contains_source_id(scope.datasets[d].source_ids.as_slice(), scope.sources[s].id.0.as_str()) {
                pairs.push((d, s));
                assert(pairs@ =~= before + sources_of(*scope, d as nat, (s + 1) as nat));
            } else {
                assert(sources_of(*scope, d as nat, (s + 1) as nat) == sources_of(*scope, d as nat, s as nat));
            }
            s = s + 1;
        }
        d = d + 1;
    }
    pairs
}

} // verus!
