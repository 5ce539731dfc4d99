//! Where each backup file of a run lives, relative to the backup directory.

use vstd::prelude::*;
use crate::ids::{BucketId, DatasetId, SourceId};
use crate::text::{owned, push_str};

verus! {

/// Relative path of the comment deletion-set backup of a source.
pub open spec fn comment_backup_path(source_id: Seq<char>) -> Seq<char> {
    "deleted-comments/"@ + source_id + ".jsonl"@
}

/// Relative path of the email deletion-set backup of a bucket.
pub open spec fn email_backup_path(bucket_id: Seq<char>) -> Seq<char> {
    "deleted-emails/"@ + bucket_id + ".jsonl"@
}

/// Relative path of the annotation backup of a source in a dataset.
pub open spec fn annotation_backup_path(dataset_id: Seq<char>, source_id: Seq<char>) -> Seq<char> {
    "annotations/"@ + dataset_id + "/"@ + source_id + ".jsonl"@
}

/// Relative path of a per-source comment deletion-set backup.
pub fn comment_backup_file(source_id: &SourceId) -> (path: String)
    ensures
        path@ == comment_backup_path(source_id.0@),
{
    let mut path = owned("deleted-comments/");
    push_str(&mut path, source_id.0.as_str());
    push_str(&mut path, ".jsonl");
    path
}

/// Relative path of a per-bucket email deletion-set backup.
pub fn email_backup_file(bucket_id: &BucketId) -> (path: String)
    ensures
        path@ == email_backup_path(bucket_id.0@),
{
    let mut path = owned("deleted-emails/");
    push_str(&mut path, bucket_id.0.as_str());
    push_str(&mut path, ".jsonl");
    path
}

/// Relative path of an annotation backup: one file per (dataset, source)
/// pair, keyed by source id under a per-dataset directory.
pub fn annotation_backup_file(dataset_id: &DatasetId, source_id: &SourceId) -> (path: String)
    ensures
        path@ == annotation_backup_path(dataset_id.0@, source_id.0@),
{
    let mut path = owned("annotations/");
    push_str(&mut path, dataset_id.0.as_str());
    push_str(&mut path, "/");
    push_str(&mut path, source_id.0.as_str());
    push_str(&mut path, ".jsonl");
    path
}

/// Strips a common prefix and suffix off two equal sequences.
proof fn lemma_strip_frame(p: Seq<char>, x: Seq<char>, y: Seq<char>, q: Seq<char>)
    requires
        p + x + q == p + y + q,
    ensures
        x == y,
{
    let l = p + x + q;
    let r = p + y + q;
    assert(l.len() == p.len() + x.len() + q.len());
    assert(r.len() == p.len() + y.len() + q.len());
    assert(x.len() == y.len());
    assert forall|i: int| 0 <= i < x.len() implies x[i] == y[i] by {
        assert(l[p.len() + i] == x[i]);
        assert(r[p.len() + i] == y[i]);
    }
    assert(x =~= y);
}

/// Distinct sources get distinct comment backup files.
pub proof fn lemma_comment_backup_paths_distinct(a: Seq<char>, b: Seq<char>)
    requires
        a != b,
    ensures
        comment_backup_path(a) != comment_backup_path(b),
{
    if comment_backup_path(a) == comment_backup_path(b) {
        lemma_strip_frame("deleted-comments/"@, a, b, ".jsonl"@);
    }
}

/// Distinct buckets get distinct email backup files.
pub proof fn lemma_email_backup_paths_distinct(a: Seq<char>, b: Seq<char>)
    requires
        a != b,
    ensures
        email_backup_path(a) != email_backup_path(b),
{
    if email_backup_path(a) == email_backup_path(b) {
        lemma_strip_frame("deleted-emails/"@, a, b, ".jsonl"@);
    }
}

/// `s` holds no `/`.
pub open spec fn has_no_slash(s: Seq<char>) -> bool {
    forall|i: int| 0 <= i < s.len() ==> s[i] != '/'
}

/// Distinct (dataset, source) pairs get distinct annotation backup files,
/// as long as dataset ids hold no `/`.
pub proof fn lemma_annotation_backup_paths_distinct(
    d1: Seq<char>,
    s1: Seq<char>,
    d2: Seq<char>,
    s2: Seq<char>,
)
    requires
        has_no_slash(d1),
        has_no_slash(d2),
        d1 != d2 || s1 != s2,
    ensures
        annotation_backup_path(d1, s1) != annotation_backup_path(d2, s2),
{
    reveal_strlit("/");
    if annotation_backup_path(d1, s1) == annotation_backup_path(d2, s2) {
        let x = d1 + "/"@ + s1;
        let y = d2 + "/"@ + s2;
        assert("annotations/"@ + d1 + "/"@ + s1 + ".jsonl"@ == "annotations/"@ + x + ".jsonl"@);
        assert("annotations/"@ + d2 + "/"@ + s2 + ".jsonl"@ == "annotations/"@ + y + ".jsonl"@);
        lemma_strip_frame("annotations/"@, x, y, ".jsonl"@);
        if d1.len() < d2.len() {
            assert(x[d1.len() as int] == '/');
            assert(y[d1.len() as int] == d2[d1.len() as int]);
        } else if d2.len() < d1.len() {
            assert(y[d2.len() as int] == '/');
            assert(x[d2.len() as int] == d1[d2.len() as int]);
        } else {
            assert forall|i: int| 0 <= i < d1.len() implies d1[i] == d2[i] by {
                assert(x[i] == d1[i]);
                assert(y[i] == d2[i]);
            }
            assert(d1 =~= d2);
            assert forall|i: int| 0 <= i < s1.len() implies s1[i] == s2[i] by {
                assert(x[d1.len() + 1 + i] == s1[i]);
                assert(y[d2.len() + 1 + i] == s2[i]);
            }
            assert(s1 =~= s2);
        }
    }
}

/// Comment, email and annotation backups never share a file: their paths
/// start in different directories.
pub proof fn lemma_backup_kinds_never_share_a_file(
    source: Seq<char>,
    bucket: Seq<char>,
    dataset: Seq<char>,
    annotated_source: Seq<char>,
)
    ensures
        comment_backup_path(source) != email_backup_path(bucket),
        comment_backup_path(source) != annotation_backup_path(dataset, annotated_source),
        email_backup_path(bucket) != annotation_backup_path(dataset, annotated_source),
{
    reveal_strlit("deleted-comments/");
    reveal_strlit("deleted-emails/");
    reveal_strlit("annotations/");
    assert(comment_backup_path(source)[8] == 'c');
    assert(email_backup_path(bucket)[8] == 'e');
    assert(comment_backup_path(source)[0] == 'd');
    assert(email_backup_path(bucket)[0] == 'd');
    assert(annotation_backup_path(dataset, annotated_source)[0] == 'a');
}

/// An annotation backup file has the same name as the comment deletion-set
/// backup of its source: both end in `/<source id>.jsonl`.
pub proof fn lemma_annotation_file_named_after_source(dataset: Seq<char>, source: Seq<char>)
    ensures
        annotation_backup_path(dataset, source) == ("annotations/"@ + dataset) + ("/"@ + source
            + ".jsonl"@),
        comment_backup_path(source) == "deleted-comments"@ + ("/"@ + source + ".jsonl"@),
{
    reveal_strlit("deleted-comments/");
    reveal_strlit("deleted-comments");
    reveal_strlit("/");
    assert(annotation_backup_path(dataset, source) =~= ("annotations/"@ + dataset) + ("/"@ + source
        + ".jsonl"@));
    assert("deleted-comments/"@ =~= "deleted-comments"@ + "/"@);
    assert(comment_backup_path(source) =~= "deleted-comments"@ + ("/"@ + source + ".jsonl"@));
}

} // verus!
