//! Packaging projects: downloading them into a package and uploading a
//! package into a project. A package is a zip archive; this module names
//! the files in it.

pub mod download;
pub mod upload;

use vstd::prelude::*;
use crate::commands::package::download::DownloadPackageArgs;
use crate::commands::package::upload::UploadPackageArgs;
use crate::ids::{CommentId, DatasetId, SourceId};
use crate::text::{ends_with_seq, ends_with_text, owned, push_str, str_eq, string_views};
use crate::thousands::{
    decimal, decimal_text, lemma_decimal_has_no_separators, lemma_decimal_injective,
};

verus! {

/// The subcommands of `re package`.
pub enum PackageArgs {
    /// Download a package.
    Download(DownloadPackageArgs),
    /// Upload a package.
    Upload(UploadPackageArgs),
}

/// Number of a comment batch within the package of a source.
pub struct CommentBatchKey(pub usize);

/// Number of an attachment within its comment.
pub struct AttachmentKey(pub usize);

/// One file of a package.
#[allow(inconsistent_fields)]
pub enum PackageContentId<'a> {
    Dataset { dataset_id: &'a DatasetId },
    Source { source_id: &'a SourceId },
    CommentBatch { key: CommentBatchKey, source_id: &'a SourceId },
    Document {
        source_id: &'a SourceId,
        comment_id: &'a CommentId,
        key: &'a AttachmentKey,
        extension: Option<String>,
    },
}

/// The path of a package file inside the archive.
pub open spec fn content_filename(content: PackageContentId) -> Seq<char> {
    match content {
        PackageContentId::Dataset { dataset_id } => "datasets/"@ + dataset_id.0@ + ".dataset.json"@,
        PackageContentId::Source { source_id } => "sources/"@ + source_id.0@ + ".source.json"@,
        PackageContentId::CommentBatch { key, source_id } => "comments/"@ + source_id.0@ + "."@
            + decimal(key.0 as nat) + ".comments.json"@,
        PackageContentId::Document { source_id, comment_id, key, extension } => match extension {
            Some(extension) => "documents/"@ + source_id.0@ + "."@ + comment_id.0@ + "."@ + decimal(
                key.0 as nat,
            ) + ".document."@ + extension@,
            None => source_id.0@ + "."@ + comment_id.0@ + "."@ + decimal(key.0 as nat)
                + ".document"@,
        },
    }
}


/// `c` does not occur in `s`.
pub open spec fn lacks(s: Seq<char>, c: char) -> bool {
    forall|i: int| 0 <= i < s.len() ==> s[i] != c
}

/// An id or extension that can stand in a file name: no dot, no slash.
pub open spec fn plain_part(s: Seq<char>) -> bool {
    lacks(s, '.') && lacks(s, '/')
}

/// The ids (and the extension) of a package file are plain parts.
pub open spec fn plainly_named(content: PackageContentId) -> bool {
    match content {
        PackageContentId::Dataset { dataset_id } => plain_part(dataset_id.0@),
        PackageContentId::Source { source_id } => plain_part(source_id.0@),
        PackageContentId::CommentBatch { key, source_id } => plain_part(source_id.0@),
        PackageContentId::Document { source_id, comment_id, key, extension } => plain_part(
            source_id.0@,
        ) && plain_part(comment_id.0@) && match extension {
            Some(e) => plain_part(e@),
            None => true,
        },
    }
}

/// Two package files are the same: same kind, same ids, keys and extension.
pub open spec fn same_content(a: PackageContentId, b: PackageContentId) -> bool {
    match (a, b) {
        (PackageContentId::Dataset { dataset_id: x }, PackageContentId::Dataset {
            dataset_id: y,
        }) => x.0@ == y.0@,
        (PackageContentId::Source { source_id: x }, PackageContentId::Source { source_id: y }) =>
            x.0@ == y.0@,
        (PackageContentId::CommentBatch { key: k1, source_id: s1 }, PackageContentId::CommentBatch {
            key: k2,
            source_id: s2,
        }) => k1.0 == k2.0 && s1.0@ == s2.0@,
        (PackageContentId::Document {
            source_id: s1,
            comment_id: c1,
            key: k1,
            extension: e1,
        }, PackageContentId::Document { source_id: s2, comment_id: c2, key: k2, extension: e2 }) =>
            s1.0@ == s2.0@ && c1.0@ == c2.0@ && k1.0 == k2.0 && match (e1, e2) {
            (Some(x), Some(y)) => x@ == y@,
            (None, None) => true,
            _ => false,
        },
        _ => false,
    }
}

/// `fields` joined with dots.
spec fn join_dots(fields: Seq<Seq<char>>) -> Seq<char>
    decreases fields.len(),
{
    if fields.len() <= 1 {
        if fields.len() == 1 {
            fields[0]
        } else {
            Seq::empty()
        }
    } else {
        fields[0] + seq!['.'] + join_dots(fields.drop_first())
    }
}

/// The directory a package file sits in, if any.
spec fn content_dir(content: PackageContentId) -> Option<Seq<char>> {
    match content {
        PackageContentId::Dataset { .. } => Some("datasets"@),
        PackageContentId::Source { .. } => Some("sources"@),
        PackageContentId::CommentBatch { .. } => Some("comments"@),
        PackageContentId::Document { extension, .. } => match extension {
            Some(_) => Some("documents"@),
            None => None,
        },
    }
}

/// The dot-separated parts of a package file's name, after its directory.
spec fn content_fields(content: PackageContentId) -> Seq<Seq<char>> {
    match content {
        PackageContentId::Dataset { dataset_id } => seq![dataset_id.0@, "dataset"@, "json"@],
        PackageContentId::Source { source_id } => seq![source_id.0@, "source"@, "json"@],
        PackageContentId::CommentBatch { key, source_id } => seq![
            source_id.0@,
            decimal(key.0 as nat),
            "comments"@,
            "json"@,
        ],
        PackageContentId::Document { source_id, comment_id, key, extension } => match extension {
            Some(e) => seq![
                source_id.0@,
                comment_id.0@,
                decimal(key.0 as nat),
                "document"@,
                e@,
            ],
            None => seq![source_id.0@, comment_id.0@, decimal(key.0 as nat), "document"@],
        },
    }
}

proof fn lemma_split_first(x: Seq<char>, r1: Seq<char>, y: Seq<char>, r2: Seq<char>, c: char)
    requires
        lacks(x, c),
        lacks(y, c),
        x + seq![c] + r1 == y + seq![c] + r2,
    ensures
        x == y,
        r1 == r2,
{
    let s = x + seq![c] + r1;
    let t = y + seq![c] + r2;
    if x.len() < y.len() {
        assert(s[x.len() as int] == c);
        assert(t[x.len() as int] == y[x.len() as int]);
    } else if y.len() < x.len() {
        assert(t[y.len() as int] == c);
        assert(s[y.len() as int] == x[y.len() as int]);
    } else {
        assert(x =~= s.subrange(0, x.len() as int));
        assert(y =~= t.subrange(0, y.len() as int));
        assert(r1 =~= s.skip(x.len() as int + 1));
        assert(r2 =~= t.skip(y.len() as int + 1));
    }
}

proof fn lemma_join_lacks(fields: Seq<Seq<char>>, c: char)
    requires
        c != '.',
        forall|i: int| 0 <= i < fields.len() ==> lacks(#[trigger] fields[i], c),
    ensures
        lacks(join_dots(fields), c),
    decreases fields.len(),
{
    if fields.len() > 1 {
        let rest = fields.drop_first();
        assert forall|i: int| 0 <= i < rest.len() implies lacks(#[trigger] rest[i], c) by {
            assert(rest[i] == fields[i + 1]);
        }
        lemma_join_lacks(rest, c);
        let head = fields[0];
        let j = join_dots(rest);
        assert forall|i: int| 0 <= i < join_dots(fields).len() implies join_dots(fields)[i]
            != c by {
            if i < head.len() {
                assert(join_dots(fields)[i] == head[i]);
            } else if i > head.len() {
                assert(join_dots(fields)[i] == j[i - head.len() - 1]);
            }
        }
    }
}

proof fn lemma_join_injective(f1: Seq<Seq<char>>, f2: Seq<Seq<char>>)
    requires
        f1.len() == f2.len(),
        forall|i: int| 0 <= i < f1.len() ==> lacks(#[trigger] f1[i], '.'),
        forall|i: int| 0 <= i < f2.len() ==> lacks(#[trigger] f2[i], '.'),
        join_dots(f1) == join_dots(f2),
    ensures
        f1 == f2,
    decreases f1.len(),
{
    if f1.len() == 1 {
        assert(f1 =~= f2);
    } else if f1.len() > 1 {
        let (r1, r2) = (f1.drop_first(), f2.drop_first());
        assert(lacks(f1[0], '.'));
        assert(lacks(f2[0], '.'));
        lemma_split_first(f1[0], join_dots(r1), f2[0], join_dots(r2), '.');
        assert forall|i: int| 0 <= i < r1.len() implies lacks(#[trigger] r1[i], '.') by {
            assert(r1[i] == f1[i + 1]);
        }
        assert forall|i: int| 0 <= i < r2.len() implies lacks(#[trigger] r2[i], '.') by {
            assert(r2[i] == f2[i + 1]);
        }
        lemma_join_injective(r1, r2);
        assert(f1 =~= seq![f1[0]] + r1);
        assert(f2 =~= seq![f2[0]] + r2);
    } else {
        assert(f1 =~= f2);
    }
}

proof fn lemma_literals()
    ensures
        "datasets/"@ == "datasets"@ + seq!['/'],
        "sources/"@ == "sources"@ + seq!['/'],
        "comments/"@ == "comments"@ + seq!['/'],
        "documents/"@ == "documents"@ + seq!['/'],
        ".dataset.json"@ == seq!['.'] + "dataset"@ + seq!['.'] + "json"@,
        ".source.json"@ == seq!['.'] + "source"@ + seq!['.'] + "json"@,
        ".comments.json"@ == seq!['.'] + "comments"@ + seq!['.'] + "json"@,
        ".document."@ == seq!['.'] + "document"@ + seq!['.'],
        ".document"@ == seq!['.'] + "document"@,
        "."@ == seq!['.'],
        plain_part("dataset"@),
        plain_part("source"@),
        plain_part("comments"@),
        plain_part("document"@),
        plain_part("json"@),
        lacks("datasets"@, '/'),
        lacks("sources"@, '/'),
        lacks("comments"@, '/'),
        lacks("documents"@, '/'),
        "datasets"@ != "sources"@,
        "datasets"@ != "comments"@,
        "datasets"@ != "documents"@,
        "sources"@ != "comments"@,
        "sources"@ != "documents"@,
        "comments"@ != "documents"@,
{
    reveal_strlit("datasets/");
    reveal_strlit("sources/");
    reveal_strlit("comments/");
    reveal_strlit("documents/");
    reveal_strlit("datasets");
    reveal_strlit("sources");
    reveal_strlit("comments");
    reveal_strlit("documents");
    reveal_strlit(".dataset.json");
    reveal_strlit(".source.json");
    reveal_strlit(".comments.json");
    reveal_strlit(".document.");
    reveal_strlit(".document");
    reveal_strlit(".");
    reveal_strlit("dataset");
    reveal_strlit("source");
    reveal_strlit("document");
    reveal_strlit("json");
    assert("datasets/"@ =~= "datasets"@ + seq!['/']);
    assert("sources/"@ =~= "sources"@ + seq!['/']);
    assert("comments/"@ =~= "comments"@ + seq!['/']);
    assert("documents/"@ =~= "documents"@ + seq!['/']);
    assert(".dataset.json"@ =~= seq!['.'] + "dataset"@ + seq!['.'] + "json"@);
    assert(".source.json"@ =~= seq!['.'] + "source"@ + seq!['.'] + "json"@);
    assert(".comments.json"@ =~= seq!['.'] + "comments"@ + seq!['.'] + "json"@);
    assert(".document."@ =~= seq!['.'] + "document"@ + seq!['.']);
    assert(".document"@ =~= seq!['.'] + "document"@);
    assert("datasets"@[1] != "documents"@[1]);
    assert("datasets"@[0] != "sources"@[0]);
    assert("datasets"@[0] != "comments"@[0]);
    assert("sources"@[0] != "comments"@[0]);
    assert("sources"@[0] != "documents"@[0]);
    assert("comments"@[0] != "documents"@[0]);
}

/// The name of a package file is its directory (if any), a slash, and its
/// parts joined with dots; the parts of a plainly named file hold no dot
/// and no slash.
proof fn lemma_filename_shape(content: PackageContentId)
    requires
        plainly_named(content),
    ensures
        match content_dir(content) {
            Some(d) => content_filename(content) == d + seq!['/'] + join_dots(
                content_fields(content),
            ) && lacks(d, '/'),
            None => content_filename(content) == join_dots(content_fields(content)),
        },
        forall|i: int|
            0 <= i < content_fields(content).len() ==> plain_part(
                #[trigger] content_fields(content)[i],
            ),
        lacks(join_dots(content_fields(content)), '/'),
{
    lemma_literals();
    reveal_with_fuel(join_dots, 6);
    let f = content_fields(content);
    match content {
        PackageContentId::Dataset { dataset_id } => {
            assert(content_filename(content) =~= "datasets"@ + seq!['/'] + join_dots(f));
        },
        PackageContentId::Source { source_id } => {
            assert(content_filename(content) =~= "sources"@ + seq!['/'] + join_dots(f));
        },
        PackageContentId::CommentBatch { key, source_id } => {
            lemma_decimal_has_no_separators(key.0 as nat);
            assert(content_filename(content) =~= "comments"@ + seq!['/'] + join_dots(f));
        },
        PackageContentId::Document { source_id, comment_id, key, extension } => {
            lemma_decimal_has_no_separators(key.0 as nat);
            match extension {
                Some(e) => {
                    assert(content_filename(content) =~= "documents"@ + seq!['/'] + join_dots(f));
                },
                None => {
                    assert(content_filename(content) =~= join_dots(f));
                },
            }
        },
    }
    assert forall|i: int| 0 <= i < f.len() implies lacks(#[trigger] f[i], '/') by {
        assert(plain_part(f[i]));
    }
    lemma_join_lacks(f, '/');
}

/// Distinct package files never share a name in the archive: where ids and
/// extensions hold no dot and no slash, files with the same name are the
/// same kind of content with equal ids, keys and extensions. A document with
/// an extension sits directly in `documents/`.
pub proof fn lemma_distinct_contents_have_distinct_files(a: PackageContentId, b: PackageContentId)
    requires
        plainly_named(a),
        plainly_named(b),
        content_filename(a) == content_filename(b),
    ensures
        same_content(a, b),
        a matches PackageContentId::Document { extension: Some(_), .. } ==> exists|rest: Seq<
            char,
        >| lacks(rest, '/') && content_filename(a) == "documents/"@ + rest,
{
    lemma_literals();
    lemma_filename_shape(a);
    lemma_filename_shape(b);
    let (fa, fb) = (content_fields(a), content_fields(b));
    let name = content_filename(a);
    let ja = join_dots(fa);
    let jb = join_dots(fb);
    assert forall|i: int| 0 <= i < fa.len() implies lacks(#[trigger] fa[i], '.') by {
        assert(plain_part(fa[i]));
    }
    assert forall|i: int| 0 <= i < fb.len() implies lacks(#[trigger] fb[i], '.') by {
        assert(plain_part(fb[i]));
    }
    match (content_dir(a), content_dir(b)) {
        (Some(da), Some(db)) => {
            lemma_split_first(da, ja, db, jb, '/');
            assert(content_dir(a) == content_dir(b));
        },
        (Some(da), None) => {
            assert(name[da.len() as int] == '/');
            assert(lacks(jb, '/'));
        },
        (None, Some(db)) => {
            assert(content_filename(b)[db.len() as int] == '/');
            assert(lacks(ja, '/'));
        },
        (None, None) => {},
    }
    assert(ja == jb);
    assert(fa.len() == fb.len());
    lemma_join_injective(fa, fb);
    match (a, b) {
        (PackageContentId::CommentBatch { key: k1, .. }, PackageContentId::CommentBatch {
            key: k2,
            ..
        }) => {
            assert(fa[1] == fb[1]);
            lemma_decimal_injective(k1.0 as nat, k2.0 as nat);
        },
        (PackageContentId::Document { key: k1, extension: e1, .. }, PackageContentId::Document {
            key: k2,
            extension: e2,
            ..
        }) => {
            assert(fa[2] == fb[2]);
            lemma_decimal_injective(k1.0 as nat, k2.0 as nat);
            match (e1, e2) {
                (Some(x), Some(y)) => {
                    assert(fa[4] == fb[4]);
                },
                _ => {},
            }
        },
        _ => {},
    }
    if a matches PackageContentId::Document { extension: Some(_), .. } {
        assert(name == "documents/"@ + ja);
    }
}

/// How a package file is named in messages.
pub open spec fn content_friendly_name(content: PackageContentId) -> Seq<char> {
    match content {
        PackageContentId::Dataset { dataset_id } => "dataset "@ + dataset_id.0@,
        PackageContentId::Source { source_id } => "source "@ + source_id.0@,
        PackageContentId::CommentBatch { key, source_id } => "comment batch "@ + decimal(
            key.0 as nat,
        ) + " for source "@ + source_id.0@,
        PackageContentId::Document { source_id, comment_id, key, extension } => (match extension {
            Some(extension) => extension@ + " "@,
            None => Seq::empty(),
        }) + "attachment for comment "@ + comment_id.0@ + ", in source "@ + source_id.0@
            + " with key "@ + decimal(key.0 as nat),
    }
}

impl<'a> PackageContentId<'a> {
    /// The path of this file inside the package archive.
    pub fn filename(&self) -> (name: String)
        ensures
            name@ == content_filename(*self),
    {
        match self {
            PackageContentId::Dataset { dataset_id } => {
                let mut name = owned("datasets/");
                push_str(&mut name, dataset_id.0.as_str());
                push_str(&mut name, ".dataset.json");
                name
            },
            PackageContentId::Source { source_id } => {
                let mut name = owned("sources/");
                push_str(&mut name, source_id.0.as_str());
                push_str(&mut name, ".source.json");
                name
            },
            PackageContentId::CommentBatch { key, source_id } => {
                let mut name = owned("comments/");
                push_str(&mut name, source_id.0.as_str());
                push_str(&mut name, ".");
                let number = decimal_text(key.0 as u64);
                push_str(&mut name, number.as_str());
                push_str(&mut name, ".comments.json");
                name
            },
            PackageContentId::Document { source_id, comment_id, key, extension } => {
                let mut name = match extension {
                    Some(_) => owned("documents/"),
                    None => String::new(),
                };
                push_str(&mut name, source_id.0.as_str());
                push_str(&mut name, ".");
                push_str(&mut name, comment_id.0.as_str());
                push_str(&mut name, ".");
                let number = decimal_text(key.0 as u64);
                push_str(&mut name, number.as_str());
                push_str(&mut name, ".document");
                match extension {
                    Some(extension) => {
                        push_str(&mut name, ".");
                        push_str(&mut name, extension.as_str());
                    },
                    None => {},
                }
                proof {
                    match extension {
                        Some(e) => {
                            reveal_strlit(".");
                            reveal_strlit(".document");
                            reveal_strlit(".document.");
                            assert(".document"@ + "."@ =~= ".document."@);
                            assert(name@ =~= content_filename(*self));
                        },
                        None => {
                            assert(name@ =~= content_filename(*self));
                        },
                    }
                }
                name
            },
        }
    }

    /// How this file is named in messages.
    pub fn friendly_name(&self) -> (name: String)
        ensures
            name@ == content_friendly_name(*self),
    {
        match self {
            PackageContentId::Dataset { dataset_id } => {
                let mut name = owned("dataset ");
                push_str(&mut name, dataset_id.0.as_str());
                name
            },
            PackageContentId::Source { source_id } => {
                let mut name = owned("source ");
                push_str(&mut name, source_id.0.as_str());
                name
            },
            PackageContentId::CommentBatch { key, source_id } => {
                let mut name = owned("comment batch ");
                let number = decimal_text(key.0 as u64);
                push_str(&mut name, number.as_str());
                push_str(&mut name, " for source ");
                push_str(&mut name, source_id.0.as_str());
                name
            },
            PackageContentId::Document { source_id, comment_id, key, extension } => {
                let mut name = String::new();
                match extension {
                    Some(extension) => {
                        push_str(&mut name, extension.as_str());
                        push_str(&mut name, " ");
                    },
                    None => {},
                }
                push_str(&mut name, "attachment for comment ");
                push_str(&mut name, comment_id.0.as_str());
                push_str(&mut name, ", in source ");
                push_str(&mut name, source_id.0.as_str());
                push_str(&mut name, " with key ");
                let number = decimal_text(key.0 as u64);
                push_str(&mut name, number.as_str());
                proof {
                    assert(name@ =~= content_friendly_name(*self));
                }
                name
            },
        }
    }
}

/// The final component of a path, as std's `Path::file_name` reads it.
pub uninterp spec fn path_file_name(path: Seq<char>) -> Option<Seq<char>>;

/// The path without its final component, as std's `Path::parent` reads it.
pub uninterp spec fn path_parent(path: Seq<char>) -> Option<Seq<char>>;

/// The final component of a path (std `Path::file_name`). The result is
/// named, as a function of the path, by `path_file_name`; how paths are
/// split into components is not stated.
#[verifier::external_body]
fn file_name_of(path: &str) -> (name: Option<String>)
    ensures
        match name {
            Some(n) => path_file_name(path@) == Some(n@),
            None => path_file_name(path@) is None,
        },
{
    std::path::Path::new(path).file_name().map(|name| name.to_string_lossy().into_owned())
}

/// The path without its final component (std `Path::parent`). The result
/// is named, as a function of the path, by `path_parent`.
#[verifier::external_body]
fn parent_of(path: &str) -> (parent: Option<String>)
    ensures
        match parent {
            Some(p) => path_parent(path@) == Some(p@),
            None => path_parent(path@) is None,
        },
{
    std::path::Path::new(path).parent().map(|parent| parent.to_string_lossy().into_owned())
}

/// The names of `names` that end with `postfix`, in order.
pub open spec fn names_with_postfix(names: Seq<Seq<char>>, postfix: Seq<char>) -> Seq<Seq<char>>
    decreases names.len(),
{
    if names.len() == 0 {
        Seq::empty()
    } else if ends_with_seq(names.last(), postfix) {
        names_with_postfix(names.drop_last(), postfix).push(names.last())
    } else {
        names_with_postfix(names.drop_last(), postfix)
    }
}

/// The files of a package whose names end with `postfix`, in archive order.
pub fn get_filenames_with_postfix_and_extension(file_names: &[String], postfix: &str) -> (names:
    Vec<String>)
    ensures
        string_views(names@) == names_with_postfix(string_views(file_names@), postfix@),
{
    let mut names: Vec<String> = Vec::new();
    let mut i: usize = 0;
    while i < file_names.len()
        invariant
            i <= file_names.len(),
            string_views(names@) == names_with_postfix(
                string_views(file_names@).take(i as int),
                postfix@,
            ),
        decreases file_names.len() - i,
    {
        let ghost prefix = string_views(file_names@).take(i + 1);
        assert(prefix.drop_last() =~= string_views(file_names@).take(i as int));
        assert(prefix.last() == file_names@[i as int]@);
        if ends_with_text(file_names[i].as_str(), postfix) {
            names.push(file_names[i].clone());
            assert(string_views(names@) =~= names_with_postfix(prefix, postfix@));
        }
        i = i + 1;
    }
    assert(string_views(file_names@).take(file_names@.len() as int) =~= string_views(file_names@));
    names
}

/// A comment batch file of the source `source_id`: its name ends with
/// `comments.json` and its final component starts with the source id.
pub open spec fn is_comment_batch_of(name: Seq<char>, source_id: Seq<char>) -> bool {
    &&& ends_with_seq(name, "comments.json"@)
    &&& path_file_name(name) matches Some(file) && file.len() >= source_id.len() && file.subrange(
        0,
        source_id.len() as int,
    ) == source_id
}

/// The number of names satisfying `comment batch of source_id`.
pub open spec fn comment_batch_count(names: Seq<Seq<char>>, source_id: Seq<char>) -> nat
    decreases names.len(),
{
    if names.len() == 0 {
        0
    } else {
        comment_batch_count(names.drop_last(), source_id) + if is_comment_batch_of(
            names.last(),
            source_id,
        ) {
            1nat
        } else {
            0nat
        }
    }
}

fn starts_with(text: &str, prefix: &str) -> (starts: bool)
    ensures
        starts == (text@.len() >= prefix@.len() && text@.subrange(0, prefix@.len() as int)
            == prefix@),
{
    let x = crate::text::chars_of(text);
    let y = crate::text::chars_of(prefix);
    if y.len() > x.len() {
        return false;
    }
    let mut i: usize = 0;
    while i < y.len()
        invariant
            x@ == text@,
            y@ == prefix@,
            y.len() <= x.len(),
            i <= y.len(),
            forall|k: int| 0 <= k < i ==> x@[k] == y@[k],
        decreases y.len() - i,
    {
        if x[i] != y[i] {
            assert(text@.subrange(0, prefix@.len() as int)[i as int] == x@[i as int]);
            return false;
        }
        i = i + 1;
    }
    assert(text@.subrange(0, prefix@.len() as int) =~= prefix@);
    true
}

/// Number of comment batch files of a source in a package.
pub fn get_comment_batch_count_for_source(file_names: &[String], source_id: &SourceId) -> (count:
    usize)
    ensures
        count == comment_batch_count(string_views(file_names@), source_id.0@),
{
    let mut count: usize = 0;
    let mut i: usize = 0;
    while i < file_names.len()
        invariant
            i <= file_names.len(),
            count == comment_batch_count(string_views(file_names@).take(i as int), source_id.0@),
            count <= i,
        decreases file_names.len() - i,
    {
        let ghost prefix = string_views(file_names@).take(i + 1);
        assert(prefix.drop_last() =~= string_views(file_names@).take(i as int));
        assert(prefix.last() == file_names@[i as int]@);
        if ends_with_text(file_names[i].as_str(), "comments.json") {
            match file_name_of(file_names[i].as_str()) {
                Some(file) => {
                    if starts_with(file.as_str(), source_id.0.as_str()) {
                        count = count + 1;
                    }
                },
                None => {},
            }
        }
        i = i + 1;
    }
    assert(string_views(file_names@).take(file_names@.len() as int) =~= string_views(file_names@));
    count
}

/// The number of names directly in the `documents` folder.
pub open spec fn document_file_count(names: Seq<Seq<char>>) -> nat
    decreases names.len(),
{
    if names.len() == 0 {
        0
    } else {
        document_file_count(names.drop_last()) + if path_parent(names.last()) == Some(
            "documents"@,
        ) {
            1nat
        } else {
            0nat
        }
    }
}

/// Number of document files in a package.
pub fn get_document_count(file_names: &[String]) -> (count: usize)
    ensures
        count == document_file_count(string_views(file_names@)),
{
    let mut count: usize = 0;
    let mut i: usize = 0;
    while i < file_names.len()
        invariant
            i <= file_names.len(),
            count == document_file_count(string_views(file_names@).take(i as int)),
            count <= i,
        decreases file_names.len() - i,
    {
        let ghost prefix = string_views(file_names@).take(i + 1);
        assert(prefix.drop_last() =~= string_views(file_names@).take(i as int));
        assert(prefix.last() == file_names@[i as int]@);
        match parent_of(file_names[i].as_str()) {
            Some(folder) => {
                if str_eq(folder.as_str(), "documents") {
                    count = count + 1;
                }
            },
            None => {},
        }
        i = i + 1;
    }
    assert(string_views(file_names@).take(file_names@.len() as int) =~= string_views(file_names@));
    count
}

} // verus!
