//! Which comments a prune run backs up and deletes.

use vstd::prelude::*;
use crate::ids::{CommentId, CommentUid};
use crate::text::{chars_of, str_eq};

verus! {

/// The comment user property that email parsing writes the originating
/// mailbox into.
pub open spec fn mailbox_user_property() -> Seq<char> {
    "Mailbox ID"@
}

/// The value of a comment user property.
pub enum PropertyValue {
    /// A string value.
    String(String),
    /// A number value; no rule of this command reads it.
    Number,
}

/// The user properties of a comment: each name with its value.
pub struct PropertyMap {
    entries: Vec<(String, PropertyValue)>,
}

/// The value stored under `name` in `entries`: the first entry with that name.
pub open spec fn lookup(entries: Seq<(String, PropertyValue)>, name: Seq<char>) -> Option<
    PropertyValue,
>
    decreases entries.len(),
{
    if entries.len() == 0 {
        None
    } else if entries[0].0@ == name {
        Some(entries[0].1)
    } else {
        lookup(entries.drop_first(), name)
    }
}

/// The first entry named `name` decides the lookup.
proof fn lemma_lookup_first_match(entries: Seq<(String, PropertyValue)>, name: Seq<char>, i: int)
    requires
        0 <= i < entries.len(),
        entries[i].0@ == name,
        forall|k: int| 0 <= k < i ==> entries[k].0@ != name,
    ensures
        lookup(entries, name) == Some(entries[i].1),
    decreases i,
{
    if i > 0 {
        let tail = entries.drop_first();
        assert forall|k: int| 0 <= k < i - 1 implies tail[k].0@ != name by {
            assert(tail[k] == entries[k + 1]);
        }
        lemma_lookup_first_match(tail, name, i - 1);
    }
}

/// A name that no entry has is not found.
proof fn lemma_lookup_absent(entries: Seq<(String, PropertyValue)>, name: Seq<char>)
    requires
        forall|k: int| 0 <= k < entries.len() ==> entries[k].0@ != name,
    ensures
        lookup(entries, name) is None,
    decreases entries.len(),
{
    if entries.len() > 0 {
        let tail = entries.drop_first();
        assert forall|k: int| 0 <= k < tail.len() implies tail[k].0@ != name by {
            assert(tail[k] == entries[k + 1]);
        }
        lemma_lookup_absent(tail, name);
    }
}

/// Entries with the same names, and the same values wherever the name is
/// `other`, give the same lookup of `other`.
proof fn lemma_lookup_same_keys(
    a: Seq<(String, PropertyValue)>,
    b: Seq<(String, PropertyValue)>,
    other: Seq<char>,
)
    requires
        a.len() == b.len(),
        forall|k: int| 0 <= k < a.len() ==> a[k].0@ == b[k].0@,
        forall|k: int| 0 <= k < a.len() && a[k].0@ == other ==> a[k].1 == b[k].1,
    ensures
        lookup(a, other) == lookup(b, other),
    decreases a.len(),
{
    if a.len() > 0 {
        let ta = a.drop_first();
        let tb = b.drop_first();
        assert forall|k: int| 0 <= k < ta.len() implies ta[k].0@ == tb[k].0@ by {
            assert(ta[k] == a[k + 1]);
            assert(tb[k] == b[k + 1]);
        }
        assert forall|k: int| 0 <= k < ta.len() && ta[k].0@ == other implies ta[k].1 == tb[k].1 by {
            assert(ta[k] == a[k + 1]);
            assert(tb[k] == b[k + 1]);
        }
        lemma_lookup_same_keys(ta, tb, other);
    }
}

/// Looking up in entries with one more entry at the end.
proof fn lemma_lookup_push(
    entries: Seq<(String, PropertyValue)>,
    entry: (String, PropertyValue),
    name: Seq<char>,
)
    ensures
        lookup(entries.push(entry), name) == (match lookup(entries, name) {
            Some(v) => Some(v),
            None => if entry.0@ == name {
                Some(entry.1)
            } else {
                None
            },
        }),
    decreases entries.len(),
{
    let pushed = entries.push(entry);
    assert(pushed[0] == if entries.len() > 0 { entries[0] } else { entry });
    if entries.len() > 0 {
        assert(pushed.drop_first() =~= entries.drop_first().push(entry));
        lemma_lookup_push(entries.drop_first(), entry, name);
    } else {
        assert(pushed.drop_first() =~= Seq::<(String, PropertyValue)>::empty());
        assert(lookup(pushed.drop_first(), name) is None);
        assert(lookup(entries, name) is None);
    }
}

impl PropertyMap {
    /// The value stored under `name`, if any.
    pub closed spec fn spec_get(&self, name: Seq<char>) -> Option<PropertyValue> {
        lookup(self.entries@, name)
    }

    /// A map with no property.
    pub fn new() -> (map: PropertyMap)
        ensures
            forall|name: Seq<char>| #[trigger] map.spec_get(name) is None,
    {
        PropertyMap { entries: Vec::new() }
    }

    /// Stores `value` under `name`, replacing any value stored there.
    pub fn insert(&mut self, name: String, value: PropertyValue)
        ensures
            final(self).spec_get(name@) == Some(value),
            forall|other: Seq<char>|
                other != name@ ==> #[trigger] final(self).spec_get(other) == old(self).spec_get(
                    other,
                ),
    {
        let mut i: usize = 0;
        while i < self.entries.len()
            invariant
                i <= self.entries.len(),
                self.entries@ == old(self).entries@,
                forall|k: int| 0 <= k < i ==> self.entries@[k].0@ != name@,
            decreases self.entries.len() - i,
        {
            if str_eq(self.entries[i].0.as_str(), name.as_str()) {
                let ghost before = self.entries@;
                proof {
                    lemma_lookup_first_match(before, name@, i as int);
                }
                let ghost key = name@;
                let ghost stored = value;
                self.entries.set(i, (name, value));
                proof {
                    lemma_lookup_first_match(self.entries@, key, i as int);
                    assert forall|other: Seq<char>| other != key implies #[trigger] lookup(
                        self.entries@,
                        other,
                    ) == lookup(before, other) by {
                        lemma_lookup_same_keys(self.entries@, before, other);
                    }
                }
                return;
            }
            i = i + 1;
        }
        let ghost before = self.entries@;
        let ghost key = name@;
        let ghost stored = value;
        self.entries.push((name, value));
        proof {
            assert forall|other: Seq<char>| true implies #[trigger] lookup(self.entries@, other)
                == (match lookup(before, other) {
                Some(v) => Some(v),
                None => if key == other {
                    Some(stored)
                } else {
                    None
                },
            }) by {
                lemma_lookup_push(before, (self.entries@.last().0, stored), other);
                assert(self.entries@ == before.push(self.entries@.last()));
            }
            lemma_lookup_absent(before, key);
        }
    }

    /// The value stored under `name`, if any.
    pub fn get(&self, name: &str) -> (value: Option<&PropertyValue>)
        ensures
            value matches Some(v) ==> self.spec_get(name@) == Some(*v),
            value is None ==> self.spec_get(name@) is None,
    {
        let mut i: usize = 0;
        assert(self.entries@.skip(0) =~= self.entries@);
        while i < self.entries.len()
            invariant
                i <= self.entries.len(),
                lookup(self.entries@, name@) == lookup(self.entries@.skip(i as int), name@),
            decreases self.entries.len() - i,
        {
            let ghost tail = self.entries@.skip(i as int);
            assert(tail.drop_first() =~= self.entries@.skip(i + 1));
            if str_eq(self.entries[i].0.as_str(), name) {
                return Some(&self.entries[i].1);
            }
            i = i + 1;
        }
        None
    }
}

/// A comment, with what the prune rules read of it.
pub struct Comment {
    /// Identifier within its source.
    pub id: CommentId,
    /// Globally unique identifier.
    pub uid: CommentUid,
    /// User properties.
    pub user_properties: PropertyMap,
}

/// `c` with ASCII letters folded to lower case, as a code point.
pub open spec fn ascii_fold(c: char) -> u32 {
    if 'A' <= c && c <= 'Z' {
        (c as u32 + 32) as u32
    } else {
        c as u32
    }
}

/// `a` and `b` are equal up to the case of ASCII letters.
pub open spec fn equal_ignoring_ascii_case(a: Seq<char>, b: Seq<char>) -> bool {
    a.len() == b.len() && forall|i: int| 0 <= i < a.len() ==> ascii_fold(a[i]) == ascii_fold(b[i])
}

fn fold_char(c: char) -> (folded: u32)
    ensures
        folded == ascii_fold(c),
{
    if c >= 'A' && c <= 'Z' {
        (c as u32) + 32
    } else {
        c as u32
    }
}

/// Whether `a` and `b` are equal up to the case of ASCII letters
/// (std `str::eq_ignore_ascii_case`).
pub fn eq_ignore_ascii_case(a: &str, b: &str) -> (same: bool)
    ensures
        same == equal_ignoring_ascii_case(a@, b@),
{
    let x = chars_of(a);
    let y = chars_of(b);
    if x.len() != y.len() {
        return false;
    }
    let mut i: usize = 0;
    while i < x.len()
        invariant
            x@ == a@,
            y@ == b@,
            x.len() == y.len(),
            i <= x.len(),
            forall|k: int| 0 <= k < i ==> ascii_fold(x@[k]) == ascii_fold(y@[k]),
        decreases x.len() - i,
    {
        if fold_char(x[i]) != fold_char(y[i]) {
            return false;
        }
        i = i + 1;
    }
    true
}

/// A comment belongs to `mailbox` when its `Mailbox ID` user property is a
/// string equal to `mailbox` up to ASCII case.
pub open spec fn in_mailbox(comment: Comment, mailbox: Seq<char>) -> bool {
    match comment.user_properties.spec_get(mailbox_user_property()) {
        Some(PropertyValue::String(value)) => equal_ignoring_ascii_case(value@, mailbox),
        _ => false,
    }
}

/// Whether a comment belongs to `mailbox`, matched case-insensitively
/// against its `Mailbox ID` user property. A comment without that property,
/// or with a number there, never matches.
pub fn comment_in_mailbox(comment: &Comment, mailbox: &str) -> (inside: bool)
    ensures
        inside == in_mailbox(*comment, mailbox@),
{
    match comment.user_properties.get("Mailbox ID") {
        Some(PropertyValue::String(value)) => eq_ignore_ascii_case(value.as_str(), mailbox),
        _ => false,
    }
}

/// A comment without a string `Mailbox ID` property belongs to no mailbox,
/// so a run restricted to a mailbox keeps it.
pub proof fn lemma_unattributed_comment_is_kept(
    comment: Comment,
    mailbox: Seq<char>,
    include_annotated: bool,
    reviewed: bool,
)
    requires
        !(comment.user_properties.spec_get(mailbox_user_property()) matches Some(
            PropertyValue::String(_),
        )),
    ensures
        !in_mailbox(comment, mailbox),
        !to_be_deleted(comment, include_annotated, reviewed, Some(mailbox)),
{
}

/// Without `--include-annotated`, a comment annotated in an in-scope
/// dataset is never deleted; with it, annotation does not matter.
pub proof fn lemma_annotated_comment_is_kept(
    comment: Comment,
    mailbox: Option<Seq<char>>,
)
    ensures
        !to_be_deleted(comment, false, true, mailbox),
        to_be_deleted(comment, true, true, mailbox) == to_be_deleted(comment, true, false, mailbox),
{
}

/// Matching a mailbox ignores ASCII case both ways.
pub proof fn lemma_mailbox_match_ignores_case(a: Seq<char>, b: Seq<char>)
    ensures
        equal_ignoring_ascii_case(a, a),
        equal_ignoring_ascii_case(a, b) == equal_ignoring_ascii_case(b, a),
{
}

/// A comment older than the cutoff goes into the deletion set unless it is
/// annotated in an in-scope dataset (and annotated comments are kept), or
/// the run is restricted to a mailbox it does not belong to.
pub open spec fn to_be_deleted(
    comment: Comment,
    include_annotated: bool,
    reviewed: bool,
    mailbox: Option<Seq<char>>,
) -> bool {
    &&& (include_annotated || !reviewed)
    &&& match mailbox {
        Some(m) => in_mailbox(comment, m),
        None => true,
    }
}

/// Whether a comment older than the cutoff is backed up for deletion;
/// `reviewed` tells whether its uid is in the annotation backups.
pub fn should_back_up_comment(
    comment: &Comment,
    include_annotated: bool,
    reviewed: bool,
    mailbox: Option<&str>,
) -> (delete: bool)
    ensures
        delete == to_be_deleted(
            *comment,
            include_annotated,
            reviewed,
            match mailbox {
                Some(m) => Some(m@),
                None => None,
            },
        ),
{
    if !include_annotated && reviewed {
        return false;
    }
    match mailbox {
        Some(m) => comment_in_mailbox(comment, m),
        None => true,
    }
}

} // verus!
