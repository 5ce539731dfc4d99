//! The logic behind the `re` subcommands.

pub mod get;
pub mod package;
pub mod parse;
pub mod prune;
pub mod task;
pub mod update;

use vstd::prelude::*;
use crate::text::{chars_of, push_char, push_str};
use crate::thousands::{decimal, decimal_text};

verus! {

/// Characters that are not allowed in a file name on some platform.
pub open spec fn is_invalid_filename_char(c: char) -> bool {
    c == '/' || c == '<' || c == '>' || c == ':' || c == '"' || c == '\\' || c == '|' || c == '?'
        || c == '*'
}

/// `name` with every character not allowed in a file name replaced by `□`.
pub open spec fn cleaned_file_name(name: Seq<char>) -> Seq<char> {
    name.map_values(|c: char| if is_invalid_filename_char(c) { '□' } else { c })
}

/// Replaces every character that some platform does not allow in a file
/// name by `□`.
pub fn clean_file_name(name: String) -> (cleaned: String)
    ensures
        cleaned@ == cleaned_file_name(name@),
{
    let chars = chars_of(name.as_str());
    let mut cleaned = String::new();
    let mut i: usize = 0;
    while i < chars.len()
        invariant
            i <= chars.len(),
            chars@ == name@,
            cleaned@ == cleaned_file_name(name@).subrange(0, i as int),
        decreases chars.len() - i,
    {
        let c = chars[i];
        let invalid = c == '/' || c == '<' || c == '>' || c == ':' || c == '"' || c == '\\' || c
            == '|' || c == '?' || c == '*';
        if invalid {
            push_char(&mut cleaned, '□');
        } else {
            push_char(&mut cleaned, c);
        }
        assert(cleaned_file_name(name@).subrange(0, i + 1) =~= cleaned_file_name(name@).subrange(
            0,
            i as int,
        ).push(cleaned_file_name(name@)[i as int]));
        i = i + 1;
    }
    assert(cleaned_file_name(name@).subrange(0, chars@.len() as int) =~= cleaned_file_name(name@));
    cleaned
}

/// Where a comment attachment is saved: its index and file name, under a
/// directory.
pub struct LocalAttachmentPath {
    index: usize,
    name: String,
    parent_dir: String,
}

impl LocalAttachmentPath {
    /// The attachment numbered `index`, named `name`, saved under `parent_dir`.
    pub fn new(index: usize, name: String, parent_dir: String) -> (path: LocalAttachmentPath)
        ensures
            path.spec_index() == index,
            path.spec_name() == name@,
            path.spec_parent_dir() == parent_dir@,
    {
        LocalAttachmentPath { index, name, parent_dir }
    }

    pub closed spec fn spec_index(&self) -> usize {
        self.index
    }

    pub closed spec fn spec_name(&self) -> Seq<char> {
        self.name@
    }

    pub closed spec fn spec_parent_dir(&self) -> Seq<char> {
        self.parent_dir@
    }

    /// The file name the attachment is saved under: its index, a dot, and
    /// its name made safe for the file system.
    pub fn name(&self) -> (file_name: String)
        ensures
            file_name@ == decimal(self.spec_index() as nat) + "."@ + cleaned_file_name(
                self.spec_name(),
            ),
    {
        let mut file_name = decimal_text(self.index as u64);
        push_str(&mut file_name, ".");
        let cleaned = clean_file_name(self.name.clone());
        push_str(&mut file_name, cleaned.as_str());
        file_name
    }

    /// The directory the attachment is saved under.
    pub fn parent_dir(&self) -> (dir: &str)
        ensures
            dir@ == self.spec_parent_dir(),
    {
        self.parent_dir.as_str()
    }
}

} // verus!
