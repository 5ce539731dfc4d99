//! Walking a PST mailbox: folder paths and attachment kinds.

use vstd::prelude::*;
use crate::text::{owned, push_str};

verus! {

/// The path of a folder in a mailbox, as the names from the root down.
pub struct FolderPath(pub Vec<String>);

impl FolderPath {
    /// The root folder.
    pub fn root() -> (path: FolderPath)
        ensures
            path.0@ == Seq::<String>::empty(),
    {
        FolderPath(Vec::new())
    }

    /// The sub-folder `name` of this folder.
    pub fn sub_path(&self, name: String) -> (path: FolderPath)
        ensures
            path.0@ == self.0@.push(name),
    {
        let mut names: Vec<String> = Vec::new();
        let mut i: usize = 0;
        while i < self.0.len()
            invariant
                i <= self.0.len(),
                names@ == self.0@.subrange(0, i as int),
            decreases self.0.len() - i,
        {
            names.push(self.0[i].clone());
            assert(names@ =~= self.0@.subrange(0, i + 1));
            i = i + 1;
        }
        assert(self.0@.subrange(0, self.0@.len() as int) =~= self.0@);
        names.push(name);
        FolderPath(names)
    }

    /// Whether this is the root folder.
    pub fn is_root(&self) -> (root: bool)
        ensures
            root == (self.0@.len() == 0),
    {
        self.0.len() == 0
    }
}

/// The kind of a PST attachment.
#[derive(PartialEq, Eq, Structural, Debug)]
pub enum LibPffAttachmentType {
    Undefined,
    Data,
    Item,
    Reference,
}

/// The number libpff gives each attachment kind.
pub open spec fn attachment_type_code(kind: LibPffAttachmentType) -> int {
    match kind {
        LibPffAttachmentType::Undefined => 0,
        LibPffAttachmentType::Data => 100,
        LibPffAttachmentType::Item => 105,
        LibPffAttachmentType::Reference => 114,
    }
}

impl LibPffAttachmentType {
    /// The number libpff gives this kind: 0, or the code of `d`, `i`, `r`.
    pub fn code(&self) -> (code: isize)
        ensures
            code == attachment_type_code(*self),
    {
        match self {
            LibPffAttachmentType::Undefined => 0,
            LibPffAttachmentType::Data => 100,
            LibPffAttachmentType::Item => 105,
            LibPffAttachmentType::Reference => 114,
        }
    }

    /// The kind libpff numbers `value`; any other number is refused.
    pub fn from_isize(value: isize) -> (kind: Result<LibPffAttachmentType, String>)
        ensures
            kind matches Ok(k) ==> attachment_type_code(k) == value,
            kind is Err <==> !(value == 0 || value == 100 || value == 105 || value == 114),
            kind matches Err(message) ==> message@ == "Unknown Attachment type "@ + crate::text::signed_decimal(value as int),
    {
        if value == 0 {
            Ok(LibPffAttachmentType::Undefined)
        } else if value == 100 {
            Ok(LibPffAttachmentType::Data)
        } else if value == 105 {
            Ok(LibPffAttachmentType::Item)
        } else if value == 114 {
            Ok(LibPffAttachmentType::Reference)
        } else {
            let mut message = owned("Unknown Attachment type ");
            let number = crate::text::isize_text(value);
            push_str(&mut message, number.as_str());
            Err(message)
        }
    }
}

} // verus!
