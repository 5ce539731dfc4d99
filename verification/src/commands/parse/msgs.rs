//! Uploading a directory of Outlook `.msg` files: where their streams live
//! and how their text is cleaned.

use vstd::prelude::*;
use crate::text::{owned, push_str};
use crate::thousands::{decimal, decimal_text};

verus! {

/// The options of `re parse msgs`.
pub struct ParseMsgArgs {
    /// The directory holding the `.msg` files.
    pub directory: String,
    /// The source to upload the emails to, by name or id.
    pub source: String,
    /// The transform tag to process them with.
    pub transform_tag: Option<String>,
    /// Don't charge AI units.
    pub no_charge: bool,
    /// Consent to the AI unit charge without being asked.
    pub yes: bool,
}

/// `digits` padded on the left with zeros to at least eight characters.
pub open spec fn zero_padded8(digits: Seq<char>) -> Seq<char> {
    if digits.len() < 8 {
        Seq::new((8 - digits.len()) as nat, |i: int| '0') + digits
    } else {
        digits
    }
}

/// The storage path of the attachment numbered `attachment_number` inside a
/// `.msg` compound file.
pub open spec fn attachment_store_path(attachment_number: nat) -> Seq<char> {
    "__attach_version1.0_#"@ + zero_padded8(decimal(attachment_number))
}

/// The storage holding attachment `attachment_number` in a `.msg` file.
pub fn get_attachment_store_path(attachment_number: usize) -> (path: String)
    ensures
        path@ == attachment_store_path(attachment_number as nat),
{
    let digits = decimal_text(attachment_number as u64);
    let mut path = owned("__attach_version1.0_#");
    let length = crate::text::chars_of(digits.as_str()).len();
    let mut padding: usize = length;
    let ghost mut zeros: Seq<char> = Seq::empty();
    while padding < 8
        invariant
            length == digits@.len(),
            length <= padding <= 8 || (padding == length && length > 8),
            path@ == "__attach_version1.0_#"@ + zeros,
            zeros.len() == padding - length,
            forall|i: int| 0 <= i < zeros.len() ==> zeros[i] == '0',
        decreases 8 - padding,
    {
        crate::text::push_char(&mut path, '0');
        proof {
            zeros = zeros.push('0');
        }
        padding = padding + 1;
    }
    push_str(&mut path, digits.as_str());
    proof {
        if digits@.len() < 8 {
            assert(zeros =~= Seq::new((8 - digits@.len()) as nat, |i: int| '0'));
        } else {
            assert(zeros =~= Seq::<char>::empty());
        }
        assert(path@ =~= attachment_store_path(attachment_number as nat));
    }
    path
}

/// The regular expression matching a `Content-Type` header with its folded
/// continuation lines.
pub open spec fn content_type_header_pattern() -> Seq<char> {
    "Content-Type:((\\s)+.+\\n)+"@
}

/// The regular expression matching a `Content-Transfer-Encoding` header
/// with its folded continuation lines.
pub open spec fn transfer_encoding_header_pattern() -> Seq<char> {
    "Content-Transfer-Encoding:((\\s)+.+\\n)+"@
}

/// `text` with the leftmost match of the regular expression `pattern`
/// removed, as the `regex` crate finds it.
pub uninterp spec fn first_match_removed(pattern: Seq<char>, text: Seq<char>) -> Seq<char>;

/// Removes the leftmost match of a regular expression (`regex::Regex::new`,
/// then `Regex::replace` with an empty replacement). The result is named,
/// as a function of the pattern and the text, by `first_match_removed`;
/// what the regular expression matches is not stated. Only the two header
/// patterns of this module are accepted, which compile.
#[verifier::external_body]
fn remove_first_match(pattern: &str, text: &str) -> (result: String)
    requires
        pattern@ == content_type_header_pattern() || pattern@
            == transfer_encoding_header_pattern(),
    ensures
        result@ == first_match_removed(pattern@, text@),
{
    let regex = regex::Regex::new(pattern).expect("the header patterns compile");
    regex.replace(text, "").into_owned()
}

/// The headers of a message without its `Content-Type` and
/// `Content-Transfer-Encoding` headers: the leftmost match of each is
/// removed, in that order.
pub fn remove_content_headers(headers_string: String) -> (cleaned: String)
    ensures
        cleaned@ == first_match_removed(
            transfer_encoding_header_pattern(),
            first_match_removed(content_type_header_pattern(), headers_string@),
        ),
{
    let without_type = remove_first_match("Content-Type:((\\s)+.+\\n)+", headers_string.as_str());
    remove_first_match("Content-Transfer-Encoding:((\\s)+.+\\n)+", without_type.as_str())
}

/// The text of UTF-16LE bytes, as `encoding_rs` decodes them.
pub uninterp spec fn utf16le_text(bytes: Seq<u8>) -> Seq<char>;

/// Decodes a UTF-16LE stream (`encoding_rs::UTF_16LE.decode`: a leading
/// byte order mark picks the encoding, malformed sequences become U+FFFD).
/// The result is named, as a function of the bytes, by `utf16le_text`.
#[verifier::external_body]
fn utf16le_stream_to_string(data: &[u8]) -> (text: String)
    ensures
        text@ == utf16le_text(data@),
{
    let (text, _, _) = encoding_rs::UTF_16LE.decode(data);
    text.into_owned()
}

/// Decodes the UTF-16LE text of a `.msg` stream.
pub fn read_unicode_stream(data: &[u8]) -> (text: String)
    ensures
        text@ == utf16le_text(data@),
{
    utf16le_stream_to_string(data)
}

} // verus!
