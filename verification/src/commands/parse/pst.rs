//! Parsing a PST mailbox: the counters shown while its messages are uploaded.

use vstd::prelude::*;
use std::sync::atomic::{AtomicUsize, Ordering};
use crate::commands::parse::pff::LibPffAttachmentType;
use crate::text::{chars_of, push_char, trim, trimmed};

verus! {

/// At most the first 31 characters of a `Date` header: enough for an RFC
/// 2822 date, cutting off a trailing zone comment such as ` (UTC)`.
pub open spec fn date_prefix(date: Seq<char>) -> Seq<char> {
    if date.len() <= 31 {
        date
    } else {
        date.take(31)
    }
}

/// `text` with every `-0000` zone, left to right, read as `+0000` (UTC).
pub open spec fn unknown_zone_as_utc(text: Seq<char>) -> Seq<char>
    decreases text.len(),
{
    if text.len() < 5 {
        text
    } else if text.take(5) == "-0000"@ {
        "+0000"@ + unknown_zone_as_utc(text.skip(5))
    } else {
        seq![text[0]] + unknown_zone_as_utc(text.skip(1))
    }
}

/// The text of a `Date` header that is handed to the RFC 2822 parser: cut
/// to 31 characters, `-0000` read as `+0000`, then trimmed.
pub open spec fn normalized_date(date: Seq<char>) -> Seq<char> {
    trimmed(unknown_zone_as_utc(date_prefix(date)))
}

proof fn lemma_unknown_zone_step(text: Seq<char>, i: int)
    requires
        0 <= i <= text.len(),
    ensures
        i + 5 <= text.len() && text.subrange(i, i + 5) == "-0000"@ ==> unknown_zone_as_utc(
            text.skip(i),
        ) == "+0000"@ + unknown_zone_as_utc(text.skip(i + 5)),
        i + 5 <= text.len() && text.subrange(i, i + 5) != "-0000"@ ==> unknown_zone_as_utc(
            text.skip(i),
        ) == seq![text[i]] + unknown_zone_as_utc(text.skip(i + 1)),
        i + 5 > text.len() ==> unknown_zone_as_utc(text.skip(i)) == text.skip(i),
{
    let t = text.skip(i);
    if t.len() >= 5 {
        assert(t.take(5) =~= text.subrange(i, i + 5));
        assert(t.skip(5) =~= text.skip(i + 5));
        assert(t.skip(1) =~= text.skip(i + 1));
        assert(t[0] == text[i]);
    }
}

/// The text of a `Date` header as it is handed to the RFC 2822 parser.
pub fn normalize_date_header(date: &str) -> (d: String)
    ensures
        d@ == normalized_date(date@),
{
    proof {
        reveal_strlit("-0000");
        reveal_strlit("+0000");
    }
    let all = chars_of(date);
    let mut cut: Vec<char> = Vec::new();
    let mut k: usize = 0;
    while k < all.len() && k < 31
        invariant
            all@ == date@,
            k <= all.len(),
            k <= 31,
            cut@ == date@.take(k as int),
        decreases 31 - k,
    {
        cut.push(all[k]);
        assert(date@.take(k + 1) =~= date@.take(k as int).push(all@[k as int]));
        k = k + 1;
    }
    assert(cut@ =~= date_prefix(date@));
    let ghost text = cut@;
    let mut out = String::new();
    let mut i: usize = 0;
    assert(text.skip(0) =~= text);
    assert(out@ + text =~= text);
    while i < cut.len()
        invariant
            text == cut@,
            cut@.len() <= 31,
            i <= cut.len(),
            "-0000"@ == seq!['-', '0', '0', '0', '0'],
            "+0000"@ == seq!['+', '0', '0', '0', '0'],
            out@ + unknown_zone_as_utc(text.skip(i as int)) == unknown_zone_as_utc(text),
        decreases cut.len() - i,
    {
        proof {
            lemma_unknown_zone_step(text, i as int);
        }
        if i + 5 <= cut.len() && cut[i] == '-' && cut[i + 1] == '0' && cut[i + 2] == '0' && cut[i
            + 3] == '0' && cut[i + 4] == '0' {
            assert(text.subrange(i as int, i + 5) =~= "-0000"@);
            push_char(&mut out, '+');
            push_char(&mut out, '0');
            push_char(&mut out, '0');
            push_char(&mut out, '0');
            push_char(&mut out, '0');
            proof {
                assert(out@ + unknown_zone_as_utc(text.skip(i + 5)) =~= unknown_zone_as_utc(text));
            }
            i = i + 5;
        } else {
            proof {
                if i + 5 <= cut.len() {
                    assert(text.subrange(i as int, i + 5) != "-0000"@) by {
                        if text.subrange(i as int, i + 5) == "-0000"@ {
                            assert(text.subrange(i as int, i + 5)[0] == text[i as int]);
                            assert(text.subrange(i as int, i + 5)[1] == text[i + 1]);
                            assert(text.subrange(i as int, i + 5)[2] == text[i + 2]);
                            assert(text.subrange(i as int, i + 5)[3] == text[i + 3]);
                            assert(text.subrange(i as int, i + 5)[4] == text[i + 4]);
                        }
                    }
                    assert(out@.push(text[i as int]) + unknown_zone_as_utc(text.skip(i + 1))
                        =~= unknown_zone_as_utc(text));
                } else {
                    let rest = text.skip(i as int);
                    assert(rest.skip(1) =~= text.skip(i + 1));
                    assert(unknown_zone_as_utc(text.skip(i + 1)) == text.skip(i + 1));
                    assert(out@.push(text[i as int]) + unknown_zone_as_utc(text.skip(i + 1))
                        =~= unknown_zone_as_utc(text));
                }
            }
            push_char(&mut out, cut[i]);
            i = i + 1;
        }
    }
    assert(text.skip(text.len() as int) =~= Seq::<char>::empty());
    assert(out@ =~= unknown_zone_as_utc(text));
    trim(out.as_str())
}

/// The instant an RFC 2822 date names, in whole seconds since the Unix
/// epoch, as `chrono` parses it; `None` where it does not parse.
pub uninterp spec fn rfc2822_seconds(text: Seq<char>) -> Option<i64>;

/// Parses an RFC 2822 date (`chrono::DateTime::parse_from_rfc2822`, then
/// `DateTime::timestamp`). The result is named, as a function of the text,
/// by `rfc2822_seconds`; the date grammar is not stated.
#[verifier::external_body]
fn rfc2822_timestamp(text: &str) -> (seconds: Option<i64>)
    ensures
        seconds == rfc2822_seconds(text@),
{
    match chrono::DateTime::parse_from_rfc2822(text) {
        Ok(date) => Some(date.timestamp()),
        Err(_) => None,
    }
}

/// The timestamp of a message from its `Date` header, as chrono reads the
/// normalized header; `None` where chrono cannot read it (the date is then
/// left to a more lenient mail date parser).
pub fn parse_date_header(date: &str) -> (seconds: Option<i64>)
    ensures
        seconds == rfc2822_seconds(normalized_date(date@)),
{
    let normalized = normalize_date_header(date);
    rfc2822_timestamp(normalized.as_str())
}

/// The attachments a message keeps, by index: only those of the data kind.
pub open spec fn data_attachments(kinds: Seq<LibPffAttachmentType>) -> Seq<usize>
    decreases kinds.len(),
{
    if kinds.len() == 0 {
        Seq::empty()
    } else if kinds.last() == LibPffAttachmentType::Data {
        data_attachments(kinds.drop_last()).push((kinds.len() - 1) as usize)
    } else {
        data_attachments(kinds.drop_last())
    }
}

/// Picks the attachments of a message that are kept, by index and in
/// order: those of the data kind. The message has attachments exactly when
/// this is not empty.
pub fn kept_attachments(kinds: &[LibPffAttachmentType]) -> (kept: Vec<usize>)
    ensures
        kept@ == data_attachments(kinds@),
{
    let mut kept: Vec<usize> = Vec::new();
    let mut i: usize = 0;
    while i < kinds.len()
        invariant
            i <= kinds.len(),
            kept@ == data_attachments(kinds@.take(i as int)),
        decreases kinds.len() - i,
    {
        assert(kinds@.take(i + 1).drop_last() =~= kinds@.take(i as int));
        assert(kinds@.take(i + 1).last() == kinds@[i as int]);
        if kinds[i] == LibPffAttachmentType::Data {
            kept.push(i);
        }
        i = i + 1;
    }
    assert(kinds@.take(kinds@.len() as int) =~= kinds@);
    kept
}

/// Running totals of a PST upload. Each counter is an atomic that other
/// threads read while it grows, so no contract states which value a read
/// returns.
pub struct Statistics {
    uploaded: AtomicUsize,
    failed_to_parse: AtomicUsize,
    failed_to_upload: AtomicUsize,
}

impl Statistics {
    /// Every counter at zero.
    pub fn new() -> Statistics {
        Statistics { uploaded: AtomicUsize::new(0), failed_to_parse: AtomicUsize::new(0), failed_to_upload: AtomicUsize::new(0) }
    }

    /// Counts more messages that could not be parsed.
    pub fn add_failed_to_parse(&self, num_failed: usize) {
        self.failed_to_parse.fetch_add(num_failed, Ordering::SeqCst);
    }

    /// Counts more messages that failed to upload.
    pub fn add_failed_to_upload(&self, num_failed: usize) {
        self.failed_to_upload.fetch_add(num_failed, Ordering::SeqCst);
    }

    /// Counts more messages uploaded.
    pub fn add_uploaded(&self, num_uploaded: usize) {
        self.uploaded.fetch_add(num_uploaded, Ordering::SeqCst);
    }

    /// Messages uploaded so far.
    pub fn num_uploaded(&self) -> usize {
        self.uploaded.load(Ordering::SeqCst)
    }

    /// Messages that could not be parsed so far.
    pub fn num_failed_to_parse(&self) -> usize {
        self.failed_to_parse.load(Ordering::SeqCst)
    }

    /// Messages that failed to upload so far.
    pub fn num_failed_to_upload(&self) -> usize {
        self.failed_to_upload.load(Ordering::SeqCst)
    }
}

} // verus!
