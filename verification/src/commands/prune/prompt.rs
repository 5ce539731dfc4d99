//! The confirmation asked of the operator before a prune run backs up and
//! deletes: what will be deleted and the caveats that are easy to miss.

use vstd::prelude::*;
use crate::text::{join, joined, push_str, string_views};
use crate::thousands::{decimal, decimal_text};

verus! {

/// The note added when annotated comments are deleted too.
pub open spec fn annotated_note() -> Seq<char> {
    NOTE_TEXT@
}

/// The clause naming the mailbox in the first line.
pub open spec fn mailbox_clause(mailbox: Option<Seq<char>>) -> Seq<char> {
    match mailbox {
        Some(m) => " in mailbox `"@ + m + "`"@,
        None => Seq::empty(),
    }
}

/// The warning on which emails are deleted.
pub open spec fn email_bullet(mailbox: Option<Seq<char>>) -> Seq<char> {
    match mailbox {
        Some(m) => "Email deletion is restricted to mailbox `"@ + m + "`: only emails in that mailbox dated before the cutoff are deleted."@,
        None => WHOLE_BUCKET_TEXT@,
    }
}

/// The warning on how comments are matched to a mailbox.
pub open spec fn mailbox_bullet(mailbox: Option<Seq<char>>) -> Seq<char> {
    match mailbox {
        Some(m) => "\n  - Comments are matched to the mailbox via their `Mailbox ID` user property (written by email\n    parsing when mailbox-id injection is enabled). A comment without it is treated as not in\n    mailbox `"@ + m + "` and is kept — so if injection was off for these sources, NO comments are deleted."@,
        None => Seq::empty(),
    }
}

/// The whole confirmation text.
pub open spec fn prompt_text(
    datasets: Seq<Seq<char>>,
    sources: nat,
    buckets: nat,
    cutoff: Seq<char>,
    include_annotated: bool,
    mailbox: Option<Seq<char>>,
) -> Seq<char> {
    INTRO_TEXT@ + cutoff + mailbox_clause(mailbox) + FROM_TEXT@ + decimal(sources) + SOURCES_TEXT@
        + decimal(buckets) + BUCKETS_TEXT@ + decimal(datasets.len()) + DATASETS_TEXT@ + joined(datasets, ", "@)
        + "."@ + (if include_annotated { NOTE_TEXT@ } else { Seq::empty() })
        + WARNINGS_HEAD@ + email_bullet(mailbox) + mailbox_bullet(mailbox) + WARNINGS_TAIL@
}

/// Opening words of the prompt.
pub const INTRO_TEXT: &'static str = "About to back up and then delete comments and emails dated before ";

/// Between the cutoff and the number of sources.
pub const FROM_TEXT: &'static str = " from ";

/// After the number of sources.
pub const SOURCES_TEXT: &'static str = " source(s) and ";

/// After the number of buckets.
pub const BUCKETS_TEXT: &'static str = " bucket(s) across ";

/// After the number of datasets.
pub const DATASETS_TEXT: &'static str = " dataset(s): ";

/// Added when annotated comments are deleted too.
pub const NOTE_TEXT: &'static str = "\n\nAnnotated comments will be deleted too (--include-annotated), including ones annotated only in datasets you can't access — whose annotations are NOT backed up.";

/// The warnings, up to the email bullet.
pub const WARNINGS_HEAD: &'static str = "\n\nWARNING:\n  - Comment attachment content is not backed up — only attachment metadata.\n  - A comment is kept only if it's annotated in a dataset you listed. A comment annotated only\n    in a dataset you can't access is treated as un-annotated: it is deleted, and that annotation\n    is NOT backed up.\n  - ";

/// The warnings after the email bullets, and the closing question.
pub const WARNINGS_TAIL: &'static str = "\n  - Only datasets you can read are checked for shared sources. If an in-scope source also belongs\n    to a dataset in a project you can't access, that dataset loses the comments deleted here.\n  - Sources not in any listed dataset are out of scope — their comments are NOT deleted, even if\n    their bucket's emails are.\n\nThe backup is your only way to undo this, and it contains personal data. Write it somewhere secure and keep it safe — restore is manual, via `re create comments` / `re create emails`.\n\nThe backup is written before anything is deleted. Proceed?";

/// The email bullet when no mailbox is given.
pub const WHOLE_BUCKET_TEXT: &'static str = "Email deletion is whole-bucket by age: every email before the cutoff is deleted from each\n    bucket, including emails feeding other sources or datasets — in scope or not.";

fn mailbox_clause_text(mailbox: Option<&str>) -> (clause: String)
    ensures
        clause@ == mailbox_clause(match mailbox {
            Some(m) => Some(m@),
            None => None,
        }),
{
    match mailbox {
        Some(m) => {
            let mut clause = crate::text::owned(" in mailbox `");
            push_str(&mut clause, m);
            push_str(&mut clause, "`");
            clause
        },
        None => String::new(),
    }
}

fn email_bullet_text(mailbox: Option<&str>) -> (bullet: String)
    ensures
        bullet@ == email_bullet(match mailbox {
            Some(m) => Some(m@),
            None => None,
        }),
{
    match mailbox {
        Some(m) => {
            let mut bullet = crate::text::owned("Email deletion is restricted to mailbox `");
            push_str(&mut bullet, m);
            push_str(&mut bullet, "`: only emails in that mailbox dated before the cutoff are deleted.");
            bullet
        },
        None => crate::text::owned(WHOLE_BUCKET_TEXT),
    }
}

fn mailbox_bullet_text(mailbox: Option<&str>) -> (bullet: String)
    ensures
        bullet@ == mailbox_bullet(match mailbox {
            Some(m) => Some(m@),
            None => None,
        }),
{
    match mailbox {
        Some(m) => {
            let mut bullet = crate::text::owned("\n  - Comments are matched to the mailbox via their `Mailbox ID` user property (written by email\n    parsing when mailbox-id injection is enabled). A comment without it is treated as not in\n    mailbox `");
            push_str(&mut bullet, m);
            push_str(&mut bullet, "` and is kept — so if injection was off for these sources, NO comments are deleted.");
            bullet
        },
        None => String::new(),
    }
}

/// Builds the confirmation text for a run over `datasets` (full names),
/// `sources` sources and `buckets` buckets, deleting data dated before
/// `cutoff` (as shown to the operator).
pub fn confirm_prompt(
    datasets: &[String],
    sources: usize,
    buckets: usize,
    cutoff: &str,
    include_annotated: bool,
    mailbox: Option<&str>,
) -> (prompt: String)
    ensures
        prompt@ == prompt_text(
            string_views(datasets@),
            sources as nat,
            buckets as nat,
            cutoff@,
            include_annotated,
            match mailbox {
                Some(m) => Some(m@),
                None => None,
            },
        ),
{
    let ghost mailbox_view = match mailbox {
        Some(m) => Some(m@),
        None => None,
    };
    let clause = mailbox_clause_text(mailbox);
    let sources_text = decimal_text(sources as u64);
    let buckets_text = decimal_text(buckets as u64);
    let count_text = decimal_text(datasets.len() as u64);
    let names = join(datasets, ", ");
    let note = if include_annotated {
        crate::text::owned(NOTE_TEXT)
    } else {
        String::new()
    };
    let emails = email_bullet_text(mailbox);
    let matching = mailbox_bullet_text(mailbox);
    let mut prompt = String::new();
    push_str(&mut prompt, INTRO_TEXT);
    push_str(&mut prompt, cutoff);
    push_str(&mut prompt, clause.as_str());
    push_str(&mut prompt, FROM_TEXT);
    push_str(&mut prompt, sources_text.as_str());
    push_str(&mut prompt, SOURCES_TEXT);
    push_str(&mut prompt, buckets_text.as_str());
    push_str(&mut prompt, BUCKETS_TEXT);
    push_str(&mut prompt, count_text.as_str());
    push_str(&mut prompt, DATASETS_TEXT);
    push_str(&mut prompt, names.as_str());
    push_str(&mut prompt, ".");
    push_str(&mut prompt, note.as_str());
    push_str(&mut prompt, WARNINGS_HEAD);
    push_str(&mut prompt, emails.as_str());
    push_str(&mut prompt, matching.as_str());
    push_str(&mut prompt, WARNINGS_TAIL);
    proof {
        assert(string_views(datasets@).len() == datasets@.len());
        if !include_annotated {
            assert(note@ == Seq::<char>::empty());
        }
    }
    prompt
}

} // verus!
