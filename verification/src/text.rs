//! Small string helpers shared by the formatting code.

use vstd::prelude::*;
use vstd::string::StringExecFns;

verus! {

/// Appends one character to a string (std `String::push`).
#[verifier::external_body]
pub(crate) fn push_char(s: &mut String, c: char)
    ensures
        final(s)@ == old(s)@.push(c),
{
    s.push(c);
}

/// Builds a string holding exactly the characters of `chars`, in order.
pub fn string_from_chars(chars: &[char]) -> (s: String)
    ensures
        s@ == chars@,
{
    let mut s = String::new();
    let mut i: usize = 0;
    while i < chars.len()
        invariant
            i <= chars.len(),
            s@ == chars@.subrange(0, i as int),
        decreases chars.len() - i,
    {
        push_char(&mut s, chars[i]);
        assert(chars@.subrange(0, i + 1) == chars@.subrange(0, i as int).push(chars@[i as int]));
        i = i + 1;
    }
    assert(chars@.subrange(0, chars@.len() as int) == chars@);
    s
}

/// The characters of `s`, in order.
pub fn chars_of(s: &str) -> (v: Vec<char>)
    ensures
        v@ == s@,
{
    broadcast use vstd::string::axiom_spec_iter;
    let mut v: Vec<char> = Vec::new();
    for c in it: s.chars()
        invariant
            v@ == it.seq().take(it.index() as int),
    {
        v.push(c);
    }
    v
}

/// Appends `tail` to `s`.
pub(crate) fn push_str(s: &mut String, tail: &str)
    ensures
        final(s)@ == old(s)@ + tail@,
{
    s.append(tail);
}

/// An owned copy of `s` (std `str::to_owned`).
pub fn owned(s: &str) -> (t: String)
    ensures
        t@ == s@,
{
    s.to_owned()
}

/// Whether `a` and `b` hold the same characters.
pub fn str_eq(a: &str, b: &str) -> (same: bool)
    ensures
        same == (a@ == b@),
{
    let x = chars_of(a);
    let y = chars_of(b);
    if x.len() != y.len() {
        return false;
    }
    let mut i: usize = 0;
    while i < x.len()
        invariant
            x@ == a@,
            y@ == b@,
            x.len() == y.len(),
            i <= x.len(),
            forall|k: int| 0 <= k < i ==> x@[k] == y@[k],
        decreases x.len() - i,
    {
        if x[i] != y[i] {
            return false;
        }
        i = i + 1;
    }
    assert(x@ =~= y@);
    true
}

/// `items` written one after another with `sep` between neighbours.
pub open spec fn joined(items: Seq<Seq<char>>, sep: Seq<char>) -> Seq<char>
    decreases items.len(),
{
    if items.len() == 0 {
        Seq::empty()
    } else if items.len() == 1 {
        items[0]
    } else {
        joined(items.drop_last(), sep) + sep + items.last()
    }
}

/// The strings of `items` joined by `sep` (std `[String]::join`).
pub fn join(items: &[String], sep: &str) -> (text: String)
    ensures
        text@ == joined(items@.map_values(|item: String| item@), sep@),
{
    let ghost views = items@.map_values(|item: String| item@);
    let mut text = String::new();
    let mut i: usize = 0;
    while i < items.len()
        invariant
            i <= items.len(),
            views == items@.map_values(|item: String| item@),
            text@ == joined(views.take(i as int), sep@),
        decreases items.len() - i,
    {
        if i > 0 {
            push_str(&mut text, sep);
        }
        push_str(&mut text, items[i].as_str());
        proof {
            let next = views.take(i + 1);
            assert(next.drop_last() =~= views.take(i as int));
            assert(next.last() == items@[i as int]@);
            if i == 0 {
                assert(views.take(0) =~= Seq::<Seq<char>>::empty());
                assert(text@ =~= next[0]);
            }
        }
        i = i + 1;
    }
    assert(views.take(items@.len() as int) =~= views);
    text
}

/// The character views of some strings.
pub open spec fn string_views(items: Seq<String>) -> Seq<Seq<char>> {
    items.map_values(|item: String| item@)
}

/// Whether one of `items` holds the characters of `x`.
pub fn contains_string(items: &[String], x: &str) -> (found: bool)
    ensures
        found == string_views(items@).contains(x@),
{
    let mut i: usize = 0;
    while i < items.len()
        invariant
            i <= items.len(),
            forall|k: int| 0 <= k < i ==> items@[k]@ != x@,
        decreases items.len() - i,
    {
        if str_eq(items[i].as_str(), x) {
            assert(string_views(items@)[i as int] == x@);
            return true;
        }
        i = i + 1;
    }
    proof {
        if string_views(items@).contains(x@) {
            let k = choose|k: int| 0 <= k < items@.len() && string_views(items@)[k] == x@;
            assert(items@[k]@ == x@);
        }
    }
    false
}

/// `needle` occurs in `haystack` at position `at`.
pub open spec fn occurs_at(haystack: Seq<char>, needle: Seq<char>, at: int) -> bool {
    0 <= at && at + needle.len() <= haystack.len() && haystack.subrange(at, at + needle.len())
        == needle
}

/// `needle` occurs somewhere in `haystack`.
pub open spec fn contains_seq(haystack: Seq<char>, needle: Seq<char>) -> bool {
    exists|at: int| #[trigger] occurs_at(haystack, needle, at)
}

/// Whether `needle` occurs in `haystack` (std `str::contains`).
pub fn contains_text(haystack: &str, needle: &str) -> (found: bool)
    ensures
        found == contains_seq(haystack@, needle@),
{
    let h = chars_of(haystack);
    let n = chars_of(needle);
    if n.len() > h.len() {
        proof {
            assert forall|at: int| !occurs_at(haystack@, needle@, at) by {}
        }
        return false;
    }
    let limit = h.len() - n.len();
    let mut at: usize = 0;
    while at <= limit
        invariant
            h@ == haystack@,
            n@ == needle@,
            limit == h.len() - n.len(),
            at <= limit + 1,
            forall|k: int| 0 <= k < at ==> !occurs_at(haystack@, needle@, k),
        decreases limit + 1 - at,
    {
        let mut j: usize = 0;
        while j < n.len() && h[at + j] == n[j]
            invariant
                h@ == haystack@,
                n@ == needle@,
                at <= limit,
                limit == h.len() - n.len(),
                j <= n.len(),
                forall|k: int| 0 <= k < j ==> h@[at + k] == n@[k],
            decreases n.len() - j,
        {
            j = j + 1;
        }
        if j == n.len() {
            assert(haystack@.subrange(at as int, at + needle@.len()) =~= needle@);
            assert(occurs_at(haystack@, needle@, at as int));
            return true;
        }
        proof {
            assert(h@[at + j] != n@[j as int]);
            assert(haystack@.subrange(at as int, at + needle@.len())[j as int] == h@[at + j]);
        }
        at = at + 1;
    }
    proof {
        assert forall|k: int| !occurs_at(haystack@, needle@, k) by {
            if k >= at {
                assert(k + needle@.len() > haystack@.len());
            }
        }
    }
    false
}

/// Decimal representation of a signed integer: a minus sign before the
/// digits of a negative one.
pub open spec fn signed_decimal(v: int) -> Seq<char> {
    if v < 0 {
        seq!['-'] + crate::thousands::decimal((-v) as nat)
    } else {
        crate::thousands::decimal(v as nat)
    }
}

/// The decimal text of `value` (std `isize::to_string`).
pub fn isize_text(value: isize) -> (text: String)
    ensures
        text@ == signed_decimal(value as int),
{
    if value < 0 {
        let magnitude: u64 = ((-(value + 1)) as u64) + 1;
        let digits = crate::thousands::decimal_text(magnitude);
        let mut text = String::new();
        push_char(&mut text, '-');
        push_str(&mut text, digits.as_str());
        assert(text@ =~= seq!['-'] + digits@);
        text
    } else {
        crate::thousands::decimal_text(value as u64)
    }
}

/// `s` ends with `suffix`.
pub open spec fn ends_with_seq(s: Seq<char>, suffix: Seq<char>) -> bool {
    s.len() >= suffix.len() && s.subrange(s.len() - suffix.len(), s.len() as int) == suffix
}

/// Whether `s` ends with `suffix` (std `str::ends_with`).
pub fn ends_with_text(s: &str, suffix: &str) -> (ends: bool)
    ensures
        ends == ends_with_seq(s@, suffix@),
{
    let x = chars_of(s);
    let y = chars_of(suffix);
    if y.len() > x.len() {
        return false;
    }
    let offset = x.len() - y.len();
    let mut i: usize = 0;
    while i < y.len()
        invariant
            x@ == s@,
            y@ == suffix@,
            offset == x.len() - y.len(),
            i <= y.len(),
            forall|k: int| 0 <= k < i ==> x@[offset + k] == y@[k],
        decreases y.len() - i,
    {
        if x[offset + i] != y[i] {
            assert(s@.subrange(offset as int, s@.len() as int)[i as int] == x@[offset + i]);
            return false;
        }
        i = i + 1;
    }
    assert(s@.subrange(offset as int, s@.len() as int) =~= suffix@);
    true
}

/// The text of `s` in lower case, as std maps Unicode characters to their
/// lower case.
pub uninterp spec fn lowercased(s: Seq<char>) -> Seq<char>;

/// Lower-cases a text (std `str::to_lowercase`). The result is named, as a
/// function of the text, by `lowercased`; the Unicode case mapping itself
/// is not stated.
#[verifier::external_body]
pub(crate) fn to_lowercase(s: &str) -> (lower: String)
    ensures
        lower@ == lowercased(s@),
{
    s.to_lowercase()
}

/// `piece` is a run of consecutive characters of `text`.
pub open spec fn is_piece_of(piece: Seq<char>, text: Seq<char>) -> bool {
    exists|i: int, j: int| 0 <= i <= j <= text.len() && piece == text.subrange(i, j)
}

/// The text of `s` without leading and trailing white space, as std's
/// `char::is_whitespace` decides it.
pub uninterp spec fn trimmed(s: Seq<char>) -> Seq<char>;

/// Removes leading and trailing white space (std `str::trim`, then an owned
/// copy). The result is named, as a function of the text, by `trimmed`, and
/// is a piece of `s`, as std returns a subslice; which characters count as
/// white space (Unicode's `White_Space` property) is not stated.
#[verifier::external_body]
pub(crate) fn trim(s: &str) -> (t: String)
    ensures
        t@ == trimmed(s@),
        is_piece_of(t@, s@),
{
    s.trim().to_owned()
}

/// The pieces of `text` between occurrences of `sep`, as `str::split` with a
/// character cuts it: one more piece than there are separators.
pub open spec fn split_on(text: Seq<char>, sep: char) -> Seq<Seq<char>>
    decreases text.len(),
{
    if text.len() == 0 {
        seq![Seq::empty()]
    } else {
        let pieces = split_on(text.drop_last(), sep);
        if text.last() == sep {
            pieces.push(Seq::empty())
        } else {
            pieces.update(pieces.len() - 1, pieces.last().push(text.last()))
        }
    }
}

proof fn lemma_split_on_nonempty(text: Seq<char>, sep: char)
    ensures
        split_on(text, sep).len() >= 1,
    decreases text.len(),
{
    if text.len() > 0 {
        lemma_split_on_nonempty(text.drop_last(), sep);
    }
}

/// Cuts `text` at each `sep`.
pub fn split_text(text: &str, sep: char) -> (pieces: Vec<String>)
    ensures
        string_views(pieces@) == split_on(text@, sep),
{
    let chars = chars_of(text);
    let mut pieces: Vec<String> = Vec::new();
    let mut current = String::new();
    let mut i: usize = 0;
    assert(text@.take(0) =~= Seq::<char>::empty());
    while i < chars.len()
        invariant
            chars@ == text@,
            i <= chars.len(),
            string_views(pieces@).push(current@) == split_on(text@.take(i as int), sep),
        decreases chars.len() - i,
    {
        let c = chars[i];
        let ghost before = string_views(pieces@).push(current@);
        proof {
            lemma_split_on_nonempty(text@.take(i as int), sep);
            assert(text@.take(i + 1).drop_last() =~= text@.take(i as int));
            assert(text@.take(i + 1).last() == c);
        }
        if c == sep {
            let done = current;
            pieces.push(done);
            current = String::new();
            assert(string_views(pieces@).push(current@) =~= before.push(Seq::empty()));
        } else {
            let ghost old_views = string_views(pieces@);
            push_char(&mut current, c);
            assert(string_views(pieces@).push(current@) =~= before.update(
                before.len() - 1,
                before.last().push(c),
            ));
        }
        i = i + 1;
    }
    assert(text@.take(chars.len() as int) =~= text@);
    pieces.push(current);
    pieces
}

} // verus!
