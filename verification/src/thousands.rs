//! Decimal formatting of unsigned integers with a comma between every group
//! of three digits, counted from the right.

use vstd::prelude::*;
use crate::text::string_from_chars;

verus! {

/// The character for a decimal digit `d < 10`.
pub open spec fn digit_char(d: nat) -> char {
    if d == 0 { '0' }
    else if d == 1 { '1' }
    else if d == 2 { '2' }
    else if d == 3 { '3' }
    else if d == 4 { '4' }
    else if d == 5 { '5' }
    else if d == 6 { '6' }
    else if d == 7 { '7' }
    else if d == 8 { '8' }
    else { '9' }
}

/// Plain decimal representation of `n`, most significant digit first.
pub open spec fn decimal(n: nat) -> Seq<char>
    decreases n,
{
    if n < 10 {
        seq![digit_char(n)]
    } else {
        decimal(n / 10).push(digit_char(n % 10))
    }
}

/// The three digits of `m < 1000`, zero padded.
pub open spec fn three_digits(m: nat) -> Seq<char> {
    seq![digit_char(m / 100), digit_char((m / 10) % 10), digit_char(m % 10)]
}

/// Decimal representation of `n` with a comma before every complete group of
/// three trailing digits: `1234567` is `1,234,567`.
pub open spec fn grouped(n: nat) -> Seq<char>
    decreases n,
{
    if n < 1000 {
        decimal(n)
    } else {
        grouped(n / 1000) + seq![','] + three_digits(n % 1000)
    }
}

/// The characters of `s` other than commas, in order.
pub open spec fn strip_commas(s: Seq<char>) -> Seq<char>
    decreases s.len(),
{
    if s.len() == 0 {
        s
    } else if s.last() == ',' {
        strip_commas(s.drop_last())
    } else {
        strip_commas(s.drop_last()).push(s.last())
    }
}

/// A `u64` shown with thousands separators.
pub struct Thousands(pub u64);

const DIGITS: [char; 10] = ['0', '1', '2', '3', '4', '5', '6', '7', '8', '9'];

/// What the digit loop still has to produce for the digits of `v`, when
/// `written` digits are already in place to their right.
spec fn pending(v: nat, written: nat) -> Seq<char>
    decreases v,
{
    if v == 0 {
        Seq::empty()
    } else {
        pending(v / 10, written + 1) + seq![digit_char(v % 10)]
            + (if written > 0 && written % 3 == 0 { seq![','] } else { Seq::<char>::empty() })
    }
}

/// Largest value that still fits once `k` digits have been removed from a `u64`.
spec fn digits_left_bound(k: nat) -> nat
    decreases k,
{
    if k == 0 { u64::MAX as nat } else { digits_left_bound((k - 1) as nat) / 10 }
}

proof fn lemma_bound_exhausted(k: nat)
    requires
        k >= 20,
    ensures
        digits_left_bound(k) == 0,
    decreases k,
{
    if k == 20 {
        reveal_with_fuel(digits_left_bound, 21);
        assert(digits_left_bound(20) == 0);
    } else {
        lemma_bound_exhausted((k - 1) as nat);
    }
}

proof fn lemma_pending_period(v: nat, written: nat)
    requires
        written >= 1,
    ensures
        pending(v, written + 3) == pending(v, written),
    decreases v,
{
    if v != 0 {
        lemma_pending_period(v / 10, written + 1);
    }
}

proof fn lemma_pending_period_multiple(v: nat, k: nat)
    requires
        k >= 1,
    ensures
        pending(v, 3 * k + 3) == pending(v, 3),
    decreases k,
{
    if k > 1 {
        lemma_pending_period(v, (3 * (k - 1) + 3) as nat);
        lemma_pending_period_multiple(v, (k - 1) as nat);
    } else {
        lemma_pending_period(v, 3);
    }
}

spec fn comma_if(b: bool) -> Seq<char> {
    if b { seq![','] } else { Seq::<char>::empty() }
}

proof fn lemma_pending_small(v: nat, written: nat)
    requires
        0 < v < 1000,
        written % 3 == 0,
    ensures
        pending(v, written) == decimal(v) + comma_if(written > 0),
{
    let e = Seq::<char>::empty();
    assert(pending(0, written + 1) == e);
    assert(pending(0, written + 2) == e);
    assert(pending(0, written + 3) == e);
    if v < 10 {
        assert(pending(v, written) == e + seq![digit_char(v)] + comma_if(written > 0));
    } else if v < 100 {
        let a = v / 10;
        assert(pending(a, written + 1) == e + seq![digit_char(a)] + e);
        assert(decimal(v) == decimal(a).push(digit_char(v % 10)));
        assert(decimal(v) =~= seq![digit_char(a), digit_char(v % 10)]);
    } else {
        let a = v / 10;
        let b = a / 10;
        assert(b < 10);
        assert(pending(b, written + 2) == e + seq![digit_char(b)] + e);
        assert(pending(a, written + 1) == pending(b, written + 2) + seq![digit_char(a % 10)] + e);
        assert(decimal(a) == decimal(b).push(digit_char(a % 10)));
        assert(decimal(v) == decimal(a).push(digit_char(v % 10)));
        assert(decimal(v) =~= seq![digit_char(b), digit_char(a % 10), digit_char(v % 10)]);
    }
}

proof fn lemma_pending_grouped(v: nat, written: nat)
    requires
        v > 0,
        written % 3 == 0,
    ensures
        pending(v, written) == grouped(v) + comma_if(written > 0),
    decreases v,
{
    if v < 1000 {
        lemma_pending_small(v, written);
    } else {
        let e = Seq::<char>::empty();
        let a = v / 10;
        let b = a / 10;
        let w = b / 10;
        let r = v % 1000;
        assert(w == v / 1000);
        assert(b % 10 == r / 100);
        assert(a % 10 == (r / 10) % 10);
        assert(v % 10 == r % 10);
        assert(pending(b, written + 2) == pending(w, written + 3) + seq![digit_char(b % 10)] + e);
        assert(pending(a, written + 1) == pending(b, written + 2) + seq![digit_char(a % 10)] + e);
        assert(pending(v, written) == pending(a, written + 1) + seq![digit_char(v % 10)]
            + comma_if(written > 0));
        lemma_pending_grouped(w, 3);
        if written > 0 {
            lemma_pending_period_multiple(w, written / 3);
        }
        assert(pending(w, written + 3) == grouped(w) + seq![',']);
        assert(pending(v, written) =~= grouped(w) + seq![','] + three_digits(r) + comma_if(written > 0));
    }
}

proof fn lemma_strip_concat(a: Seq<char>, b: Seq<char>)
    ensures
        strip_commas(a + b) == strip_commas(a) + strip_commas(b),
    decreases b.len(),
{
    if b.len() == 0 {
        assert(a + b =~= a);
        assert(strip_commas(a) + strip_commas(b) =~= strip_commas(a));
    } else {
        assert((a + b).drop_last() =~= a + b.drop_last());
        assert((a + b).last() == b.last());
        lemma_strip_concat(a, b.drop_last());
        if b.last() == ',' {
        } else {
            assert(strip_commas(a) + strip_commas(b) =~= (strip_commas(a) + strip_commas(
                b.drop_last(),
            )).push(b.last()));
        }
    }
}

proof fn lemma_decimal_split(n: nat)
    requires
        n >= 1000,
    ensures
        decimal(n) == decimal(n / 1000) + three_digits(n % 1000),
{
    let a = n / 10;
    let b = a / 10;
    let w = b / 10;
    let r = n % 1000;
    assert(w == n / 1000);
    assert(b % 10 == r / 100);
    assert(a % 10 == (r / 10) % 10);
    assert(n % 10 == r % 10);
    assert(decimal(n) == decimal(a).push(digit_char(n % 10)));
    assert(decimal(a) == decimal(b).push(digit_char(a % 10)));
    assert(decimal(b) == decimal(w).push(digit_char(b % 10)));
    assert(decimal(n) =~= decimal(w) + three_digits(r));
}

proof fn lemma_digits_have_no_commas(s: Seq<char>)
    requires
        forall|i: int| 0 <= i < s.len() ==> s[i] != ',',
    ensures
        strip_commas(s) == s,
    decreases s.len(),
{
    if s.len() > 0 {
        lemma_digits_have_no_commas(s.drop_last());
        assert(s.drop_last().push(s.last()) =~= s);
    }
}

/// Removing the separators from a grouped number gives back its plain
/// decimal digits: the grouping only ever inserts commas.
pub proof fn lemma_grouping_only_adds_commas(n: nat)
    ensures
        strip_commas(grouped(n)) == decimal(n),
    decreases n,
{
    if n < 1000 {
        lemma_decimal_has_no_commas(n);
        lemma_digits_have_no_commas(decimal(n));
    } else {
        let w = n / 1000;
        let r = n % 1000;
        lemma_grouping_only_adds_commas(w);
        lemma_strip_concat(grouped(w) + seq![','], three_digits(r));
        lemma_strip_concat(grouped(w), seq![',']);
        assert(strip_commas(seq![',']) == Seq::<char>::empty()) by {
            let c = seq![','];
            assert(c.drop_last() =~= Seq::<char>::empty());
            assert(c.last() == ',');
            assert(strip_commas(Seq::<char>::empty()) == Seq::<char>::empty());
        }
        lemma_digits_have_no_commas(three_digits(r));
        lemma_decimal_split(n);
        assert(strip_commas(grouped(n)) =~= decimal(w) + three_digits(r));
    }
}

proof fn lemma_decimal_has_no_commas(n: nat)
    ensures
        forall|i: int| 0 <= i < decimal(n).len() ==> decimal(n)[i] != ',',
    decreases n,
{
    if n >= 10 {
        lemma_decimal_has_no_commas(n / 10);
        let d = decimal(n / 10);
        assert(digit_char(n % 10) != ',');
        assert forall|i: int| 0 <= i < decimal(n).len() implies decimal(n)[i] != ',' by {
            if i < d.len() {
                assert(decimal(n)[i] == d[i]);
            }
        }
    } else {
        assert(digit_char(n) != ',');
    }
}

/// Between two commas of a grouped number there are exactly three digits, and
/// the text after the last comma is the last three digits of the number.
pub proof fn lemma_grouping_last_group(n: nat)
    requires
        n >= 1000,
    ensures
        grouped(n).len() >= 4,
        grouped(n)[grouped(n).len() - 4] == ',',
        grouped(n).subrange(grouped(n).len() - 3, grouped(n).len() as int) == three_digits(n % 1000),
        grouped(n).subrange(0, grouped(n).len() - 4) == grouped(n / 1000),
{
    let g = grouped(n / 1000);
    assert(grouped(n) == g + seq![','] + three_digits(n % 1000));
    assert(grouped(n).subrange(grouped(n).len() - 3, grouped(n).len() as int) =~= three_digits(n % 1000));
    assert(grouped(n).subrange(0, grouped(n).len() - 4) =~= g);
}

impl Thousands {
    /// The number written in decimal with a comma between groups of three
    /// digits, e.g. `1,000` or `18,446,744,073,709,551,615`; zero is `0`.
    pub fn format(&self) -> (s: String)
        ensures
            s@ == grouped(self.0 as nat),
    {
        let mut value = self.0;
        if value == 0 {
            let s = string_from_chars(&['0']);
            assert(grouped(0) == seq!['0']);
            return s;
        }
        // Characters in right-to-left order; `produced` is the same text left to right.
        let mut reversed: Vec<char> = Vec::new();
        let ghost mut produced: Seq<char> = Seq::empty();
        let mut num_digits: usize = 0;
        proof {
            lemma_pending_grouped(self.0 as nat, 0);
        }
        while value > 0
            invariant
                pending(self.0 as nat, 0) == pending(value as nat, num_digits as nat) + produced,
                value as nat <= digits_left_bound(num_digits as nat),
                reversed@.len() == produced.len(),
                forall|i: int| 0 <= i < produced.len()
                    ==> #[trigger] reversed@[i] == produced[produced.len() - 1 - i],
            decreases value,
        {
            if num_digits >= 20 {
                proof {
                    lemma_bound_exhausted(num_digits as nat);
                }
            }
            let ghost old_produced = produced;
            let ghost old_value = value as nat;
            let ghost old_digits = num_digits as nat;
            let comma = num_digits > 0 && num_digits % 3 == 0;
            if comma {
                reversed.push(',');
            }
            let (digit, quotient) = (value % 10, value / 10);
            reversed.push(DIGITS[digit as usize]);
            proof {
                assert(DIGITS@[digit as int] == digit_char(digit as nat)) by {
                    assert(DIGITS@ == seq!['0', '1', '2', '3', '4', '5', '6', '7', '8', '9']);
                }
                produced = seq![digit_char(old_value % 10)] + comma_if(comma) + old_produced;
                assert(pending(old_value, old_digits) == pending(old_value / 10, old_digits + 1)
                    + seq![digit_char(old_value % 10)] + comma_if(comma));
                assert(pending(self.0 as nat, 0) =~= pending(old_value / 10, old_digits + 1) + produced);
                assert forall|i: int| 0 <= i < produced.len()
                    implies #[trigger] reversed@[i] == produced[produced.len() - 1 - i] by {
                    if i < old_produced.len() {
                        assert(reversed@[i] == old_produced[old_produced.len() - 1 - i]);
                    }
                }
            }
            num_digits += 1;
            value = quotient;
        }
        assert(pending(0, num_digits as nat) == Seq::<char>::empty());
        assert(produced =~= grouped(self.0 as nat));
        let mut s = String::new();
        let mut j = reversed.len();
        while j > 0
            invariant
                j <= reversed@.len(),
                reversed@.len() == produced.len(),
                forall|i: int| 0 <= i < produced.len()
                    ==> #[trigger] reversed@[i] == produced[produced.len() - 1 - i],
                s@ == produced.subrange(0, produced.len() - j),
            decreases j,
        {
            j -= 1;
            crate::text::push_char(&mut s, reversed[j]);
            assert(produced.subrange(0, produced.len() - j) =~= produced.subrange(
                0,
                produced.len() - j - 1,
            ).push(produced[produced.len() - 1 - j]));
        }
        assert(produced.subrange(0, produced.len() as int) =~= produced);
        s
    }
}

/// The decimal digits of `n`, most significant first, without separators
/// (std `u64::to_string`).
pub fn decimal_text(n: u64) -> (text: String)
    ensures
        text@ == decimal(n as nat),
{
    let mut reversed: Vec<char> = Vec::new();
    let mut value = n;
    let ghost mut produced: Seq<char> = Seq::empty();
    while value >= 10
        invariant
            decimal(n as nat) == decimal(value as nat) + produced,
            reversed@.len() == produced.len(),
            forall|i: int| 0 <= i < produced.len()
                ==> #[trigger] reversed@[i] == produced[produced.len() - 1 - i],
        decreases value,
    {
        let digit = value % 10;
        let ghost old_produced = produced;
        reversed.push(DIGITS[digit as usize]);
        proof {
            assert(DIGITS@ == seq!['0', '1', '2', '3', '4', '5', '6', '7', '8', '9']);
            assert(DIGITS@[digit as int] == digit_char(digit as nat));
            produced = seq![digit_char(digit as nat)] + old_produced;
            assert(decimal(value as nat) == decimal((value / 10) as nat).push(digit_char(
                (value % 10) as nat,
            )));
            assert(decimal(n as nat) =~= decimal((value / 10) as nat) + produced);
            assert forall|i: int| 0 <= i < produced.len()
                implies #[trigger] reversed@[i] == produced[produced.len() - 1 - i] by {
                if i < old_produced.len() {
                    assert(reversed@[i] == old_produced[old_produced.len() - 1 - i]);
                }
            }
        }
        value = value / 10;
    }
    let ghost before_last = produced;
    reversed.push(DIGITS[value as usize]);
    proof {
        assert(DIGITS@ == seq!['0', '1', '2', '3', '4', '5', '6', '7', '8', '9']);
        produced = seq![digit_char(value as nat)] + before_last;
        assert(decimal(value as nat) == seq![digit_char(value as nat)]);
        assert(decimal(n as nat) =~= produced);
        assert forall|i: int| 0 <= i < produced.len()
            implies #[trigger] reversed@[i] == produced[produced.len() - 1 - i] by {
            if i < before_last.len() {
                assert(reversed@[i] == before_last[before_last.len() - 1 - i]);
            }
        }
    }
    let mut text = String::new();
    let mut j = reversed.len();
    while j > 0
        invariant
            j <= reversed@.len(),
            reversed@.len() == produced.len(),
            forall|i: int| 0 <= i < produced.len()
                ==> #[trigger] reversed@[i] == produced[produced.len() - 1 - i],
            text@ == produced.subrange(0, produced.len() - j),
        decreases j,
    {
        j -= 1;
        crate::text::push_char(&mut text, reversed[j]);
        assert(produced.subrange(0, produced.len() - j) =~= produced.subrange(
            0,
            produced.len() - j - 1,
        ).push(produced[produced.len() - 1 - j]));
    }
    assert(produced.subrange(0, produced.len() as int) =~= produced);
    text
}

/// The decimal digits of a number are neither dots nor slashes.
pub proof fn lemma_decimal_has_no_separators(n: nat)
    ensures
        forall|i: int| 0 <= i < decimal(n).len() ==> decimal(n)[i] != '.' && decimal(n)[i] != '/',
    decreases n,
{
    if n >= 10 {
        lemma_decimal_has_no_separators(n / 10);
        let d = decimal(n / 10);
        assert forall|i: int| 0 <= i < decimal(n).len() implies decimal(n)[i] != '.'
            && decimal(n)[i] != '/' by {
            if i < d.len() {
                assert(decimal(n)[i] == d[i]);
            }
        }
    }
}

proof fn lemma_decimal_len(n: nat)
    ensures
        decimal(n).len() >= 1,
        n >= 10 ==> decimal(n).len() >= 2,
    decreases n,
{
    if n >= 10 {
        lemma_decimal_len(n / 10);
    }
}

/// Distinct numbers have distinct decimal representations.
pub proof fn lemma_decimal_injective(a: nat, b: nat)
    requires
        decimal(a) == decimal(b),
    ensures
        a == b,
    decreases a,
{
    lemma_decimal_len(a);
    lemma_decimal_len(b);
    if a >= 10 && b >= 10 {
        assert(decimal(a).drop_last() =~= decimal(a / 10));
        assert(decimal(b).drop_last() =~= decimal(b / 10));
        lemma_decimal_injective(a / 10, b / 10);
        assert(digit_char(a % 10) == decimal(a).last());
        assert(digit_char(b % 10) == decimal(b).last());
    } else if a < 10 && b < 10 {
        assert(decimal(a)[0] == digit_char(a));
        assert(decimal(b)[0] == digit_char(b));
    }
}

} // verus!
