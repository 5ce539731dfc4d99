//! Answers typed at a prompt: what a line read from the terminal means.

use vstd::prelude::*;
use vstd::string::StrSliceExecFns;
use crate::text::{owned, trim, trimmed};

verus! {

/// The answer a prompt takes from the line `input`: the line without
/// surrounding white space, or `default` when that leaves nothing and there
/// is a default.
pub open spec fn answer(input: Seq<char>, default: Option<Seq<char>>) -> Seq<char> {
    match default {
        Some(value) => if trimmed(input).len() == 0 {
            value
        } else {
            trimmed(input)
        },
        None => trimmed(input),
    }
}

/// The answer to a prompt with an optional default value.
pub fn input_or_default(input: &str, default: Option<&str>) -> (value: String)
    ensures
        value@ == answer(
            input@,
            match default {
                Some(d) => Some(d@),
                None => None,
            },
        ),
{
    let trimmed_input = trim(input);
    match default {
        Some(value) => if trimmed_input.as_str().unicode_len() == 0 {
            owned(value)
        } else {
            trimmed_input
        },
        None => trimmed_input,
    }
}

/// The token typed at the token prompt: none for an empty answer.
pub fn token_from_input(input: &str) -> (token: Option<String>)
    ensures
        trimmed(input@).len() == 0 ==> token is None,
        trimmed(input@).len() != 0 ==> (token matches Some(t) && t@ == trimmed(input@)),
{
    let trimmed_input = trim(input);
    if trimmed_input.as_str().unicode_len() == 0 {
        None
    } else {
        Some(trimmed_input)
    }
}

} // verus!
