use crate::text::{lowercase_of, same_text, trim, trimmed};
use vstd::prelude::*;
use vstd::string::StrSliceExecFns;

verus! {

/// Whether a lowercase answer says yes.
pub open spec fn says_yes(lower: Seq<char>) -> bool {
    lower == "y"@ || lower == "yes"@
}

/// Whether a lowercase input ends the session: it is empty or asks to quit.
pub open spec fn says_quit(input: Seq<char>, lower: Seq<char>) -> bool {
    lower == "q"@ || input.len() == 0
}

/// Tells whether a lowercase answer says yes.
pub fn is_yes(lower: &str) -> (b: bool)
    ensures
        b == says_yes(lower@),
{
    same_text(lower, "y") || same_text(lower, "yes")
}

/// Tells whether `answer` asks for another search: trimmed and in lowercase it says yes.
pub fn wants_another_search(answer: &str) -> (b: bool)
    ensures
        b == says_yes(lowercase_of(trimmed(answer@))),
{
    let lower = trim(answer).to_lowercase();
    is_yes(lower.as_str())
}

/// Tells whether `input`, whose lowercase form is `lower`, ends the session.
pub fn is_quit(input: &str, lower: &str) -> (b: bool)
    ensures
        b == says_quit(input@, lower@),
{
    same_text(lower, "q") || input.unicode_len() == 0
}

/// Tells whether `input` ends the session: it is empty, or in lowercase it asks to quit.
pub fn ends_session(input: &str) -> (b: bool)
    ensures
        b == says_quit(input@, lowercase_of(input@)),
{
    let lower = input.to_lowercase();
    is_quit(input, lower.as_str())
}

} // verus!
