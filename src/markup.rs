//! Escaping for the chat service's MarkdownV2 text.
use vstd::prelude::*;

verus! {

/// The characters that MarkdownV2 reserves.
pub open spec fn is_reserved(c: char) -> bool {
    c == '_' || c == '*' || c == '[' || c == ']' || c == '(' || c == ')' || c == '~' || c == '`'
        || c == '>' || c == '#' || c == '+' || c == '-' || c == '=' || c == '|' || c == '{'
        || c == '}' || c == '.' || c == '!'
}

/// `s` with a backslash put before each reserved character.
pub open spec fn escape_md(s: Seq<char>) -> Seq<char>
    decreases s.len(),
{
    if s.len() == 0 {
        Seq::empty()
    } else if is_reserved(s.last()) {
        escape_md(s.drop_last()) + seq!['\\', s.last()]
    } else {
        escape_md(s.drop_last()) + seq![s.last()]
    }
}

/// Relies on teloxide::utils::markdown::escape, which replaces each reserved
/// character `c` by `\c` and leaves every other character as it is.
#[verifier::external_body]
pub(crate) fn escape(s: &str) -> (r: String)
    ensures
        r@ == escape_md(s@),
{
    teloxide::utils::markdown::escape(s)
}

} // verus!
