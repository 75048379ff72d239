use regex::Regex;
use vstd::prelude::*;

verus! {

/// An ASCII letter.
pub open spec fn is_letter(c: char) -> bool {
    ('a' <= c && c <= 'z') || ('A' <= c && c <= 'Z')
}

/// A character that may follow the first one of a placeholder name.
pub open spec fn is_name_char(c: char) -> bool {
    is_letter(c) || ('0' <= c && c <= '9') || c == '_'
}

/// The rule for placeholder names: a letter, then letters, digits and underscores.
pub open spec fn is_identifier(name: Seq<char>) -> bool {
    &&& name.len() > 0
    &&& is_letter(name[0])
    &&& forall|i: int| 0 <= i < name.len() ==> is_name_char(#[trigger] name[i])
}

/// The identifier rule in the notation of the `regex` crate.
pub open spec fn identifier_pattern() -> Seq<char> {
    "^[a-zA-Z][a-zA-Z0-9_]*$"@
}

/// Compiles `pattern` with `regex::Regex::new` and searches `name` with
/// `Regex::is_match`. Only the identifier pattern is admitted. It is anchored at
/// both ends, so a match covers all of `name`: one character of the class
/// `[a-zA-Z]`, then any number of the class `[a-zA-Z0-9_]`. The contract claims
/// that the search succeeds on exactly those names.
#[verifier::external_body]
fn matches_pattern(pattern: &str, name: &str) -> (found: bool)
    requires
        pattern@ == identifier_pattern(),
    ensures
        found == is_identifier(name@),
{
    Regex::new(pattern).unwrap().is_match(name)
}

/// Whether `name` may stand as a placeholder name in a template.
pub fn check_identifier(name: &str) -> (valid: bool)
    ensures
        valid == is_identifier(name@),
{
    matches_pattern("^[a-zA-Z][a-zA-Z0-9_]*$", name)
}

} // verus!
