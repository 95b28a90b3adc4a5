//! The header filter of the FFI bindings: only headers of the MicroPython
//! core are turned into bindings.

use vstd::prelude::*;

verus! {

/// The characters that have a meaning in a regular expression
/// (`regex_syntax::is_meta_character`).
pub open spec fn is_meta_character(c: char) -> bool {
    c == '\\' || c == '.' || c == '+' || c == '*' || c == '?' || c == '(' || c == ')' || c == '|'
        || c == '[' || c == ']' || c == '{' || c == '}' || c == '^' || c == '$' || c == '#' || c
        == '&' || c == '-' || c == '~'
}

/// A text with a backslash put before each of its metacharacters.
pub open spec fn regex_escaped(text: Seq<char>) -> Seq<char>
    decreases text.len(),
{
    if text.len() == 0 {
        seq![]
    } else {
        (if is_meta_character(text[0]) {
            seq!['\\', text[0]]
        } else {
            seq![text[0]]
        }) + regex_escaped(text.drop_first())
    }
}

/// `regex::escape`: the text with a backslash put before each regular
/// expression metacharacter.
#[verifier::external_body]
fn regex_escape(text: &str) -> (escaped: String)
    ensures
        escaped@ == regex_escaped(text@),
{
    regex::escape(text)
}

/// The allowlist pattern for the headers directly in `py_dir`.
pub fn header_allowlist(py_dir: &str) -> (pattern: String)
    ensures
        pattern@ == regex_escaped(py_dir@) + "/.*\\.h"@,
{
    let mut pattern = regex_escape(py_dir);
    pattern.append("/.*\\.h");
    pattern
}

} // verus!
