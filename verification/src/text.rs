//! Joining pieces of text.

use vstd::prelude::*;

verus! {

/// `format!` with two plain places: the first text followed by the second.
#[verifier::external_body]
pub(crate) fn concat(a: &str, b: &str) -> (s: String)
    ensures
        s@ == a@ + b@,
{
    format!("{a}{b}")
}

/// The message that two things which should be equal are not, with the text
/// of each.
pub open spec fn mismatch_text(
    left: Seq<char>,
    right: Seq<char>,
    left_value: Seq<char>,
    right_value: Seq<char>,
) -> Seq<char> {
    left + " != "@ + right + "\n"@ + left + " = "@ + left_value + "\n"@ + right + " = "@
        + right_value
}

/// The message for a mismatch: the two names with `!=` between them, then
/// each name with its value, on three lines.
pub(crate) fn mismatch(left: &str, right: &str, left_value: &str, right_value: &str) -> (s: String)
    ensures
        s@ == mismatch_text(left@, right@, left_value@, right_value@),
{
    let s = concat(left, " != ");
    let s = concat(s.as_str(), right);
    let s = concat(s.as_str(), "\n");
    let s = concat(s.as_str(), left);
    let s = concat(s.as_str(), " = ");
    let s = concat(s.as_str(), left_value);
    let s = concat(s.as_str(), "\n");
    let s = concat(s.as_str(), right);
    let s = concat(s.as_str(), " = ");
    concat(s.as_str(), right_value)
}

/// The text of a size in decimal digits.
pub uninterp spec fn decimal_text(n: int) -> Seq<char>;

/// `ToString::to_string` of a `usize`: its decimal digits.
#[verifier::external_body]
pub(crate) fn decimal(n: usize) -> (s: String)
    ensures
        s@ == decimal_text(n as int),
{
    n.to_string()
}

} // verus!
