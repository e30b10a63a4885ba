//! The characters of an expression: digits and the four operator
//! characters, told apart by regular expressions.

use regex::Regex;
use vstd::prelude::*;

verus! {

/// Whether `c` is one of the four operator characters.
pub open spec fn is_operator_symbol(c: char) -> bool {
    c == '+' || c == '-' || c == '*' || c == '/'
}

/// The pattern that a digit matches.
pub const DIGIT_PATTERN: &'static str = r"\d";

/// The pattern that an operator character matches.
pub const OPERATOR_PATTERN: &'static str = r"(\+|\-|\/|\*)";

/// Whether the regular expression `pattern` finds a match in the text that
/// consists of the single character `c`, as the `regex` crate decides it.
pub uninterp spec fn regex_char_match(pattern: Seq<char>, c: char) -> bool;

/// Whether `c` is a decimal digit. Within ASCII these are `0` to `9`;
/// beyond it, whatever [`DIGIT_PATTERN`] matches.
pub open spec fn is_digit(c: char) -> bool {
    if c <= '\u{7f}' {
        '0' <= c && c <= '9'
    } else {
        regex_char_match(DIGIT_PATTERN@, c)
    }
}

/// Compiles `pattern` with `regex::Regex::new` and asks `Regex::is_match`
/// whether the one-character text `c` holds a match.
///
/// Taken on trust: the answer depends on the pattern and the character
/// alone; `\d` is the Unicode class of decimal numbers, whose only ASCII
/// members are `0` to `9`; and the alternation of the four escaped
/// operator characters matches a one-character text exactly when the
/// character is one of them. Both patterns compile.
#[verifier::external_body]
pub(crate) fn char_matches(pattern: &str, c: char) -> (found: bool)
    requires
        pattern@ == DIGIT_PATTERN@ || pattern@ == OPERATOR_PATTERN@,
    ensures
        found == regex_char_match(pattern@, c),
        pattern@ == DIGIT_PATTERN@ ==> found == is_digit(c),
        pattern@ == OPERATOR_PATTERN@ ==> found == is_operator_symbol(c),
{
    Regex::new(pattern).unwrap().is_match(&c.to_string())
}

/// Whether `c` may stand in an expression: it is a digit or an operator character.
pub open spec fn recognized(c: char) -> bool {
    is_digit(c) || is_operator_symbol(c)
}

} // verus!
