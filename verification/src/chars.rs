//! The character classes on which the scanner decides.

use vstd::prelude::*;

verus! {

/// The ten punctuation characters that always stand as a token of their own.
pub open spec fn is_special_char(c: char) -> bool {
    c == ';' || c == ',' || c == '{' || c == '}' || c == '(' || c == ')' || c == '<' || c == '>'
        || c == '&' || c == '*'
}

/// Line feed and carriage return.
pub open spec fn is_new_line(c: char) -> bool {
    c == '\n' || c == '\r'
}

/// Space, tab and the two line ends.
pub open spec fn is_white_space(c: char) -> bool {
    c == ' ' || c == '\t' || is_new_line(c)
}

/// Whether every character of `s` is white space.
pub open spec fn all_white_space(s: Seq<char>) -> bool {
    forall|i: int| 0 <= i < s.len() ==> is_white_space(#[trigger] s[i])
}

/// Whether `s` holds no line end.
pub open spec fn no_new_line(s: Seq<char>) -> bool {
    forall|i: int| 0 <= i < s.len() ==> !is_new_line(#[trigger] s[i])
}

pub fn isSpecialChar(c: char) -> (special: bool)
    ensures
        special == is_special_char(c),
{
    c == ';' || c == ',' || c == '{' || c == '}' || c == '(' || c == ')' || c == '<' || c == '>'
        || c == '&' || c == '*'
}

pub fn isNewLine(c: char) -> (new_line: bool)
    ensures
        new_line == is_new_line(c),
{
    c == '\n' || c == '\r'
}

pub fn isWhiteSpace(c: char) -> (white: bool)
    ensures
        white == is_white_space(c),
{
    c == ' ' || c == '\t' || isNewLine(c)
}

} // verus!
