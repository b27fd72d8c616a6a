//! What the scanner computes, stated over sequences of characters.
//!
//! At top level the scanner looks at the next character and decides what
//! begins there ([`start_mode`]). A token or a comment then runs up to the
//! first later character that ends it ([`ends`], [`first_end`]). One such
//! decision is a [`lex_step`]; [`scan`] repeats it until a token is found or
//! the characters run out, and [`tokens_of`] is the whole token sequence.

use vstd::prelude::*;
use crate::chars::{is_new_line, is_special_char, is_white_space};

verus! {

/// The mode of the scanner.
#[derive(Clone, Copy, Debug, PartialEq, Eq, Structural)]
pub enum TokenReaderState {
    TopLevel,
    Comment,
    Identifier,
    Preprocessor,
    String,
    SpecialChar,
}

/// The mode that the scanner enters at top level when the next character is
/// `c`. White space leaves it at top level.
pub open spec fn start_mode(c: char) -> TokenReaderState {
    if is_white_space(c) {
        TokenReaderState::TopLevel
    } else if is_special_char(c) {
        TokenReaderState::SpecialChar
    } else if c == '#' {
        TokenReaderState::Preprocessor
    } else if c == '"' {
        TokenReaderState::String
    } else if c == '/' {
        TokenReaderState::Comment
    } else {
        TokenReaderState::Identifier
    }
}

/// Whether `c`, read after the first character, ends what the scanner reads
/// in `mode`.
pub open spec fn ends(mode: TokenReaderState, c: char) -> bool {
    match mode {
        TokenReaderState::Preprocessor => is_white_space(c),
        TokenReaderState::String => c == '"' || is_new_line(c),
        TokenReaderState::Comment => is_new_line(c),
        TokenReaderState::Identifier => is_white_space(c) || is_special_char(c),
        TokenReaderState::TopLevel | TokenReaderState::SpecialChar => true,
    }
}

/// The index of the first character of `s`, at or after `from`, that ends
/// `mode`; `s.len()` if there is none.
pub open spec fn first_end(mode: TokenReaderState, s: Seq<char>, from: int) -> int
    recommends
        0 <= from,
    decreases s.len() - from,
{
    if from >= s.len() {
        s.len() as int
    } else if ends(mode, s[from]) {
        from
    } else {
        first_end(mode, s, from + 1)
    }
}

/// What the scanner makes of the characters at the head of its input.
pub enum Step {
    /// White space or a comment was passed over.
    Skip { rest: Seq<char> },
    /// A token was read.
    Token { text: Seq<char>, rest: Seq<char> },
    /// The characters ran out inside a comment or a token.
    End,
}

/// One decision of the scanner at top level, on input `s` that is not empty.
///
/// A white-space character is dropped. A punctuation character is a token.
/// A directive runs up to the next white-space character, which is dropped.
/// A string literal runs up to and including the next quote or line end. A
/// comment runs up to and including the next line end. Anything else runs
/// up to the next white-space or punctuation character, which stays in the
/// input.
pub open spec fn lex_step(s: Seq<char>) -> Step
    recommends
        s.len() > 0,
{
    let mode = start_mode(s[0]);
    let k = first_end(mode, s, 1);
    match mode {
        TokenReaderState::TopLevel => Step::Skip { rest: s.skip(1) },
        TokenReaderState::SpecialChar => Step::Token { text: s.take(1), rest: s.skip(1) },
        _ => if k >= s.len() {
            Step::End
        } else {
            match mode {
                TokenReaderState::Comment => Step::Skip { rest: s.skip(k + 1) },
                TokenReaderState::Preprocessor => Step::Token {
                    text: s.take(k),
                    rest: s.skip(k + 1),
                },
                TokenReaderState::String => Step::Token {
                    text: s.take(k + 1),
                    rest: s.skip(k + 1),
                },
                _ => Step::Token { text: s.take(k), rest: s.skip(k) },
            }
        },
    }
}

/// A scanner as callers see it: its mode, the characters gathered for the
/// token in progress, and the characters still to be read.
pub struct Scanner {
    pub state: TokenReaderState,
    pub buffer: Seq<char>,
    pub remaining: Seq<char>,
}

/// The result of asking for one token: the token, if there is one, and the
/// scanner afterwards.
pub struct Scan {
    pub token: Option<Seq<char>>,
    pub reader: Scanner,
}

/// Asking for one token on input `s`.
///
/// When a token is found the scanner is left in the mode that read it, with
/// an empty buffer. When the characters run out inside a token the token is
/// lost; the scanner stays in that mode with the lost characters in its
/// buffer.
pub open spec fn scan(s: Seq<char>) -> Scan
    decreases s.len(),
    via scan_decreases
{
    if s.len() == 0 {
        Scan {
            token: None,
            reader: Scanner {
                state: TokenReaderState::TopLevel,
                buffer: Seq::empty(),
                remaining: Seq::empty(),
            },
        }
    } else {
        let mode = start_mode(s[0]);
        match lex_step(s) {
            Step::Skip { rest } => scan(rest),
            Step::Token { text, rest } => Scan {
                token: Some(text),
                reader: Scanner { state: mode, buffer: Seq::empty(), remaining: rest },
            },
            Step::End => Scan {
                token: None,
                reader: Scanner {
                    state: mode,
                    buffer: if mode == TokenReaderState::Comment {
                        Seq::empty()
                    } else {
                        s
                    },
                    remaining: Seq::empty(),
                },
            },
        }
    }
}

#[via_fn]
proof fn scan_decreases(s: Seq<char>) {
    if s.len() > 0 {
        lemma_first_end(start_mode(s[0]), s, 1);
    }
}

/// All the tokens of `s`, in order.
pub open spec fn tokens_of(s: Seq<char>) -> Seq<Seq<char>>
    decreases s.len(),
    via tokens_of_decreases
{
    match scan(s).token {
        Some(text) => seq![text] + tokens_of(scan(s).reader.remaining),
        None => Seq::empty(),
    }
}

#[via_fn]
proof fn tokens_of_decreases(s: Seq<char>) {
    lemma_scan_consumes(s);
}

/// Whether the scanner, set at top level on `s`, comes to stand at top level
/// again with exactly `rest` left to read: after some number of the tokens,
/// comments and white-space characters of `s`, and before whatever begins
/// `rest`.
pub open spec fn stands_before(s: Seq<char>, rest: Seq<char>) -> bool
    decreases s.len(),
    via stands_before_decreases
{
    s == rest || (s.len() > 0 && match lex_step(s) {
        Step::Skip { rest: left } => stands_before(left, rest),
        Step::Token { text, rest: left } => stands_before(left, rest),
        Step::End => false,
    })
}

#[via_fn]
proof fn stands_before_decreases(s: Seq<char>, rest: Seq<char>) {
    if s.len() > 0 {
        lemma_step_consumes(s);
    }
}

/// `first_end` lies between `from` and the end of `s`, no character before
/// it ends `mode`, and the character at it does.
pub proof fn lemma_first_end(mode: TokenReaderState, s: Seq<char>, from: int)
    requires
        0 <= from <= s.len(),
    ensures
        from <= first_end(mode, s, from) <= s.len(),
        forall|i: int| from <= i < first_end(mode, s, from) ==> !ends(mode, #[trigger] s[i]),
        first_end(mode, s, from) < s.len() ==> ends(mode, s[first_end(mode, s, from)]),
    decreases s.len() - from,
{
    if from < s.len() && !ends(mode, s[from]) {
        lemma_first_end(mode, s, from + 1);
    }
}

/// The index `k` is `first_end` when no character from `from` up to `k` ends
/// `mode` and the character at `k`, if there is one, does.
pub proof fn lemma_first_end_is(mode: TokenReaderState, s: Seq<char>, from: int, k: int)
    requires
        0 <= from <= k <= s.len(),
        forall|i: int| from <= i < k ==> !ends(mode, #[trigger] s[i]),
        k < s.len() ==> ends(mode, s[k]),
    ensures
        first_end(mode, s, from) == k,
    decreases k - from,
{
    if from < k {
        lemma_first_end_is(mode, s, from + 1, k);
    }
}

/// A step that does not end leaves fewer characters than it was given, and
/// a token is never empty.
pub proof fn lemma_step_consumes(s: Seq<char>)
    requires
        s.len() > 0,
    ensures
        match lex_step(s) {
            Step::Skip { rest } => rest.len() < s.len(),
            Step::Token { text, rest } => rest.len() < s.len() && text.len() > 0,
            Step::End => true,
        },
{
    lemma_first_end(start_mode(s[0]), s, 1);
}

/// A scan that yields a token leaves fewer characters than it was given, and
/// one that yields none leaves no character.
pub proof fn lemma_scan_consumes(s: Seq<char>)
    ensures
        scan(s).token is Some ==> scan(s).reader.remaining.len() < s.len(),
        scan(s).token is None ==> scan(s).reader.remaining.len() == 0,
    decreases s.len(),
{
    if s.len() > 0 {
        lemma_step_consumes(s);
        match lex_step(s) {
            Step::Skip { rest } => lemma_scan_consumes(rest),
            _ => {},
        }
    }
}

} // verus!
