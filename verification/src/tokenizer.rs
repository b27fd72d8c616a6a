//! The scanner: from characters to tokens.

use vstd::prelude::*;
use crate::chars::{isNewLine, isSpecialChar, isWhiteSpace};
use crate::lexis::{first_end, lemma_scan_consumes, scan, start_mode, tokens_of, Scanner};
use crate::text::chars_of;

pub use crate::lexis::TokenReaderState;

verus! {

/// A scanner over the characters of one source text.
///
/// Characters are read from the source one at a time; a character that was
/// read too far can be put back and is read again first. The characters of
/// the token in progress gather in a buffer, which is emptied whenever a mode
/// is entered or a token is handed out.
pub struct TokenReader {
    source: Vec<char>,
    position: usize,
    buffer: String,
    state: TokenReaderState,
    pending: Vec<char>,
}

impl View for TokenReader {
    type V = Scanner;

    closed spec fn view(&self) -> Scanner {
        Scanner {
            state: self.state,
            buffer: self.buffer@,
            remaining: self.pending@.reverse() + self.unread(),
        }
    }
}

impl TokenReader {
    /// The characters of the source that were not read yet.
    spec fn unread(&self) -> Seq<char> {
        if self.position < self.source.len() {
            self.source@.skip(self.position as int)
        } else {
            Seq::empty()
        }
    }

    /// A scanner at the start of `source`, at top level.
    pub fn new(source: &str) -> (reader: TokenReader)
        ensures
            reader@ == (Scanner {
                state: TokenReaderState::TopLevel,
                buffer: Seq::empty(),
                remaining: source@,
            }),
    {
        let reader = TokenReader {
            source: chars_of(source),
            position: 0,
            buffer: String::new(),
            state: TokenReaderState::TopLevel,
            pending: Vec::new(),
        };
        assert(reader@.remaining =~= source@);
        reader
    }

    /// Enters `state` and empties the buffer.
    pub fn setState(&mut self, state: TokenReaderState)
        ensures
            final(self)@ == (Scanner { state, buffer: Seq::empty(), ..old(self)@ }),
    {
        self.buffer = String::new();
        self.state = state;
    }

    /// Takes the next character, if there is one.
    pub fn nextChar(&mut self) -> (next: Option<char>)
        ensures
            match next {
                Some(c) => old(self)@.remaining.len() > 0 && c == old(self)@.remaining[0]
                    && final(self)@ == (Scanner {
                    remaining: old(self)@.remaining.skip(1),
                    ..old(self)@
                }),
                None => old(self)@.remaining.len() == 0 && final(self)@ == old(self)@,
            },
    {
        match self.pending.pop() {
            Some(c) => {
                assert(self@.remaining =~= old(self)@.remaining.skip(1));
                Some(c)
            },
            None => {
                if self.position < self.source.len() {
                    let c = self.source[self.position];
                    self.position += 1;
                    assert(self@.remaining =~= old(self)@.remaining.skip(1));
                    Some(c)
                } else {
                    None
                }
            },
        }
    }

    /// Drops the next character, if there is one.
    pub fn discardNext(&mut self)
        ensures
            final(self)@ == (Scanner {
                remaining: if old(self)@.remaining.len() > 0 {
                    old(self)@.remaining.skip(1)
                } else {
                    old(self)@.remaining
                },
                ..old(self)@
            }),
    {
        let _ = self.nextChar();
    }

    /// Looks at the next character and leaves it to be read again.
    pub fn peekChar(&mut self) -> (next: Option<char>)
        ensures
            final(self)@ == old(self)@,
            match next {
                Some(c) => old(self)@.remaining.len() > 0 && c == old(self)@.remaining[0],
                None => old(self)@.remaining.len() == 0,
            },
    {
        match self.nextChar() {
            Some(c) => {
                self.putBack(c);
                assert(self@.remaining =~= old(self)@.remaining);
                Some(c)
            },
            None => None,
        }
    }

    /// Puts `c` in front of the characters still to be read.
    pub fn putBack(&mut self, c: char)
        ensures
            final(self)@ == (Scanner { remaining: seq![c] + old(self)@.remaining, ..old(self)@ }),
    {
        self.pending.push(c);
        assert(self@.remaining =~= seq![c] + old(self)@.remaining);
    }

    /// Hands out the buffer as a token and leaves the buffer empty.
    pub fn emit(&mut self) -> (token: Option<String>)
        ensures
            token is Some,
            token->0@ == old(self)@.buffer,
            final(self)@ == (Scanner { buffer: Seq::empty(), ..old(self)@ }),
    {
        let mut token = String::new();
        core::mem::swap(&mut self.buffer, &mut token);
        Some(token)
    }

    /// Adds `c` to the end of the buffer.
    pub fn append(&mut self, c: char)
        ensures
            final(self)@ == (Scanner { buffer: old(self)@.buffer.push(c), ..old(self)@ }),
    {
        self.buffer.push(c);
    }

    /// Hands out the buffer with `c` added to it as a token, and leaves the
    /// buffer empty.
    pub fn appendAndEmit(&mut self, c: char) -> (token: Option<String>)
        ensures
            token is Some,
            token->0@ == old(self)@.buffer.push(c),
            final(self)@ == (Scanner { buffer: Seq::empty(), ..old(self)@ }),
    {
        self.append(c);
        self.emit()
    }

    /// Reads the next token.
    ///
    /// The scanner starts at top level, passes over white space and comments,
    /// and reads one token in the mode that its first character selects. When
    /// the characters run out first there is no token, and what was read of
    /// an unfinished token is lost.
    pub fn next(&mut self) -> (token: Option<String>)
        ensures
            final(self)@ == scan(old(self)@.remaining).reader,
            match token {
                Some(text) => scan(old(self)@.remaining).token == Some(text@),
                None => scan(old(self)@.remaining).token is None,
            },
    {
        self.setState(TokenReaderState::TopLevel);

        // `seg` is the input as it was when the scanner last stood at top
        // level, and `n` the number of its characters read since.
        let ghost start = self@.remaining;
        let ghost mut seg = self@.remaining;
        let ghost mut n: int = 0;
        loop
            invariant
                start == old(self)@.remaining,
                scan(seg) == scan(start),
                self@.state == TokenReaderState::TopLevel ==> self@.remaining == seg
                    && self@.buffer.len() == 0,
                self@.state != TokenReaderState::TopLevel ==> {
                    &&& seg.len() > 0
                    &&& start_mode(seg[0]) == self@.state
                    &&& 0 <= n <= seg.len()
                    &&& self@.remaining == seg.skip(n)
                    &&& self@.buffer == if self@.state == TokenReaderState::Comment {
                        Seq::empty()
                    } else {
                        seg.take(n)
                    }
                    &&& first_end(self@.state, seg, 1) == first_end(
                        self@.state,
                        seg,
                        if n < 1 {
                            1
                        } else {
                            n
                        },
                    )
                    &&& self@.state == TokenReaderState::SpecialChar ==> n == 0
                },
            decreases
                    self@.remaining.len(),
                    if self@.state == TokenReaderState::TopLevel {
                        1int
                    } else {
                        0int
                    },
        {
            match self.state {
                TokenReaderState::TopLevel => {
                    match self.peekChar() {
                        Some(c) => {
                            if isWhiteSpace(c) {
                                self.discardNext();
                                proof {
                                    seg = seg.skip(1);
                                }
                            } else {
                                if isSpecialChar(c) {
                                    self.setState(TokenReaderState::SpecialChar);
                                } else if c == '#' {
                                    self.setState(TokenReaderState::Preprocessor);
                                } else if c == '"' {
                                    self.setState(TokenReaderState::String);
                                } else if c == '/' {
                                    self.setState(TokenReaderState::Comment);
                                } else {
                                    self.setState(TokenReaderState::Identifier);
                                }
                                proof {
                                    n = 0;
                                }
                            }
                        },
                        None => {
                            assert(self@.buffer =~= Seq::<char>::empty());
                            return None;
                        },
                    }
                },
                TokenReaderState::Preprocessor => {
                    match self.nextChar() {
                        Some(c) => {
                            if isWhiteSpace(c) {
                                assert(self@.remaining =~= seg.skip(n + 1));
                                return self.emit();
                            } else {
                                self.append(c);
                                proof {
                                    n = n + 1;
                                }
                            }
                        },
                        None => {
                            assert(self@.buffer =~= seg);
                            return None;
                        },
                    }
                },
                TokenReaderState::String => {
                    match self.nextChar() {
                        Some(c) => {
                            let opening = self.buffer.as_str().is_empty();
                            self.append(c);
                            assert(self@.remaining =~= seg.skip(n + 1));
                            if (c == '"' && !opening) || isNewLine(c) {
                                return self.emit();
                            }
                            proof {
                                n = n + 1;
                            }
                        },
                        None => {
                            assert(self@.buffer =~= seg);
                            return None;
                        },
                    }
                },
                TokenReaderState::Comment => {
                    match self.nextChar() {
                        Some(c) => {
                            if isNewLine(c) {
                                self.setState(TokenReaderState::TopLevel);
                                proof {
                                    seg = seg.skip(n + 1);
                                }
                            } else {
                                proof {
                                    n = n + 1;
                                }
                            }
                        },
                        None => {
                            return None;
                        },
                    }
                },
                TokenReaderState::Identifier => {
                    match self.nextChar() {
                        Some(c) => {
                            if isWhiteSpace(c) || isSpecialChar(c) {
                                self.putBack(c);
                                assert(self@.remaining =~= seg.skip(n));
                                return self.emit();
                            } else {
                                self.append(c);
                                proof {
                                    n = n + 1;
                                }
                            }
                        },
                        None => {
                            assert(self@.buffer =~= seg);
                            return None;
                        },
                    }
                },
                TokenReaderState::SpecialChar => {
                    let c = self.nextChar().unwrap();
                    assert(self@.remaining =~= seg.skip(1));
                    return self.appendAndEmit(c);
                },
            }
        }
    }
}

/// All the tokens of `source`, in order.
pub fn tokenize(source: &str) -> (tokens: Vec<String>)
    ensures
        tokens.deep_view() == tokens_of(source@),
{
    let mut reader = TokenReader::new(source);
    let mut tokens: Vec<String> = Vec::new();
    loop
        invariant
            tokens.deep_view() + tokens_of(reader@.remaining) == tokens_of(source@),
        decreases reader@.remaining.len(),
    {
        proof {
            lemma_scan_consumes(reader@.remaining);
        }
        match reader.next() {
            Some(token) => {
                tokens.push(token);
            },
            None => {
                return tokens;
            },
        }
    }
}

} // verus!
