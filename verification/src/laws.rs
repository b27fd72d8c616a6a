//! What holds of the scanner and the grammar whatever the source text is.

use vstd::prelude::*;
use crate::chars::{all_white_space, is_new_line, is_special_char, is_white_space, no_new_line};
use crate::grammar::{
    declaration_rule, in_range, lemma_declaration_advances, outline_of, reports, scope_rule,
};
use crate::lexis::{
    ends, first_end, lemma_first_end, lemma_first_end_is, lemma_step_consumes, lex_step, scan,
    stands_before, start_mode, tokens_of, Step, TokenReaderState,
};
use crate::parser::Outline;

verus! {

/// The tokens of `s` are those of its first step followed by those of what
/// the step leaves.
proof fn lemma_tokens_by_step(s: Seq<char>)
    requires
        s.len() > 0,
    ensures
        tokens_of(s) == match lex_step(s) {
            Step::Skip { rest } => tokens_of(rest),
            Step::Token { text, rest } => seq![text] + tokens_of(rest),
            Step::End => Seq::empty(),
        },
{
}

/// White space at the head of the input is passed over.
proof fn lemma_leading_white_space(gap: Seq<char>, after: Seq<char>)
    requires
        all_white_space(gap),
    ensures
        tokens_of(gap + after) == tokens_of(after),
    decreases gap.len(),
{
    if gap.len() > 0 {
        let s = gap + after;
        assert(s.skip(1) =~= gap.skip(1) + after);
        lemma_tokens_by_step(s);
        lemma_leading_white_space(gap.skip(1), after);
    }
}

/// Where the scanner can come to stand is a suffix of its input.
proof fn lemma_stands_before_suffix(s: Seq<char>, rest: Seq<char>)
    requires
        stands_before(s, rest),
    ensures
        rest.len() <= s.len(),
        rest == s.skip(s.len() - rest.len()),
    decreases s.len(),
{
    if s != rest {
        lemma_step_consumes(s);
        lemma_first_end(start_mode(s[0]), s, 1);
        let left = match lex_step(s) {
            Step::Skip { rest: left } => left,
            Step::Token { text, rest: left } => left,
            Step::End => s,
        };
        lemma_stands_before_suffix(left, rest);
    }
}

/// A step over the head of `before + x` that stays within `before` is the
/// same step over `before + y`, if `y` begins with a character that ends an
/// identifier whenever `x` does.
proof fn lemma_step_is_local(before: Seq<char>, x: Seq<char>, y: Seq<char>, taken: int)
    requires
        1 <= taken <= before.len(),
        x.len() > 0 && ends(TokenReaderState::Identifier, x[0]) ==> y.len() > 0 && ends(
            TokenReaderState::Identifier,
            y[0],
        ),
        match lex_step(before + x) {
            Step::Skip { rest } => rest == before.skip(taken) + x,
            Step::Token { text, rest } => rest == before.skip(taken) + x,
            Step::End => false,
        },
    ensures
        match lex_step(before + x) {
            Step::Skip { rest } => lex_step(before + y) == (Step::Skip {
                rest: before.skip(taken) + y,
            }),
            Step::Token { text, rest } => lex_step(before + y) == (Step::Token {
                text,
                rest: before.skip(taken) + y,
            }),
            Step::End => false,
        },
{
    let s = before + x;
    let t = before + y;
    let mode = start_mode(s[0]);
    let k = first_end(mode, s, 1);
    assert(forall|i: int| 0 <= i < before.len() ==> s[i] == t[i]);
    lemma_first_end(mode, s, 1);
    assert((before.skip(taken) + x).len() == s.len() - taken);
    match mode {
        TokenReaderState::TopLevel => {
            assert(t.skip(1) =~= before.skip(1) + y);
        },
        TokenReaderState::SpecialChar => {
            assert(t.skip(1) =~= before.skip(1) + y);
            assert(t.take(1) =~= s.take(1));
        },
        TokenReaderState::Identifier => {
            lemma_first_end_is(mode, t, 1, k);
            assert(t.take(k) =~= s.take(k));
            assert(t.skip(k) =~= before.skip(k) + y);
        },
        _ => {
            lemma_first_end_is(mode, t, 1, k);
            assert(t.take(k) =~= s.take(k));
            assert(t.take(k + 1) =~= s.take(k + 1));
            assert(t.skip(k + 1) =~= before.skip(k + 1) + y);
        },
    }
}

/// The part of `before` that the first step over `before + x` leaves, where
/// the scanner comes to stand before `x` and `before` is not empty.
proof fn lemma_first_step_stays_before(before: Seq<char>, x: Seq<char>) -> (taken: int)
    requires
        before.len() > 0,
        stands_before(before + x, x),
    ensures
        1 <= taken <= before.len(),
        stands_before(before.skip(taken) + x, x),
        match lex_step(before + x) {
            Step::Skip { rest } => rest == before.skip(taken) + x,
            Step::Token { text, rest } => rest == before.skip(taken) + x,
            Step::End => false,
        },
{
    let s = before + x;
    lemma_step_consumes(s);
    lemma_first_end(start_mode(s[0]), s, 1);
    let left = match lex_step(s) {
        Step::Skip { rest: left } => left,
        Step::Token { text, rest: left } => left,
        Step::End => s,
    };
    lemma_stands_before_suffix(left, x);
    let taken = s.len() - left.len();
    assert(left =~= before.skip(taken) + x);
    taken
}

/// White space alone has no tokens.
pub proof fn lemma_white_space_has_no_tokens(s: Seq<char>)
    requires
        all_white_space(s),
    ensures
        tokens_of(s) == Seq::<Seq<char>>::empty(),
{
    lemma_leading_white_space(s, Seq::empty());
}

/// A punctuation character alone is one token, which is that character.
pub proof fn lemma_punctuation_is_one_token(c: char)
    requires
        is_special_char(c),
    ensures
        tokens_of(seq![c]) == seq![seq![c]],
{
    let s = seq![c];
    assert(s.take(1) =~= s);
    lemma_tokens_by_step(s);
}

/// A directive is cut at the first white-space character after its `#`,
/// and that character is dropped: the tokens of `#`, any characters but
/// white space, one white-space character and then `rest` are the directive
/// followed by the tokens of `rest`.
pub proof fn lemma_directive_ends_at_white_space(word: Seq<char>, gap: char, rest: Seq<char>)
    requires
        forall|i: int| 0 <= i < word.len() ==> !is_white_space(#[trigger] word[i]),
        is_white_space(gap),
    ensures
        tokens_of(seq!['#'] + word + seq![gap] + rest) == seq![seq!['#'] + word] + tokens_of(rest),
{
    let s = seq!['#'] + word + seq![gap] + rest;
    let k = (word.len() + 1) as int;
    lemma_first_end_is(TokenReaderState::Preprocessor, s, 1, k);
    assert(s.take(k) =~= seq!['#'] + word);
    assert(s.skip(k + 1) =~= rest);
    lemma_tokens_by_step(s);
}

/// A quoted string is one token, which holds both quotes: the tokens of a
/// quote, any characters but a quote or a line end, a quote and then `rest`
/// are all of that up to the second quote, followed by the tokens of `rest`.
pub proof fn lemma_quoted_string_is_one_token(body: Seq<char>, rest: Seq<char>)
    requires
        forall|i: int| 0 <= i < body.len() ==> #[trigger] body[i] != '"' && !is_new_line(body[i]),
    ensures
        tokens_of(seq!['"'] + body + seq!['"'] + rest) == seq![seq!['"'] + body + seq!['"']]
            + tokens_of(rest),
{
    let s = seq!['"'] + body + seq!['"'] + rest;
    let k = (body.len() + 1) as int;
    lemma_first_end_is(TokenReaderState::String, s, 1, k);
    assert(s.take(k + 1) =~= seq!['"'] + body + seq!['"']);
    assert(s.skip(k + 1) =~= rest);
    lemma_tokens_by_step(s);
}

/// A comment has no tokens, and the scanner goes on right after the line
/// end that closes it: the tokens of `/`, any characters but a line end, a
/// line end and then `rest` are those of `rest`.
pub proof fn lemma_comment_has_no_tokens(body: Seq<char>, end: char, rest: Seq<char>)
    requires
        no_new_line(body),
        is_new_line(end),
    ensures
        scan(seq!['/'] + body + seq![end] + rest) == scan(rest),
        tokens_of(seq!['/'] + body + seq![end] + rest) == tokens_of(rest),
{
    let s = seq!['/'] + body + seq![end] + rest;
    let k = (body.len() + 1) as int;
    lemma_first_end_is(TokenReaderState::Comment, s, 1, k);
    assert(s.skip(k + 1) =~= rest);
    lemma_tokens_by_step(s);
}

/// White space between tokens does not change the tokens: where the scanner
/// comes to stand at top level with `after` left to read, any white space
/// `gap` may stand in front of `after`. The outline of the source is then
/// the same too.
pub proof fn lemma_white_space_between_tokens(
    before: Seq<char>,
    gap: Seq<char>,
    after: Seq<char>,
)
    requires
        all_white_space(gap),
        stands_before(before + after, after),
    ensures
        tokens_of(before + gap + after) == tokens_of(before + after),
        outline_of(before + gap + after) == outline_of(before + after),
    decreases before.len(),
{
    assert(before + gap + after =~= before + (gap + after));
    if before.len() == 0 {
        lemma_leading_white_space(gap, after);
    } else {
        let taken = lemma_first_step_stays_before(before, after);
        lemma_step_is_local(before, after, gap + after, taken);
        lemma_tokens_by_step(before + after);
        lemma_tokens_by_step(before + (gap + after));
        lemma_white_space_between_tokens(before.skip(taken), gap, after);
        assert(before.skip(taken) + gap + after =~= before.skip(taken) + (gap + after));
    }
}

/// White space between tokens may be changed for other white space: where
/// the scanner comes to stand at top level before the white space `gap`,
/// any white space `other` that is not empty may stand in its place. The
/// outline of the source is then the same too.
pub proof fn lemma_white_space_is_interchangeable(
    before: Seq<char>,
    gap: Seq<char>,
    other: Seq<char>,
    after: Seq<char>,
)
    requires
        all_white_space(gap),
        all_white_space(other),
        other.len() > 0,
        stands_before(before + gap + after, gap + after),
    ensures
        tokens_of(before + gap + after) == tokens_of(before + other + after),
        outline_of(before + gap + after) == outline_of(before + other + after),
    decreases before.len(),
{
    assert(before + gap + after =~= before + (gap + after));
    assert(before + other + after =~= before + (other + after));
    if before.len() == 0 {
        lemma_leading_white_space(gap, after);
        lemma_leading_white_space(other, after);
    } else {
        let taken = lemma_first_step_stays_before(before, gap + after);
        lemma_step_is_local(before, gap + after, other + after, taken);
        lemma_tokens_by_step(before + (gap + after));
        lemma_tokens_by_step(before + (other + after));
        assert(before.skip(taken) + gap + after =~= before.skip(taken) + (gap + after));
        lemma_white_space_is_interchangeable(before.skip(taken), gap, other, after);
        assert(before.skip(taken) + other + after =~= before.skip(taken) + (other + after));
    }
}

/// A scope that ends well ends after a `}` or at the end of the tokens.
pub proof fn lemma_scope_ends_after_brace_or_at_end(tokens: Seq<Seq<char>>, idx: int)
    requires
        0 <= idx <= tokens.len(),
    ensures
        scope_rule(tokens, idx).end matches Ok(next) ==> next == tokens.len() || (idx < next
            <= tokens.len() && tokens[next - 1] == "}"@),
    decreases tokens.len() - idx,
{
    if in_range(tokens, idx) && tokens[idx] != "}"@ {
        lemma_declaration_advances(tokens, idx);
        if let Ok(next) = declaration_rule(tokens, idx).end {
            lemma_scope_ends_after_brace_or_at_end(tokens, next);
        }
    }
}

/// Reading a source text again gives the same outline: two results of
/// reading `source` hold the same events in the same order and end alike.
pub proof fn lemma_outline_is_determined(source: Seq<char>, first: Outline, second: Outline)
    requires
        reports(outline_of(source), Seq::empty(), first.events.deep_view(), first.end),
        reports(outline_of(source), Seq::empty(), second.events.deep_view(), second.end),
    ensures
        first.events.deep_view() == second.events.deep_view(),
        first.end == second.end,
{
}

} // verus!
