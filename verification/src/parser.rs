//! The grammar: from tokens to events.
//!
//! Each rule takes the tokens and a cursor and returns the cursor after
//! what it consumed. The events it recognises are pushed to the end of
//! `events`, in the order in which the tokens were consumed; when a rule
//! fails, the events pushed before the failure stay where they are.

use vstd::prelude::*;
use crate::event::{Construct, Event, EventKind, ParseError};
use crate::grammar::{
    class_rule, declaration_rule, define_rule, ends_as, function_signature_rule,
    identifier_rule, include_rule, inherited_classes_rule, lemma_declaration_advances,
    lemma_identifier_advances, member_rule, one, optional_rule, outline_of, parameters_rule,
    pragma_rule, reports, scope_rule, skip, type_rule, typedef_rule, Outcome,
};
use crate::text::same_text;
use crate::tokenizer::tokenize;

verus! {

/// Whether the token at `idx` reads `literal`.
fn token_is(tokens: &Vec<String>, idx: usize, literal: &str) -> (same: bool)
    requires
        idx < tokens.len(),
    ensures
        same == (tokens.deep_view()[idx as int] == literal@),
{
    same_text(tokens[idx].as_str(), literal)
}

/// Pushes the event of `kind` whose name is the token at `idx`.
fn report(events: &mut Vec<Event>, kind: EventKind, tokens: &Vec<String>, idx: usize)
    requires
        idx < tokens.len(),
    ensures
        final(events).deep_view() == old(events).deep_view() + one(
            kind,
            tokens.deep_view()[idx as int],
        ),
{
    events.push(Event { kind, name: tokens[idx].clone() });
}

/// Passes over `count` tokens from `idx` on, which must all be there.
fn pass_over(tokens: &Vec<String>, idx: usize, count: usize) -> (end: Result<usize, ParseError>)
    ensures
        ends_as(skip(tokens.deep_view(), idx as int, count as int), end),
{
    if idx <= tokens.len() && count <= tokens.len() - idx {
        Ok(idx + count)
    } else {
        Err(ParseError::OutOfRange)
    }
}

/// Passes over the one-token body of a pragma.
pub fn parsePragma(tokens: &Vec<String>, idx: usize) -> (end: Result<usize, ParseError>)
    ensures
        ends_as(pragma_rule(tokens.deep_view(), idx as int), end),
{
    pass_over(tokens, idx, 1)
}

/// Reports the token at `idx` as the path of an include.
pub fn parseInclude(tokens: &Vec<String>, idx: usize, events: &mut Vec<Event>) -> (end: Result<
    usize,
    ParseError,
>)
    ensures
        reports(
            include_rule(tokens.deep_view(), idx as int),
            old(events).deep_view(),
            final(events).deep_view(),
            end,
        ),
{
    if idx < tokens.len() {
        report(events, EventKind::Include, tokens, idx);
        Ok(idx + 1)
    } else {
        Err(ParseError::OutOfRange)
    }
}

/// Refuses a define.
pub fn parseDefine(tokens: &Vec<String>, idx: usize) -> (end: Result<usize, ParseError>)
    ensures
        ends_as(define_rule(tokens.deep_view(), idx as int), end),
{
    Err(ParseError::Unsupported(Construct::Define))
}

/// Refuses a list of base classes.
pub fn parseInheritedClasses(tokens: &Vec<String>, idx: usize) -> (end: Result<
    usize,
    ParseError,
>)
    ensures
        ends_as(inherited_classes_rule(tokens.deep_view(), idx as int), end),
{
    Err(ParseError::Unsupported(Construct::InheritanceList))
}

/// Reads a class or struct, with the cursor after the keyword.
pub fn parseClass(tokens: &Vec<String>, idx: usize, events: &mut Vec<Event>) -> (end: Result<
    usize,
    ParseError,
>)
    ensures
        reports(
            class_rule(tokens.deep_view(), idx as int),
            old(events).deep_view(),
            final(events).deep_view(),
            end,
        ),
    decreases tokens.len() - idx,
{
    let ghost before = events.deep_view();
    if idx >= tokens.len() || idx + 1 >= tokens.len() {
        return Err(ParseError::OutOfRange);
    }
    let colon = token_is(tokens, idx + 1, ":");
    if token_is(tokens, idx + 1, ";") {
        report(events, EventKind::DeclaredClass, tokens, idx);
        Ok(idx + 2)
    } else if colon || token_is(tokens, idx + 1, "{") {
        report(events, EventKind::DefinedClass, tokens, idx);
        let ghost named = one(EventKind::DefinedClass, tokens.deep_view()[idx as int]);
        let mut body = idx + 2;
        if colon {
            match parseInheritedClasses(tokens, body) {
                Ok(next) => {
                    body = next;
                },
                Err(error) => {
                    return Err(error);
                },
            }
        }
        let scope = parseScope(tokens, body, events);
        assert(events.deep_view() =~= before + (named + scope_rule(
            tokens.deep_view(),
            idx + 2,
        ).events));
        match scope {
            Ok(next) => pass_over(tokens, next, 1),
            Err(error) => Err(error),
        }
    } else {
        Ok(idx + 2)
    }
}

/// Passes over the token at `idx` if it reads `attribute`.
pub fn optional(attribute: &str, tokens: &Vec<String>, idx: usize) -> (end: Result<
    usize,
    ParseError,
>)
    ensures
        ends_as(optional_rule(attribute@, tokens.deep_view(), idx as int), end),
{
    if idx >= tokens.len() {
        Err(ParseError::OutOfRange)
    } else if token_is(tokens, idx, attribute) {
        Ok(idx + 1)
    } else {
        Ok(idx)
    }
}

/// Reads a type and reports each name in it as used or as referenced.
pub fn parseType(tokens: &Vec<String>, idx: usize, events: &mut Vec<Event>) -> (end: Result<
    usize,
    ParseError,
>)
    ensures
        reports(
            type_rule(tokens.deep_view(), idx as int),
            old(events).deep_view(),
            final(events).deep_view(),
            end,
        ),
    decreases tokens.len() - idx,
{
    let ghost before = events.deep_view();
    let at = match optional("const", tokens, idx) {
        Ok(at) => at,
        Err(error) => {
            return Err(error);
        },
    };
    if at >= tokens.len() || at + 1 >= tokens.len() {
        return Err(ParseError::OutOfRange);
    }
    let reference = token_is(tokens, at + 1, "*") || token_is(tokens, at + 1, "&");
    let next = if reference {
        report(events, EventKind::ReferencedType, tokens, at);
        at + 2
    } else {
        report(events, EventKind::UsedType, tokens, at);
        at + 1
    };
    let ghost named = one(
        if reference {
            EventKind::ReferencedType
        } else {
            EventKind::UsedType
        },
        tokens.deep_view()[at as int],
    );
    if next >= tokens.len() {
        return Err(ParseError::OutOfRange);
    }
    if token_is(tokens, next, ",") {
        let end = parseType(tokens, next + 1, events);
        assert(events.deep_view() =~= before + (named + type_rule(
            tokens.deep_view(),
            next + 1,
        ).events));
        end
    } else if token_is(tokens, next, "<") {
        let inner = parseType(tokens, next + 1, events);
        assert(events.deep_view() =~= before + (named + type_rule(
            tokens.deep_view(),
            next + 1,
        ).events));
        match inner {
            Ok(next) => pass_over(tokens, next, 1),
            Err(error) => Err(error),
        }
    } else {
        Ok(next)
    }
}

/// Reads a typedef, with the cursor after the keyword, and reports the
/// alias.
pub fn parseTypedef(tokens: &Vec<String>, idx: usize, events: &mut Vec<Event>) -> (end: Result<
    usize,
    ParseError,
>)
    ensures
        reports(
            typedef_rule(tokens.deep_view(), idx as int),
            old(events).deep_view(),
            final(events).deep_view(),
            end,
        ),
{
    let ghost before = events.deep_view();
    let at = match parseType(tokens, idx, events) {
        Ok(at) => at,
        Err(error) => {
            return Err(error);
        },
    };
    if at >= tokens.len() {
        return Err(ParseError::OutOfRange);
    }
    report(events, EventKind::DefinedType, tokens, at);
    assert(events.deep_view() =~= before + (type_rule(tokens.deep_view(), idx as int).events
        + one(EventKind::DefinedType, tokens.deep_view()[at as int])));
    pass_over(tokens, at, 2)
}

/// Reads what a member or a parameter begins with: its type, and its name,
/// which is passed over.
pub fn parseIdentifier(tokens: &Vec<String>, idx: usize, events: &mut Vec<Event>) -> (end:
    Result<usize, ParseError>)
    ensures
        reports(
            identifier_rule(tokens.deep_view(), idx as int),
            old(events).deep_view(),
            final(events).deep_view(),
            end,
        ),
{
    let at = match optional("static", tokens, idx) {
        Ok(at) => at,
        Err(error) => {
            return Err(error);
        },
    };
    match parseType(tokens, at, events) {
        Ok(next) => pass_over(tokens, next, 1),
        Err(error) => Err(error),
    }
}

/// Reads a function signature, with the cursor after its `(`, and reports
/// the function, whose name is the token before the `(`.
pub fn parseFunctionSignature(tokens: &Vec<String>, idx: usize, events: &mut Vec<Event>) -> (end:
    Result<usize, ParseError>)
    ensures
        reports(
            function_signature_rule(tokens.deep_view(), idx as int),
            old(events).deep_view(),
            final(events).deep_view(),
            end,
        ),
{
    let ghost before = events.deep_view();
    if idx < 2 || idx - 2 >= tokens.len() {
        return Err(ParseError::OutOfRange);
    }
    let name = idx - 2;

    // What the parameters read so far have reported.
    let ghost mut so_far = Seq::empty();
    let mut cursor = idx;
    loop
        invariant_except_break
            parameters_rule(tokens.deep_view(), idx as int) == parameters_rule(
                tokens.deep_view(),
                cursor as int,
            ).after(so_far),
        invariant
            before == old(events).deep_view(),
            events.deep_view() == before + so_far,
            2 <= idx,
            name == idx - 2,
            name < tokens.len(),
        ensures
            parameters_rule(tokens.deep_view(), idx as int) == (Outcome {
                events: so_far,
                end: Ok(cursor as int),
            }),
            cursor <= tokens.len(),
        decreases tokens.len() - cursor,
    {
        if cursor >= tokens.len() {
            return Err(ParseError::OutOfRange);
        }
        let mut from = cursor;
        if token_is(tokens, cursor, ")") {
            cursor += 1;
            break;
        } else if token_is(tokens, cursor, ",") {
            from += 1;
        }
        proof {
            lemma_identifier_advances(tokens.deep_view(), from as int);
        }
        let ghost parameter = identifier_rule(tokens.deep_view(), from as int);
        match parseIdentifier(tokens, from, events) {
            Ok(next) => {
                proof {
                    assert((so_far + parameter.events) + parameters_rule(
                        tokens.deep_view(),
                        next as int,
                    ).events =~= so_far + (parameter.events + parameters_rule(
                        tokens.deep_view(),
                        next as int,
                    ).events));
                    so_far = so_far + parameter.events;
                }
                cursor = next;
            },
            Err(error) => {
                assert(events.deep_view() =~= before + (so_far + parameter.events));
                return Err(error);
            },
        }
    }

    let at = match optional("const", tokens, cursor) {
        Ok(at) => at,
        Err(error) => {
            return Err(error);
        },
    };
    let at = match optional("override", tokens, at) {
        Ok(at) => at,
        Err(error) => {
            return Err(error);
        },
    };
    if at >= tokens.len() {
        return Err(ParseError::OutOfRange);
    }
    if token_is(tokens, at, ";") {
        report(events, EventKind::DeclaredFunction, tokens, name);
        assert(events.deep_view() =~= before + (so_far + one(
            EventKind::DeclaredFunction,
            tokens.deep_view()[idx - 2],
        )));
        Ok(at + 1)
    } else {
        Err(ParseError::Unsupported(Construct::FunctionBody))
    }
}

/// Reads a member from its first token on, and reports it as a data member
/// or as a function.
pub fn parseMember(tokens: &Vec<String>, idx: usize, events: &mut Vec<Event>) -> (end: Result<
    usize,
    ParseError,
>)
    ensures
        reports(
            member_rule(tokens.deep_view(), idx as int),
            old(events).deep_view(),
            final(events).deep_view(),
            end,
        ),
{
    let ghost before = events.deep_view();
    let ghost declared = identifier_rule(tokens.deep_view(), idx as int);
    proof {
        lemma_identifier_advances(tokens.deep_view(), idx as int);
    }
    let at = match parseIdentifier(tokens, idx, events) {
        Ok(at) => at,
        Err(error) => {
            return Err(error);
        },
    };
    let name = at - 1;
    if at >= tokens.len() {
        return Err(ParseError::OutOfRange);
    }
    if token_is(tokens, at, "(") {
        let end = parseFunctionSignature(tokens, at + 1, events);
        assert(events.deep_view() =~= before + (declared.events + function_signature_rule(
            tokens.deep_view(),
            at + 1,
        ).events));
        end
    } else {
        report(events, EventKind::DeclaredMember, tokens, name);
        assert(events.deep_view() =~= before + (declared.events + one(
            EventKind::DeclaredMember,
            tokens.deep_view()[at - 1],
        )));
        Ok(at + 1)
    }
}

/// Reads the declarations of a scope, up to and including the `}` that
/// closes it or up to the end of the tokens.
pub fn parseScope(tokens: &Vec<String>, idx: usize, events: &mut Vec<Event>) -> (end: Result<
    usize,
    ParseError,
>)
    ensures
        reports(
            scope_rule(tokens.deep_view(), idx as int),
            old(events).deep_view(),
            final(events).deep_view(),
            end,
        ),
    decreases tokens.len() - idx,
{
    let ghost before = events.deep_view();

    // What the declarations read so far have reported.
    let ghost mut so_far = Seq::empty();
    let mut cursor = idx;
    while cursor < tokens.len()
        invariant
            idx <= cursor,
            before == old(events).deep_view(),
            events.deep_view() == before + so_far,
            scope_rule(tokens.deep_view(), idx as int) == scope_rule(
                tokens.deep_view(),
                cursor as int,
            ).after(so_far),
        decreases tokens.len() - cursor,
    {
        if token_is(tokens, cursor, "}") {
            return Ok(cursor + 1);
        }
        let ghost declared = declaration_rule(tokens.deep_view(), cursor as int);
        proof {
            lemma_declaration_advances(tokens.deep_view(), cursor as int);
        }
        let declaration = if token_is(tokens, cursor, "#pragma") {
            parsePragma(tokens, cursor + 1)
        } else if token_is(tokens, cursor, "#include") {
            parseInclude(tokens, cursor + 1, events)
        } else if token_is(tokens, cursor, "#define") {
            parseDefine(tokens, cursor + 1)
        } else if token_is(tokens, cursor, "class") || token_is(tokens, cursor, "struct") {
            parseClass(tokens, cursor + 1, events)
        } else if token_is(tokens, cursor, "typedef") {
            parseTypedef(tokens, cursor + 1, events)
        } else if token_is(tokens, cursor, "public:") || token_is(tokens, cursor, "protected:")
            || token_is(tokens, cursor, "private:") {
            Ok(cursor + 1)
        } else {
            parseMember(tokens, cursor, events)
        };
        assert(events.deep_view() =~= before + (so_far + declared.events));
        match declaration {
            Ok(next) => {
                proof {
                    assert((so_far + declared.events) + scope_rule(
                        tokens.deep_view(),
                        next as int,
                    ).events =~= so_far + (declared.events + scope_rule(
                        tokens.deep_view(),
                        next as int,
                    ).events));
                    so_far = so_far + declared.events;
                }
                cursor = next;
            },
            Err(error) => {
                return Err(error);
            },
        }
    }
    Ok(cursor)
}

/// The outline of one source text: the events of its outermost scope, and
/// the cursor at which that scope ended or the error that stopped it.
#[derive(Debug, PartialEq, Eq)]
pub struct Outline {
    pub events: Vec<Event>,
    pub end: Result<usize, ParseError>,
}

/// Scans `source` into tokens and reads them as one scope, from the first
/// token on.
pub fn parseFile(source: &str) -> (outline: Outline)
    ensures
        reports(
            outline_of(source@),
            Seq::empty(),
            outline.events.deep_view(),
            outline.end,
        ),
{
    let tokens = tokenize(source);
    let mut events: Vec<Event> = Vec::new();
    let end = parseScope(&tokens, 0, &mut events);
    Outline { events, end }
}

} // verus!
