//! What the grammar computes, stated over sequences of tokens.
//!
//! Every rule takes the whole token sequence and a cursor, and gives the
//! events it reports together with the cursor after what it consumed, or the
//! error that stopped it. A rule that needs a token where the sequence has
//! none fails with [`ParseError::OutOfRange`]; the events reported up to
//! that point stay reported.

use vstd::prelude::*;
use crate::event::{Construct, EventKind, EventView, ParseError};
use crate::lexis::tokens_of;

verus! {

/// What a rule did: the events it reported, in order, and how it ended.
pub struct Outcome {
    pub events: Seq<EventView>,
    pub end: Result<int, ParseError>,
}

impl Outcome {
    /// Nothing reported, and `end` as the end.
    pub open spec fn silent(end: Result<int, ParseError>) -> Outcome {
        Outcome { events: Seq::empty(), end }
    }

    /// This outcome with `events` reported before it.
    pub open spec fn after(self, events: Seq<EventView>) -> Outcome {
        Outcome { events: events + self.events, end: self.end }
    }

    /// This outcome with `count` more tokens passed over, if it did not fail.
    pub open spec fn then_skip(self, tokens: Seq<Seq<char>>, count: int) -> Outcome {
        match self.end {
            Ok(next) => Outcome { events: self.events, end: skip(tokens, next, count) },
            Err(_) => self,
        }
    }
}

/// The one event of `kind` for `name`.
pub open spec fn one(kind: EventKind, name: Seq<char>) -> Seq<EventView> {
    seq![EventView { kind, name }]
}

/// Whether `tokens` has a token at `idx`.
pub open spec fn in_range(tokens: Seq<Seq<char>>, idx: int) -> bool {
    0 <= idx < tokens.len()
}

/// The cursor after the `count` tokens from `idx` on, which must all be
/// there.
pub open spec fn skip(tokens: Seq<Seq<char>>, idx: int, count: int) -> Result<int, ParseError> {
    if 0 <= idx && idx + count <= tokens.len() {
        Ok(idx + count)
    } else {
        Err(ParseError::OutOfRange)
    }
}

/// A pragma: its one-token body is passed over.
pub open spec fn pragma_rule(tokens: Seq<Seq<char>>, idx: int) -> Result<int, ParseError> {
    skip(tokens, idx, 1)
}

/// An include: the token at `idx` is reported as the path.
pub open spec fn include_rule(tokens: Seq<Seq<char>>, idx: int) -> Outcome {
    if in_range(tokens, idx) {
        Outcome { events: one(EventKind::Include, tokens[idx]), end: Ok(idx + 1) }
    } else {
        Outcome::silent(Err(ParseError::OutOfRange))
    }
}

/// A define: not supported.
pub open spec fn define_rule(tokens: Seq<Seq<char>>, idx: int) -> Result<int, ParseError> {
    Err(ParseError::Unsupported(Construct::Define))
}

/// A list of base classes: not supported.
pub open spec fn inherited_classes_rule(tokens: Seq<Seq<char>>, idx: int) -> Result<
    int,
    ParseError,
> {
    Err(ParseError::Unsupported(Construct::InheritanceList))
}

/// The token at `idx` is passed over if it is `attribute`.
pub open spec fn optional_rule(attribute: Seq<char>, tokens: Seq<Seq<char>>, idx: int) -> Result<
    int,
    ParseError,
> {
    if !in_range(tokens, idx) {
        Err(ParseError::OutOfRange)
    } else if tokens[idx] == attribute {
        Ok(idx + 1)
    } else {
        Ok(idx)
    }
}

/// A type: `[const] name [* | &] [, type | < type >]`.
///
/// The name is reported as referenced when `*` or `&` follows it, as used
/// otherwise; the token after the name must be there either way. A comma
/// then leads to a further type, and `<` to a type followed by one token
/// that closes the bracket.
pub open spec fn type_rule(tokens: Seq<Seq<char>>, idx: int) -> Outcome
    decreases tokens.len() - idx,
{
    match optional_rule("const"@, tokens, idx) {
        Err(error) => Outcome::silent(Err(error)),
        Ok(at) => if !in_range(tokens, at + 1) {
            Outcome::silent(Err(ParseError::OutOfRange))
        } else {
            let reference = tokens[at + 1] == "*"@ || tokens[at + 1] == "&"@;
            let named = one(
                if reference {
                    EventKind::ReferencedType
                } else {
                    EventKind::UsedType
                },
                tokens[at],
            );
            let next = if reference {
                at + 2
            } else {
                at + 1
            };
            if !in_range(tokens, next) {
                Outcome { events: named, end: Err(ParseError::OutOfRange) }
            } else if tokens[next] == ","@ {
                type_rule(tokens, next + 1).after(named)
            } else if tokens[next] == "<"@ {
                type_rule(tokens, next + 1).then_skip(tokens, 1).after(named)
            } else {
                Outcome { events: named, end: Ok(next) }
            }
        },
    }
}

/// A typedef: `type alias ;`. The token after the type is reported as the
/// alias, and it and the token after it are passed over.
pub open spec fn typedef_rule(tokens: Seq<Seq<char>>, idx: int) -> Outcome {
    let aliased = type_rule(tokens, idx);
    match aliased.end {
        Err(_) => aliased,
        Ok(at) => if !in_range(tokens, at) {
            Outcome { events: aliased.events, end: Err(ParseError::OutOfRange) }
        } else {
            Outcome {
                events: aliased.events + one(EventKind::DefinedType, tokens[at]),
                end: skip(tokens, at, 2),
            }
        },
    }
}

/// What a member or a parameter begins with: `[static] type`, and one token
/// more, the name, which is passed over.
pub open spec fn identifier_rule(tokens: Seq<Seq<char>>, idx: int) -> Outcome {
    match optional_rule("static"@, tokens, idx) {
        Err(error) => Outcome::silent(Err(error)),
        Ok(at) => type_rule(tokens, at).then_skip(tokens, 1),
    }
}

/// The parameters of a function, from after `(` up to and including `)`.
/// Each is read as an identifier; a comma before it is passed over.
pub open spec fn parameters_rule(tokens: Seq<Seq<char>>, idx: int) -> Outcome
    decreases tokens.len() - idx,
    via parameters_rule_decreases
{
    if !in_range(tokens, idx) {
        Outcome::silent(Err(ParseError::OutOfRange))
    } else if tokens[idx] == ")"@ {
        Outcome::silent(Ok(idx + 1))
    } else {
        let parameter = identifier_rule(
            tokens,
            if tokens[idx] == ","@ {
                idx + 1
            } else {
                idx
            },
        );
        match parameter.end {
            Err(_) => parameter,
            Ok(next) => parameters_rule(tokens, next).after(parameter.events),
        }
    }
}

#[via_fn]
proof fn parameters_rule_decreases(tokens: Seq<Seq<char>>, idx: int) {
    if in_range(tokens, idx) {
        if tokens[idx] == ","@ {
            lemma_identifier_advances(tokens, idx + 1);
        } else {
            lemma_identifier_advances(tokens, idx);
        }
    }
}

/// The qualifiers that may follow a parameter list: `[const] [override]`.
pub open spec fn qualifiers_rule(tokens: Seq<Seq<char>>, idx: int) -> Result<int, ParseError> {
    match optional_rule("const"@, tokens, idx) {
        Err(error) => Err(error),
        Ok(at) => optional_rule("override"@, tokens, at),
    }
}

/// A function signature, with the cursor after its `(`: the parameters, the
/// qualifiers, and `;`. The function's name is the token before the `(`.
/// Anything but `;` at the end is a function body, which is not supported.
pub open spec fn function_signature_rule(tokens: Seq<Seq<char>>, idx: int) -> Outcome {
    if !in_range(tokens, idx - 2) {
        Outcome::silent(Err(ParseError::OutOfRange))
    } else {
        let parameters = parameters_rule(tokens, idx);
        match parameters.end {
            Err(_) => parameters,
            Ok(closed) => match qualifiers_rule(tokens, closed) {
                Err(error) => Outcome { events: parameters.events, end: Err(error) },
                Ok(at) => if !in_range(tokens, at) {
                    Outcome { events: parameters.events, end: Err(ParseError::OutOfRange) }
                } else if tokens[at] == ";"@ {
                    Outcome {
                        events: parameters.events + one(
                            EventKind::DeclaredFunction,
                            tokens[idx - 2],
                        ),
                        end: Ok(at + 1),
                    }
                } else {
                    Outcome {
                        events: parameters.events,
                        end: Err(ParseError::Unsupported(Construct::FunctionBody)),
                    }
                },
            },
        }
    }
}

/// A member: an identifier, whose last token is the member's name, and one
/// token more. If that token is `(` the member is a function and its
/// signature follows; otherwise it is a data member.
pub open spec fn member_rule(tokens: Seq<Seq<char>>, idx: int) -> Outcome {
    let declared = identifier_rule(tokens, idx);
    match declared.end {
        Err(_) => declared,
        Ok(at) => if !in_range(tokens, at) {
            Outcome { events: declared.events, end: Err(ParseError::OutOfRange) }
        } else if tokens[at] == "("@ {
            function_signature_rule(tokens, at + 1).after(declared.events)
        } else {
            Outcome {
                events: declared.events + one(EventKind::DeclaredMember, tokens[at - 1]),
                end: Ok(at + 1),
            }
        },
    }
}

/// A class or struct, with the cursor after the keyword: `name ;` declares
/// it; `name { scope ;` defines it, where the token after the scope is
/// passed over; `name :` would open a list of base classes. After any other
/// second token the two tokens are passed over and nothing is reported.
pub open spec fn class_rule(tokens: Seq<Seq<char>>, idx: int) -> Outcome
    decreases tokens.len() - idx, 0int,
{
    if !(in_range(tokens, idx) && in_range(tokens, idx + 1)) {
        Outcome::silent(Err(ParseError::OutOfRange))
    } else if tokens[idx + 1] == ";"@ {
        Outcome { events: one(EventKind::DeclaredClass, tokens[idx]), end: Ok(idx + 2) }
    } else if tokens[idx + 1] == ":"@ {
        Outcome::silent(inherited_classes_rule(tokens, idx + 2)).after(
            one(EventKind::DefinedClass, tokens[idx]),
        )
    } else if tokens[idx + 1] == "{"@ {
        scope_rule(tokens, idx + 2).then_skip(tokens, 1).after(
            one(EventKind::DefinedClass, tokens[idx]),
        )
    } else {
        Outcome::silent(Ok(idx + 2))
    }
}

/// One declaration of a scope, from the token at `idx` on. That token
/// selects the rule: a directive, `class` or `struct`, `typedef`, an access
/// specifier, which is passed over, or else a member, which begins at that
/// very token.
pub open spec fn declaration_rule(tokens: Seq<Seq<char>>, idx: int) -> Outcome
    decreases tokens.len() - idx, 0int,
{
    if !in_range(tokens, idx) {
        Outcome::silent(Err(ParseError::OutOfRange))
    } else if tokens[idx] == "#pragma"@ {
        Outcome::silent(pragma_rule(tokens, idx + 1))
    } else if tokens[idx] == "#include"@ {
        include_rule(tokens, idx + 1)
    } else if tokens[idx] == "#define"@ {
        Outcome::silent(define_rule(tokens, idx + 1))
    } else if tokens[idx] == "class"@ || tokens[idx] == "struct"@ {
        class_rule(tokens, idx + 1)
    } else if tokens[idx] == "typedef"@ {
        typedef_rule(tokens, idx + 1)
    } else if tokens[idx] == "public:"@ || tokens[idx] == "protected:"@ || tokens[idx]
        == "private:"@ {
        Outcome::silent(Ok(idx + 1))
    } else {
        member_rule(tokens, idx)
    }
}

/// A scope: declarations up to and including the `}` that closes it, or up
/// to the end of the tokens.
///
/// Every declaration that succeeds moves the cursor forward and stays within
/// the tokens ([`lemma_declaration_advances`]), so the comparison
/// `idx < next <= tokens.len()` below is always true
/// ([`lemma_scope_unfolds`]); it is there for the definition to be well
/// founded.
pub open spec fn scope_rule(tokens: Seq<Seq<char>>, idx: int) -> Outcome
    decreases tokens.len() - idx, 1int,
{
    if !in_range(tokens, idx) {
        Outcome::silent(Ok(idx))
    } else if tokens[idx] == "}"@ {
        Outcome::silent(Ok(idx + 1))
    } else {
        let declaration = declaration_rule(tokens, idx);
        match declaration.end {
            Err(_) => declaration,
            Ok(next) => if idx < next <= tokens.len() {
                scope_rule(tokens, next).after(declaration.events)
            } else {
                declaration
            },
        }
    }
}

/// The outline of the source text `source`: the scope that starts at its
/// first token.
pub open spec fn outline_of(source: Seq<char>) -> Outcome {
    scope_rule(tokens_of(source), 0)
}

/// Whether a rule that found `before` reported, left `after` reported and
/// returned `end` did what `outcome` says.
pub open spec fn reports(
    outcome: Outcome,
    before: Seq<EventView>,
    after: Seq<EventView>,
    end: Result<usize, ParseError>,
) -> bool {
    &&& after == before + outcome.events
    &&& ends_as(outcome.end, end)
}

/// Whether `end`, as a rule returned it, is `expected`.
pub open spec fn ends_as(expected: Result<int, ParseError>, end: Result<usize, ParseError>) -> bool {
    match end {
        Ok(next) => expected == Ok::<int, ParseError>(next as int),
        Err(error) => expected == Err::<int, ParseError>(error),
    }
}

/// A type that is read from `idx` ends after `idx`, within the tokens.
pub proof fn lemma_type_advances(tokens: Seq<Seq<char>>, idx: int)
    requires
        0 <= idx,
    ensures
        type_rule(tokens, idx).end matches Ok(next) ==> idx < next <= tokens.len(),
    decreases tokens.len() - idx,
{
    if let Ok(at) = optional_rule("const"@, tokens, idx) {
        if in_range(tokens, at + 1) {
            let reference = tokens[at + 1] == "*"@ || tokens[at + 1] == "&"@;
            let next = if reference {
                at + 2
            } else {
                at + 1
            };
            if in_range(tokens, next) && (tokens[next] == ","@ || tokens[next] == "<"@) {
                lemma_type_advances(tokens, next + 1);
            }
        }
    }
}

/// An identifier that is read from `idx` ends at least two tokens after
/// `idx`, within the tokens.
pub proof fn lemma_identifier_advances(tokens: Seq<Seq<char>>, idx: int)
    requires
        0 <= idx,
    ensures
        identifier_rule(tokens, idx).end matches Ok(next) ==> idx + 2 <= next <= tokens.len(),
{
    if let Ok(at) = optional_rule("static"@, tokens, idx) {
        lemma_type_advances(tokens, at);
    }
}

/// A parameter list that is read from `idx` ends after `idx`, within the
/// tokens.
pub proof fn lemma_parameters_advance(tokens: Seq<Seq<char>>, idx: int)
    requires
        0 <= idx,
    ensures
        parameters_rule(tokens, idx).end matches Ok(next) ==> idx < next <= tokens.len(),
    decreases tokens.len() - idx,
{
    if in_range(tokens, idx) && tokens[idx] != ")"@ {
        let from = if tokens[idx] == ","@ {
            idx + 1
        } else {
            idx
        };
        lemma_identifier_advances(tokens, from);
        if let Ok(next) = identifier_rule(tokens, from).end {
            lemma_parameters_advance(tokens, next);
        }
    }
}

/// A member that is read from `idx` ends after `idx`, within the tokens.
pub proof fn lemma_member_advances(tokens: Seq<Seq<char>>, idx: int)
    requires
        0 <= idx,
    ensures
        member_rule(tokens, idx).end matches Ok(next) ==> idx < next <= tokens.len(),
{
    lemma_identifier_advances(tokens, idx);
    if let Ok(at) = identifier_rule(tokens, idx).end {
        lemma_parameters_advance(tokens, at + 1);
    }
}

/// A typedef that is read from `idx` ends after `idx`, within the tokens.
pub proof fn lemma_typedef_advances(tokens: Seq<Seq<char>>, idx: int)
    requires
        0 <= idx,
    ensures
        typedef_rule(tokens, idx).end matches Ok(next) ==> idx < next <= tokens.len(),
{
    lemma_type_advances(tokens, idx);
}

/// A class that is read from `idx` ends after `idx`, within the tokens.
pub proof fn lemma_class_advances(tokens: Seq<Seq<char>>, idx: int)
    requires
        0 <= idx,
    ensures
        class_rule(tokens, idx).end matches Ok(next) ==> idx < next <= tokens.len(),
    decreases tokens.len() - idx, 0int,
{
    if in_range(tokens, idx) && in_range(tokens, idx + 1) && tokens[idx + 1] == "{"@ {
        lemma_scope_advances(tokens, idx + 2);
    }
}

/// A declaration that is read from `idx` ends after `idx`, within the
/// tokens.
pub proof fn lemma_declaration_advances(tokens: Seq<Seq<char>>, idx: int)
    requires
        0 <= idx,
    ensures
        declaration_rule(tokens, idx).end matches Ok(next) ==> idx < next <= tokens.len(),
    decreases tokens.len() - idx, 1int,
{
    if in_range(tokens, idx) {
        lemma_class_advances(tokens, idx + 1);
        lemma_typedef_advances(tokens, idx + 1);
        lemma_member_advances(tokens, idx);
    }
}

/// A scope is its first declaration followed by the scope after it.
pub proof fn lemma_scope_unfolds(tokens: Seq<Seq<char>>, idx: int)
    requires
        in_range(tokens, idx),
        tokens[idx] != "}"@,
    ensures
        scope_rule(tokens, idx) == match declaration_rule(tokens, idx).end {
            Err(_) => declaration_rule(tokens, idx),
            Ok(next) => scope_rule(tokens, next).after(declaration_rule(tokens, idx).events),
        },
{
    lemma_declaration_advances(tokens, idx);
}

/// A scope that is read from `idx`, within the tokens, ends at or after
/// `idx`, within the tokens.
pub proof fn lemma_scope_advances(tokens: Seq<Seq<char>>, idx: int)
    requires
        0 <= idx <= tokens.len(),
    ensures
        scope_rule(tokens, idx).end matches Ok(next) ==> idx <= next <= tokens.len(),
    decreases tokens.len() - idx, 2int,
{
    if in_range(tokens, idx) && tokens[idx] != "}"@ {
        lemma_declaration_advances(tokens, idx);
        if let Ok(next) = declaration_rule(tokens, idx).end {
            lemma_scope_advances(tokens, next);
        }
    }
}

} // verus!
