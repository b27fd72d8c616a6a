//! What the grammar reports, and how it fails.

use vstd::prelude::*;
use vstd::string::StringExecFns;

verus! {

/// The kinds of construct that the grammar recognises.
#[derive(Clone, Copy, Debug, PartialEq, Eq, Structural)]
pub enum EventKind {
    /// An `#include` directive; the name is the path that follows it.
    Include,
    /// A class or struct that is declared and not defined.
    DeclaredClass,
    /// A class or struct with a body.
    DefinedClass,
    /// A type that is named by value.
    UsedType,
    /// A type that is named with `*` or `&` after it.
    ReferencedType,
    /// The alias that a typedef introduces.
    DefinedType,
    /// A data member.
    DeclaredMember,
    /// A member function that is declared and not defined.
    DeclaredFunction,
}

/// One recognised construct: its kind and the name it concerns.
#[derive(Debug, PartialEq, Eq)]
pub struct Event {
    pub kind: EventKind,
    pub name: String,
}

/// An event with its name as a sequence of characters.
pub struct EventView {
    pub kind: EventKind,
    pub name: Seq<char>,
}

impl View for Event {
    type V = EventView;

    open spec fn view(&self) -> EventView {
        EventView { kind: self.kind, name: self.name@ }
    }
}

impl DeepView for Event {
    type V = EventView;

    open spec fn deep_view(&self) -> EventView {
        self@
    }
}

impl Clone for Event {
    fn clone(&self) -> (copy: Event)
        ensures
            copy@ == self@,
    {
        Event { kind: self.kind, name: self.name.clone() }
    }
}

/// The constructs that the grammar refuses.
#[derive(Clone, Copy, Debug, PartialEq, Eq, Structural)]
pub enum Construct {
    /// A `#define` directive.
    Define,
    /// The list of base classes after `:` in a class definition.
    InheritanceList,
    /// A member function with anything but `;` after its signature.
    FunctionBody,
}

/// Why parsing stopped.
#[derive(Clone, Copy, Debug, PartialEq, Eq, Structural)]
pub enum ParseError {
    /// The tokens hold a construct that the grammar does not support.
    Unsupported(Construct),
    /// A rule needed a token at a place where the sequence has none.
    OutOfRange,
}

/// The text that stands before the name in the line for an event of `kind`.
pub open spec fn label_of(kind: EventKind) -> Seq<char> {
    match kind {
        EventKind::Include => "Included: "@,
        EventKind::DeclaredClass => "Declared class "@,
        EventKind::DefinedClass => "Defined class: "@,
        EventKind::UsedType => "Used "@,
        EventKind::ReferencedType => "Referenced "@,
        EventKind::DefinedType => "Defined type "@,
        EventKind::DeclaredMember => "Declared member "@,
        EventKind::DeclaredFunction => "Declared function "@,
    }
}

impl EventKind {
    /// The text that stands before the name in the line for an event of this
    /// kind.
    pub fn label(self) -> (label: &'static str)
        ensures
            label@ == label_of(self),
    {
        match self {
            EventKind::Include => "Included: ",
            EventKind::DeclaredClass => "Declared class ",
            EventKind::DefinedClass => "Defined class: ",
            EventKind::UsedType => "Used ",
            EventKind::ReferencedType => "Referenced ",
            EventKind::DefinedType => "Defined type ",
            EventKind::DeclaredMember => "Declared member ",
            EventKind::DeclaredFunction => "Declared function ",
        }
    }
}

impl Event {
    /// The line that reports this event.
    pub fn describe(&self) -> (line: String)
        ensures
            line@ == label_of(self.kind) + self.name@,
    {
        String::from_str(self.kind.label()).concat(self.name.as_str())
    }
}

/// The line that opens the report on the file called `filename`.
pub fn heading(filename: &str) -> (line: String)
    ensures
        line@ == "Parsing "@ + filename@,
{
    String::from_str("Parsing ").concat(filename)
}

} // verus!
