//! A structural outline of C-family header files.
//!
//! The source text is scanned into tokens ([`tokenizer`]), and the tokens are
//! walked by a recursive-descent grammar ([`parser`]) that recognises
//! preprocessor directives, class declarations and definitions, typedefs,
//! members and member function declarations, and reports each of them as an
//! [`event::Event`]. What the scanner and the grammar compute is defined in
//! [`lexis`] and [`grammar`]; [`laws`] states what holds of them in general.

#![allow(non_snake_case)]

pub mod chars;
pub mod text;
pub mod lexis;
pub mod tokenizer;
pub mod event;
pub mod grammar;
pub mod parser;
pub mod laws;
