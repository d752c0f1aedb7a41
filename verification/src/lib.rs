//! A small interpreter for a prefix-notation expression language without
//! parentheses: how many arguments a call takes is read from the table of
//! the functions declared so far.
//!
//! A source text is split into tokens ([`tokenizer`]), declarations are
//! parsed into expression trees and registered in an environment
//! ([`parser`], [`env`]), and expressions are evaluated against it
//! ([`interpreter`], [`builtins`]). [`program`] puts these together for a
//! whole source text, for a single line and for the entry point `main`;
//! [`diagnostics`] finds the line that an error points at. [`soundness`]
//! shows that what the parser builds is evaluated without internal failure.
//!
//! Every executable function is specified against a mathematical model of
//! what it computes, and proved to meet it. The models are the `*_model`
//! functions; the `View` of a type is what the models say of its values.

pub mod builtins;
pub mod diagnostics;
pub mod env;
pub mod error;
pub mod interner;
pub mod interpreter;
pub mod parser;
pub mod program;
pub mod soundness;
pub mod span;
pub mod text;
pub mod tokenizer;
pub mod value;
