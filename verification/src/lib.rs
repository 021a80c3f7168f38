//! An interpreter for a small, line-oriented calculator language.
//!
//! Source text is split into tokens ([`lexer`]) and parsed into a flat list
//! of statements ([`parser`]), which is run by walking it with a program
//! counter and a stack of open blocks ([`executor`]). Expressions evaluate
//! to numbers and lists of numbers ([`expr`], [`value`]) and read and write
//! variables ([`context`]). A [`interpreter::Session`] takes text through
//! all of this a piece at a time.
//!
//! The library does no floating-point arithmetic of its own. It holds a
//! number as the bits of a double ([`number`]), decides on those bits what
//! can be decided on them, and asks its caller for everything else
//! ([`host`]). What every run keeps to is stated and proved in [`laws`].

pub mod context;
pub mod error;
pub mod executor;
pub mod expr;
pub mod host;
pub mod interpreter;
pub mod laws;
pub mod lexer;
pub mod number;
pub mod parser;
pub mod statement;
pub mod value;
