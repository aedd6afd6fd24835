//! An interruptible evaluator of expressions.
//!
//! A source text is cut into tokens ([`token`]), parsed into a tree
//! ([`parser`], after the grammar of [`grammar`] and [`derivation`]) and
//! evaluated against the variables of a [`scope::Scope`] ([`ast`], with the
//! operators of [`ops`]). Every stage polls a cancellation signal
//! ([`interrupt`]) and gives up with `Interrupted` once it is raised.
//! [`eval::evaluate_to_value`] runs the stages one after the other.
//!
//! The language: integers of any size ([`integer`]), booleans, texts in
//! double quotes without escapes, lists, `null`; names of variables; the
//! prefix operators `-` and `!`; the infix operators `* / %`, `+ -`,
//! `== != < <= > >=`, `&&`, `||`, from the tightest to the loosest, all
//! associating to the left; the conditional `c ? a : b`; and the functions
//! `len`, `abs`, `min`, `max` and `at`. No operator converts a value of one
//! variant into another, and both operands of every infix operator are
//! evaluated.
//!
//! The recursion of the parser and of the evaluator is as deep as the
//! expression is nested.

pub mod ast;
pub mod derivation;
pub mod error;
pub mod eval;
pub mod grammar;
pub mod integer;
pub mod interrupt;
pub mod laws;
pub mod ops;
pub mod parser;
pub mod scope;
pub mod text;
pub mod token;
pub mod value;
