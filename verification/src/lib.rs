//! A minimal Lisp-family expression evaluator.
//!
//! Text is split into tokens, tokens are read into a tree of symbols, numbers and
//! lists, and the tree is evaluated against a chain of scopes.
//!
//! Numbers are IEEE-754 binary64 values, which the library carries as bit patterns.
//! It orders them and tells zero from other numbers itself. Two things it leaves to
//! functions that the caller hands in: the reader, which says whether a token is a
//! number and which, and the kernel, which adds, subtracts, multiplies and divides.
//! What the library does is stated twice: for every reader and kernel, in terms of
//! what they can return (`may_read`, `may_evaluate_to`), and for those that are
//! functions, as the value of a function (`read`, `evaluated`).
pub mod number;
pub mod error;
pub mod value;
pub mod env;
pub mod token;
pub mod parse;
pub mod functions;
pub mod eval;
