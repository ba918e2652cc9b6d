//! A small interpreter for a parenthesised, Lisp-like expression language.
use vstd::prelude::*;

pub mod builtins;
pub mod env;
pub mod eval;
pub mod expr;
pub mod laws;
pub mod lexer;
pub mod parser;
pub mod text;

verus! {

} // verus!
