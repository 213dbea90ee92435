//! A small dynamically typed scripting language: a lexer turns source text
//! into tokens, a precedence-climbing parser builds an abstract syntax tree,
//! and a tree-walking evaluator executes that tree against a chain of lexical
//! scopes with closures, arrays, dictionaries and native functions.
//!
//! The lexer and the whole runtime model — values, scopes, dictionary keys
//! and the evaluator — are specified by spec functions over ghost mirrors
//! of the token, syntax-tree and value types, and the executable code is
//! proved to compute exactly what those models say. The parser is verified
//! to be panic-free and terminating, with progress and error-reporting
//! contracts; the trees it builds are pinned down by the test suite.

pub mod ast;
pub mod builtins;
pub mod evaluator;
pub mod lexer;
pub mod parser;
pub mod object;
pub mod token;

use vstd::prelude::*;

verus! {

} // verus!
