//! Front end of the gwn language: a scanner, a Pratt parser and the AST they build.
//!
//! - `scanner`: tokens from characters, with its model `scan_step` and the whole-source `tokenize`;
//! - `parser`: the rule table and the precedence-climbing parser, with its model `program`;
//! - `ast`, `typ`: the syntax tree and its model;
//! - `error`: the diagnostic protocol and its rendering;
//! - `layout`: blanks and comments between tokens change no token;
//! - `text`: character and string helpers.
use vstd::prelude::*;

pub mod text;
pub mod scanner;
pub mod error;
pub mod typ;
pub mod ast;
pub mod parser;
pub mod layout;

verus! {

} // verus!
