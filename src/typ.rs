//! Types of expressions, as far as parsing knows them.
use vstd::prelude::*;

verus! {

/// The type of an expression; `Unknown` until a later phase resolves it.
#[derive(Debug, PartialEq)]
pub enum Typ {
    Unknown,
    Int,
    Float,
    Bool,
    String,
    List(Box<Typ>),
    Func(Box<Typ>, Box<Typ>),
}

} // verus!
