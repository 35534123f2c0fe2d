//! Front end for a small class-based scripting language: a tokenizer that
//! turns source text into positioned tokens, and a recursive-descent parser
//! that turns tokens into a tree of class and variable declarations.
use vstd::prelude::*;

pub mod lexer;
pub mod number;
pub mod parser;
pub mod scan;

verus! {

} // verus!
