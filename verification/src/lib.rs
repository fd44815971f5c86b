//! Front end of a small statically typed language.
//!
//! `lexer` turns characters into tokens and `parser` turns tokens into
//! syntax trees; what they compute is laid down in `lexer` itself and in
//! `grammar`. `analysis` infers types over the stack-machine IR of `ir`:
//! it generates equality constraints between the type terms of `types`,
//! normalizes them (`constraints`), adds the defaults for literals and
//! resolves them into the procedure bodies (`solver`).

pub mod advance;
pub mod analysis;
pub mod ast;
pub mod constraints;
pub mod errors;
pub mod grammar;
pub mod ir;
pub mod lexer;
pub mod parser;
pub mod scope;
pub mod solver;
mod text;
pub mod token;
pub mod types;
