//! A compiler for a small scripting language whose programs describe
//! trigger objects of a level: a parse tree is lowered to a syntax tree,
//! the syntax tree is compiled to an ordered sequence of triggers, and
//! the triggers are written out as one level string.

pub mod ast;
pub mod compiler;
pub mod environment;
pub mod error;
pub mod levelstring;
pub mod native;
pub mod number;
pub mod parser;
pub mod pipeline;
pub mod text;
pub mod theorems;
pub mod tree;
