//! A verified transpiler for a small statically-typed scripting language.
//!
//! The pipeline has three stages: the lexer turns the source text into a
//! token stream, the parser groups tokens into a flat list of statement
//! nodes, and the generator maps each node to target-language text.

pub mod token;
pub mod lexer;
pub mod syntax;
pub mod parser;
pub mod generator;
pub mod laws;
