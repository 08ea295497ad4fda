//! The STL and PrSTL syntax tree, plus the lexer and parser that build one.
pub mod analysis;
pub mod ast;
pub mod lexer;
pub mod parser;
pub mod render;
