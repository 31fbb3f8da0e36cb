//! A verified parser for the Brainfuck grammar.
//!
//! The library turns a source string over the eight-symbol alphabet
//! `> < + - . , [ ]` into an abstract syntax tree, or reports the first
//! violation it meets.  The contracts relate every result to a purely
//! mathematical parser over `Seq<char>`, and a proved round-trip law
//! connects parsing with the canonical rendering of a tree.

pub mod ast;
pub mod parser;
