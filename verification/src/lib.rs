//! A small stack language: a lexer, a parser and an execution engine.
//!
//! Text is split into tokens ([`lex`]), tokens are grouped into instructions
//! and word definitions ([`parse`]), and an engine ([`vm`]) executes them
//! against a value stack and a dictionary of words.

pub mod builtin_words;
pub mod lex;
pub mod lex_laws;
pub mod parse;
pub mod parser;
pub mod tok_ast;
pub mod vm;
pub mod vm_laws;

pub use crate::builtin_words::{initial_word_map, Builtin, VmError, Word, WordMap};
pub use crate::lex::{LexError, Lexer};
pub use crate::parse::{tokens_to_ast, SyntaxError};
pub use crate::parser::{ParseError, Parser};
pub use crate::tok_ast::{Ast, Atom, Prim, Tok};
pub use crate::vm::{Output, Vm};
