//! From text to a program: the lexer and the parser, one after the other.

use vstd::prelude::*;
use crate::lex::{lex, LexError, LexErrorModel, Lexer};
use crate::parse::{parse_tokens, tokens_to_ast, SyntaxError, SyntaxErrorModel};
use crate::tok_ast::{Ast, AstModel};

verus! {

/// Why a text is not a program.
#[derive(Debug, PartialEq, Eq)]
pub enum ParseError {
    /// The text has no tokens.
    Lex(LexError),
    /// The tokens of the text spell no program.
    Syntax(SyntaxError),
}

/// Model of a [`ParseError`].
pub enum ParseErrorModel {
    Lex(LexErrorModel),
    Syntax(SyntaxErrorModel),
}

impl View for ParseError {
    type V = ParseErrorModel;

    open spec fn view(&self) -> ParseErrorModel {
        match self {
            ParseError::Lex(e) => ParseErrorModel::Lex(e@),
            ParseError::Syntax(e) => ParseErrorModel::Syntax(e@),
        }
    }
}

/// The program that a text spells: the program of its tokens.
pub open spec fn parse_text(text: Seq<char>) -> Result<Seq<AstModel>, ParseErrorModel> {
    match lex(text) {
        Err(e) => Err(ParseErrorModel::Lex(e)),
        Ok(toks) => match parse_tokens(toks) {
            Err(e) => Err(ParseErrorModel::Syntax(e)),
            Ok(nodes) => Ok(nodes),
        },
    }
}

/// A parser of program text.
#[derive(Debug)]
pub struct Parser {
    lexer: Lexer,
}

impl Parser {
    /// A parser.
    pub fn new() -> Self {
        Parser { lexer: Lexer::new() }
    }

    /// The program that `input` spells.
    pub fn parse(&self, input: &str) -> (res: Result<Vec<Ast>, ParseError>)
        ensures
            match res {
                Ok(ast) => parse_text(input@) == Ok::<_, ParseErrorModel>(ast.deep_view()),
                Err(e) => parse_text(input@) == Err::<Seq<AstModel>, _>(e@),
            },
    {
        match self.lexer.tokenize(input) {
            Err(e) => Err(ParseError::Lex(e)),
            Ok(tokens) => match tokens_to_ast(&tokens) {
                Err(e) => Err(ParseError::Syntax(e)),
                Ok(ast) => Ok(ast),
            },
        }
    }
}

} // verus!
