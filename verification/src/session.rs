//! One line through the whole pipeline: text to tokens, tokens to a tree,
//! the tree to its value.
//!
//! A line that has no tokens is not parsed, and a line that has no tree is
//! not evaluated.
use crate::grammar;
use crate::lexer::{lex_spec, token_views, LexError, Lexer, Token, TokenView};
use crate::parser::ExprView;
use crate::parser::{Error, Expr, Parser};
use crate::repl::{bind, eval, DeclarationView, Repl, Value};
use vstd::prelude::*;

verus! {

/// Why a line has no value.
#[derive(Debug, Clone, Copy, PartialEq, Eq, Structural)]
pub enum Failure {
    /// The line has no tokens.
    Lex(LexError),
    /// The tokens have no tree.
    Parse(Error),
}

/// A parser and an evaluator that take the same lines, one after another.
/// Each keeps its own definitions.
pub struct Session {
    pub parser: Parser,
    pub repl: Repl,
}

impl Session {
    /// What the session `self` is after the line `line`, which `before`
    /// took and which yielded `r`: the parser has read what the grammar
    /// says and recorded what the line defines; where the line has a tree,
    /// `r` holds it with its value, and the evaluator has recorded what the
    /// tree binds; where it has none, `r` is the error and the evaluator is
    /// as it was.
    pub open spec fn took(
        &self,
        before: &Session,
        line: Seq<TokenView>,
        r: Result<(Expr, Value), Error>,
    ) -> bool {
        let names = before.parser.names();
        &&& self.parser.tokens() == line
        &&& self.parser.cursor() == grammar::definition(line, names, 0).cursor
        &&& self.parser.definitions() == grammar::recorded_in(
            before.parser.definitions(),
            grammar::recorded(line, names, 0),
        )
        &&& match r {
            Ok((expr, value)) => {
                &&& grammar::definition(line, names, 0).result == Ok::<ExprView, Error>(expr@)
                &&& value@ == eval(expr@)
                &&& self.repl.definitions() == bind(expr@, before.repl.definitions())
            },
            Err(e) => {
                &&& grammar::definition(line, names, 0).result == Err::<ExprView, Error>(e)
                &&& self.repl.definitions() == before.repl.definitions()
            },
        }
    }

    /// A session in which nothing has been defined.
    pub fn new() -> (r: Session)
        ensures
            r.parser.tokens() == Seq::<TokenView>::empty(),
            r.parser.cursor() == 0,
            r.parser.definitions() == Map::<Seq<char>, ExprView>::empty(),
            r.repl.definitions() == Map::<DeclarationView, ExprView>::empty(),
    {
        Session { parser: Parser::new(), repl: Repl::new() }
    }

    /// Parses the line `tokens` and evaluates its tree. A line without a
    /// tree is not evaluated.
    pub fn parse_and_evaluate(&mut self, tokens: Vec<Token>) -> (r: Result<(Expr, Value), Error>)
        ensures
            final(self).took(old(self), token_views(tokens@), r),
    {
        match self.parser.parse(tokens) {
            Ok(expr) => {
                let value = self.repl.interpret(expr.clone());
                Ok((expr, value))
            },
            Err(e) => Err(e),
        }
    }

    /// Takes the line `line` through the pipeline. A line without tokens
    /// leaves the session as it was.
    pub fn run(&mut self, line: String) -> (r: Result<(Expr, Value), Failure>)
        ensures
            match lex_spec(line@) {
                Err(e) => r == Err::<(Expr, Value), Failure>(Failure::Lex(e)) && *final(self)
                    == *old(self),
                Ok(tokens) => match r {
                    Ok(pair) => final(self).took(old(self), tokens, Ok(pair)),
                    Err(failure) => failure matches Failure::Parse(e) && final(self).took(
                        old(self),
                        tokens,
                        Err(e),
                    ),
                },
            },
    {
        match Lexer::lex(line) {
            Err(e) => Err(Failure::Lex(e)),
            Ok(tokens) => {
                match self.parse_and_evaluate(tokens) {
                    Ok(pair) => Ok(pair),
                    Err(e) => Err(Failure::Parse(e)),
                }
            },
        }
    }
}

} // verus!
