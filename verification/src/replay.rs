//! A source that hands out tokens it was given.

use crate::de::Deserializer;
use crate::error::Error;
use crate::token::{
    describe_found, describe_mismatch, found_message, syntax_message, Token, TokenKind,
};
use vstd::prelude::*;

verus! {

/// A source that hands out, in order, the tokens it was made from. It words
/// its errors by the sorts of the tokens, and has no value to supply for a
/// field that is missing.
pub struct Replay {
    rest: Vec<Token>,
}

impl Replay {
    /// A source that has `tokens` pending.
    pub fn new(tokens: Vec<Token>) -> (source: Replay)
        ensures
            source.pending() == tokens@,
    {
        let mut tokens = tokens;
        let ghost all = tokens@;
        let mut rest: Vec<Token> = Vec::new();
        loop
            invariant
                tokens@.len() <= all.len(),
                tokens@ == all.take(tokens@.len() as int),
                rest@.reverse() == all.skip(tokens@.len() as int),
            ensures
                tokens@.len() == 0,
            decreases tokens@.len(),
        {
            match tokens.pop() {
                Some(token) => {
                    let ghost before = rest@;
                    rest.push(token);
                    assert(tokens@ =~= all.take(tokens@.len() as int));
                    assert(rest@.reverse() =~= seq![token] + before.reverse());
                    assert(rest@.reverse() =~= all.skip(tokens@.len() as int));
                },
                None => {
                    break ;
                },
            }
        }
        assert(all.skip(0) =~= all);
        Replay { rest }
    }
}

impl Deserializer for Replay {
    closed spec fn pending(&self) -> Seq<Token> {
        self.rest@.reverse()
    }

    fn next(&mut self) -> (r: Option<Result<Token, Error>>) {
        let ghost before = self.rest@;
        match self.rest.pop() {
            Some(token) => {
                assert(self.rest@.reverse() =~= before.reverse().skip(1));
                Some(Ok(token))
            },
            None => None,
        }
    }

    open spec fn end_of_stream(error: Error) -> bool {
        error == Error::EndOfStream
    }

    open spec fn syntax(token: Token, expected: Seq<TokenKind>, error: Error) -> bool {
        error.is_syntax(syntax_message(expected, token.kind_of()))
    }

    open spec fn unexpected_name(token: Token, error: Error) -> bool {
        error.is_unexpected_name(found_message(token.kind_of()))
    }

    open spec fn conversion(token: Token, error: Error) -> bool {
        error.is_conversion(found_message(token.kind_of()))
    }

    open spec fn missing(field: Seq<char>, error: Error) -> bool {
        error matches Error::MissingField(name) && name@ == field
    }

    open spec fn has_defaults() -> bool {
        false
    }

    fn end_of_stream_error(&mut self) -> (error: Error) {
        Error::EndOfStream
    }

    fn syntax_error(&mut self, token: Token, expected: &[TokenKind]) -> (error: Error) {
        Error::SyntaxError(describe_mismatch(expected, token.kind()))
    }

    fn unexpected_name_error(&mut self, token: Token) -> (error: Error) {
        Error::UnexpectedName(describe_found(token.kind()))
    }

    fn conversion_error(&mut self, token: Token) -> (error: Error) {
        Error::ConversionError(describe_found(token.kind()))
    }

    fn missing_field<T>(&mut self, field: &'static str) -> (r: Result<T, Error>)
        ensures
            r is Err,
    {
        Err(Error::MissingField(field))
    }
}

} // verus!
