//! The deserialization interface: a source hands out tokens one at a time,
//! and whoever rebuilds a value reads them in order.

use crate::error::Error;
use crate::reading::{
    char_reading, end_reading, int_reading, option_char_reading, reported, string_reading,
    uint_reading, unit_reading,
};
use crate::token::{Token, TokenKind};
use vstd::prelude::*;
use vstd::string::*;

verus! {

/// A source of tokens: a finite sequence that is read forward, once.
///
/// A source also words the errors of whoever reads it: each kind of failure
/// has an operation that makes the error, and a predicate that says which
/// errors that operation may make.
pub trait Deserializer: Sized {
    /// The tokens that the source has yet to hand out, the next one first.
    spec fn pending(&self) -> Seq<Token>;

    /// Hands out the next token, or `None` once there is none left.
    fn next(&mut self) -> (r: Option<Result<Token, Error>>)
        ensures
            r == (if old(self).pending().len() == 0 {
                None
            } else {
                Some(Ok::<Token, Error>(old(self).pending()[0]))
            }),
            final(self).pending() == (if old(self).pending().len() == 0 {
                old(self).pending()
            } else {
                old(self).pending().skip(1)
            }),
    ;

    /// `error` says that the tokens ran out too early.
    spec fn end_of_stream(error: Error) -> bool;

    /// `error` says that `token` is none of the `expected` sorts.
    spec fn syntax(token: Token, expected: Seq<TokenKind>, error: Error) -> bool;

    /// `error` says that `token` carries a name nobody expected.
    spec fn unexpected_name(token: Token, error: Error) -> bool;

    /// `error` says that what `token` carries does not fit where it should go.
    spec fn conversion(token: Token, error: Error) -> bool;

    /// `error` says that the field named `field` never came.
    spec fn missing(field: Seq<char>, error: Error) -> bool;

    /// The source may have a value to supply for a field that never came.
    spec fn has_defaults() -> bool;

    /// The error for tokens that ran out too early.
    fn end_of_stream_error(&mut self) -> (error: Error)
        ensures
            Self::end_of_stream(error),
            final(self).pending() == old(self).pending(),
    ;

    /// The error for a token that is none of the `expected` sorts.
    fn syntax_error(&mut self, token: Token, expected: &[TokenKind]) -> (error: Error)
        ensures
            Self::syntax(token, expected@, error),
            final(self).pending() == old(self).pending(),
    ;

    /// The error for a token that carries a name nobody expected.
    fn unexpected_name_error(&mut self, token: Token) -> (error: Error)
        ensures
            Self::unexpected_name(token, error),
            final(self).pending() == old(self).pending(),
    ;

    /// The error for a token whose value does not fit where it should go.
    fn conversion_error(&mut self, token: Token) -> (error: Error)
        ensures
            Self::conversion(token, error),
            final(self).pending() == old(self).pending(),
    ;

    /// Supplies a value for a field that never came, or the error to report.
    fn missing_field<T>(&mut self, field: &'static str) -> (r: Result<T, Error>)
        ensures
            r matches Err(error) ==> Self::missing(field@, error),
            !Self::has_defaults() ==> r is Err,
            final(self).pending() == old(self).pending(),
    ;
}

/// What is left of `tokens` after the first, if there is one.
pub open spec fn after_first(tokens: Seq<Token>) -> Seq<Token> {
    if tokens.len() == 0 {
        tokens
    } else {
        tokens.skip(1)
    }
}

/// The integer that a token carries, if it is of an integer sort.
pub open spec fn token_integer(token: Token) -> Option<int> {
    match token {
        Token::Int(x) => Some(x as int),
        Token::I8(x) => Some(x as int),
        Token::I16(x) => Some(x as int),
        Token::I32(x) => Some(x as int),
        Token::I64(x) => Some(x as int),
        Token::Uint(x) => Some(x as int),
        Token::U8(x) => Some(x as int),
        Token::U16(x) => Some(x as int),
        Token::U32(x) => Some(x as int),
        Token::U64(x) => Some(x as int),
        _ => None,
    }
}

/// The sorts of token that carry an integer.
pub open spec fn integer_kinds() -> Seq<TokenKind> {
    seq![
        TokenKind::IntKind,
        TokenKind::I8Kind,
        TokenKind::I16Kind,
        TokenKind::I32Kind,
        TokenKind::I64Kind,
        TokenKind::UintKind,
        TokenKind::U8Kind,
        TokenKind::U16Kind,
        TokenKind::U32Kind,
        TokenKind::U64Kind,
    ]
}

/// Takes the next token; the source's end-of-stream error where none is left.
pub fn expect_token<D: Deserializer>(d: &mut D) -> (r: Result<Token, Error>)
    ensures
        final(d).pending() == after_first(old(d).pending()),
        match r {
            Ok(token) => old(d).pending().len() > 0 && token == old(d).pending()[0],
            Err(error) => old(d).pending().len() == 0 && D::end_of_stream(error),
        },
{
    match d.next() {
        Some(Ok(token)) => Ok(token),
        Some(Err(error)) => Err(error),
        None => Err(d.end_of_stream_error()),
    }
}

/// Reads the `End` that closes a compound.
pub fn expect_end<D: Deserializer>(d: &mut D) -> (r: Result<(), Error>)
    ensures
        final(d).pending().len() <= old(d).pending().len(),
        match end_reading(old(d).pending()) {
            Ok((value, used)) => r == Ok::<(), Error>(value)
                && final(d).pending() == old(d).pending().skip(used),
            Err(failure) => r matches Err(error) && reported::<D>(
                old(d).pending(),
                failure,
                error,
            ),
        },
{
    match expect_token(d) {
        Err(error) => Err(error),
        Ok(Token::End) => Ok(()),
        Ok(token) => {
            let expected = [TokenKind::EndKind];
            assert(expected@ =~= seq![TokenKind::EndKind]);
            Err(d.syntax_error(token, &expected))
        },
    }
}

/// Reads a unit value: a `Null`.
pub fn deserialize_unit<D: Deserializer>(d: &mut D) -> (r: Result<(), Error>)
    ensures
        final(d).pending().len() <= old(d).pending().len(),
        match unit_reading(old(d).pending()) {
            Ok((value, used)) => r == Ok::<(), Error>(value)
                && final(d).pending() == old(d).pending().skip(used),
            Err(failure) => r matches Err(error) && reported::<D>(
                old(d).pending(),
                failure,
                error,
            ),
        },
{
    match expect_token(d) {
        Err(error) => Err(error),
        Ok(Token::Null) => Ok(()),
        Ok(token) => {
            let expected = [TokenKind::NullKind];
            assert(expected@ =~= seq![TokenKind::NullKind]);
            Err(d.syntax_error(token, &expected))
        },
    }
}

/// Reads a character.
pub fn deserialize_char<D: Deserializer>(d: &mut D) -> (r: Result<char, Error>)
    ensures
        final(d).pending().len() <= old(d).pending().len(),
        match char_reading(old(d).pending()) {
            Ok((value, used)) => r == Ok::<char, Error>(value)
                && final(d).pending() == old(d).pending().skip(used),
            Err(failure) => r matches Err(error) && reported::<D>(
                old(d).pending(),
                failure,
                error,
            ),
        },
{
    match expect_token(d) {
        Err(error) => Err(error),
        Ok(Token::Char(c)) => Ok(c),
        Ok(token) => {
            let expected = [TokenKind::CharKind];
            assert(expected@ =~= seq![TokenKind::CharKind]);
            Err(d.syntax_error(token, &expected))
        },
    }
}

/// Reads a text, owned or borrowed.
pub fn deserialize_string<D: Deserializer>(d: &mut D) -> (r: Result<String, Error>)
    ensures
        final(d).pending().len() <= old(d).pending().len(),
        match string_reading(old(d).pending()) {
            Ok((value, used)) => (r matches Ok(out) && out@ == value)
                && final(d).pending() == old(d).pending().skip(used),
            Err(failure) => r matches Err(error) && reported::<D>(
                old(d).pending(),
                failure,
                error,
            ),
        },
{
    match expect_token(d) {
        Err(error) => Err(error),
        Ok(Token::String(s)) => Ok(s),
        Ok(Token::Str(s)) => Ok(s.to_string()),
        Ok(token) => {
            let expected = [TokenKind::StrKind, TokenKind::StringKind];
            assert(expected@ =~= seq![TokenKind::StrKind, TokenKind::StringKind]);
            Err(d.syntax_error(token, &expected))
        },
    }
}

/// The signed number that `token` carries, as far as it fits.
fn token_to_isize(token: &Token) -> (r: Option<isize>)
    ensures
        r == (match token_integer(*token) {
            Some(value) => if isize::MIN <= value <= isize::MAX {
                Some(value as isize)
            } else {
                None
            },
            None => None,
        }),
{
    match token {
        Token::Int(x) => Some(*x),
        Token::I8(x) => Some(*x as isize),
        Token::I16(x) => Some(*x as isize),
        Token::I32(x) => Some(*x as isize),
        Token::I64(x) => {
            if isize::MIN as i64 <= *x && *x <= isize::MAX as i64 {
                Some(*x as isize)
            } else {
                None
            }
        },
        Token::Uint(x) => {
            if *x <= isize::MAX as usize {
                Some(*x as isize)
            } else {
                None
            }
        },
        Token::U8(x) => Some(*x as isize),
        Token::U16(x) => Some(*x as isize),
        Token::U32(x) => {
            if *x as u64 <= isize::MAX as u64 {
                Some(*x as isize)
            } else {
                None
            }
        },
        Token::U64(x) => {
            if *x <= isize::MAX as u64 {
                Some(*x as isize)
            } else {
                None
            }
        },
        _ => None,
    }
}

/// The unsigned number that `token` carries, as far as it fits.
fn token_to_usize(token: &Token) -> (r: Option<usize>)
    ensures
        r == (match token_integer(*token) {
            Some(value) => if 0 <= value <= usize::MAX {
                Some(value as usize)
            } else {
                None
            },
            None => None,
        }),
{
    match token {
        Token::Int(x) => {
            if *x >= 0 {
                Some(*x as usize)
            } else {
                None
            }
        },
        Token::I8(x) => {
            if *x >= 0 {
                Some(*x as usize)
            } else {
                None
            }
        },
        Token::I16(x) => {
            if *x >= 0 {
                Some(*x as usize)
            } else {
                None
            }
        },
        Token::I32(x) => {
            if *x >= 0 {
                Some(*x as usize)
            } else {
                None
            }
        },
        Token::I64(x) => {
            if *x >= 0 && *x as u64 <= usize::MAX as u64 {
                Some(*x as usize)
            } else {
                None
            }
        },
        Token::Uint(x) => Some(*x),
        Token::U8(x) => Some(*x as usize),
        Token::U16(x) => Some(*x as usize),
        Token::U32(x) => Some(*x as usize),
        Token::U64(x) => {
            if *x <= usize::MAX as u64 {
                Some(*x as usize)
            } else {
                None
            }
        },
        _ => None,
    }
}

/// The sorts of token that carry an integer.
fn expected_integers() -> (kinds: [TokenKind; 10])
    ensures
        kinds@ == integer_kinds(),
{
    let kinds = [
        TokenKind::IntKind,
        TokenKind::I8Kind,
        TokenKind::I16Kind,
        TokenKind::I32Kind,
        TokenKind::I64Kind,
        TokenKind::UintKind,
        TokenKind::U8Kind,
        TokenKind::U16Kind,
        TokenKind::U32Kind,
        TokenKind::U64Kind,
    ];
    assert(kinds@ =~= integer_kinds());
    kinds
}

/// Reads a signed number from a token of any integer sort.
pub fn deserialize_int<D: Deserializer>(d: &mut D) -> (r: Result<isize, Error>)
    ensures
        final(d).pending().len() <= old(d).pending().len(),
        match int_reading(old(d).pending()) {
            Ok((value, used)) => r == Ok::<isize, Error>(value)
                && final(d).pending() == old(d).pending().skip(used),
            Err(failure) => r matches Err(error) && reported::<D>(
                old(d).pending(),
                failure,
                error,
            ),
        },
{
    match expect_token(d) {
        Err(error) => Err(error),
        Ok(token) => {
            match token_to_isize(&token) {
                Some(number) => Ok(number),
                None => {
                    if is_integer(&token) {
                        Err(d.conversion_error(token))
                    } else {
                        let expected = expected_integers();
                        Err(d.syntax_error(token, &expected))
                    }
                },
            }
        },
    }
}

/// Reads an unsigned number from a token of any integer sort.
pub fn deserialize_uint<D: Deserializer>(d: &mut D) -> (r: Result<usize, Error>)
    ensures
        final(d).pending().len() <= old(d).pending().len(),
        match uint_reading(old(d).pending()) {
            Ok((value, used)) => r == Ok::<usize, Error>(value)
                && final(d).pending() == old(d).pending().skip(used),
            Err(failure) => r matches Err(error) && reported::<D>(
                old(d).pending(),
                failure,
                error,
            ),
        },
{
    match expect_token(d) {
        Err(error) => Err(error),
        Ok(token) => {
            match token_to_usize(&token) {
                Some(number) => Ok(number),
                None => {
                    if is_integer(&token) {
                        Err(d.conversion_error(token))
                    } else {
                        let expected = expected_integers();
                        Err(d.syntax_error(token, &expected))
                    }
                },
            }
        },
    }
}

/// Tells whether a token is of an integer sort.
fn is_integer(token: &Token) -> (r: bool)
    ensures
        r == token_integer(*token).is_some(),
{
    match token {
        Token::Int(_) | Token::I8(_) | Token::I16(_) | Token::I32(_) | Token::I64(_) => true,
        Token::Uint(_) | Token::U8(_) | Token::U16(_) | Token::U32(_) | Token::U64(_) => true,
        _ => false,
    }
}

/// Reads an optional character: a mark, and a character after it where the
/// mark says that one is there.
pub fn deserialize_option_char<D: Deserializer>(d: &mut D) -> (r: Result<Option<char>, Error>)
    ensures
        final(d).pending().len() <= old(d).pending().len(),
        match option_char_reading(old(d).pending()) {
            Ok((value, used)) => r == Ok::<Option<char>, Error>(value) && final(d).pending()
                == old(d).pending().skip(used),
            Err(failure) => r matches Err(error) && reported::<D>(
                old(d).pending(),
                failure,
                error,
            ),
        },
{
    let ghost tokens = d.pending();
    match expect_token(d) {
        Err(error) => Err(error),
        Ok(Token::Option(present)) => {
            if present {
                assert(tokens.len() > 1 ==> tokens.skip(1)[0] == tokens[1]);
                assert(tokens.len() > 1 ==> tokens.skip(1).skip(1) =~= tokens.skip(2));
                match deserialize_char(d) {
                    Ok(c) => Ok(Some(c)),
                    Err(error) => Err(error),
                }
            } else {
                Ok(None)
            }
        },
        Ok(token) => {
            let expected = [TokenKind::OptionKind];
            assert(expected@ =~= seq![TokenKind::OptionKind]);
            Err(d.syntax_error(token, &expected))
        },
    }
}

/// Takes a text out of a token already read.
pub fn string_from_token<D: Deserializer>(d: &mut D, token: Token) -> (r: Result<String, Error>)
    ensures
        final(d).pending() == old(d).pending(),
        match token {
            Token::String(text) => r == Ok::<String, Error>(text),
            Token::Str(text) => r matches Ok(out) && out@ == text@,
            _ => r matches Err(error) && D::syntax(
                token,
                seq![TokenKind::StrKind, TokenKind::StringKind],
                error,
            ),
        },
{
    match token {
        Token::String(text) => Ok(text),
        Token::Str(text) => Ok(text.to_string()),
        other => {
            let expected = [TokenKind::StrKind, TokenKind::StringKind];
            assert(expected@ =~= seq![TokenKind::StrKind, TokenKind::StringKind]);
            Err(d.syntax_error(other, &expected))
        },
    }
}

} // verus!
