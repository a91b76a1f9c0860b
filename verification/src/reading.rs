//! What reading a value off a run of tokens comes to, failure or not.

use crate::de::{integer_kinds, token_integer, Deserializer};
use crate::error::Error;
use crate::token::{Token, TokenKind};
use vstd::prelude::*;

verus! {

/// Why a value cannot be read off a run of tokens. A place is the number of
/// tokens before the token that is meant.
pub enum Failure {
    /// The tokens run out before the value is complete.
    Ended,
    /// The token at the place is of none of the sorts.
    Mismatch(int, Seq<TokenKind>),
    /// The token at the place carries a name that is not expected there.
    Misnamed(int),
    /// What the token at the place carries does not fit where it should go.
    Misfit(int),
    /// A struct ended without the fields of these names.
    Missing(Seq<Seq<char>>),
}

/// What reading comes to: the value with the number of tokens it takes, or
/// the failure.
pub type Reading<V> = Result<(V, int), Failure>;

impl Failure {
    /// The same failure seen from `by` tokens further back.
    pub open spec fn later(self, by: int) -> Failure {
        match self {
            Failure::Ended => Failure::Ended,
            Failure::Mismatch(at, kinds) => Failure::Mismatch(at + by, kinds),
            Failure::Misnamed(at) => Failure::Misnamed(at + by),
            Failure::Misfit(at) => Failure::Misfit(at + by),
            Failure::Missing(fields) => Failure::Missing(fields),
        }
    }
}

/// The same reading seen from `by` tokens further back.
pub open spec fn after<V>(by: int, reading: Reading<V>) -> Reading<V> {
    match reading {
        Ok((value, used)) => Ok((value, used + by)),
        Err(failure) => Err(failure.later(by)),
    }
}

/// `error` is how the source `D` words `failure` to read off `tokens`. For
/// missing fields it is the error for the first of them.
pub open spec fn reported<D: Deserializer>(tokens: Seq<Token>, failure: Failure,
    error: Error) -> bool {
    match failure {
        Failure::Ended => D::end_of_stream(error),
        Failure::Mismatch(at, kinds) => 0 <= at < tokens.len()
            && D::syntax(tokens[at], kinds, error),
        Failure::Misnamed(at) => 0 <= at < tokens.len() && D::unexpected_name(tokens[at], error),
        Failure::Misfit(at) => 0 <= at < tokens.len() && D::conversion(tokens[at], error),
        Failure::Missing(fields) => fields.len() > 0 && D::missing(fields[0], error),
    }
}

/// The outcome is the error by which the source `D` words `failure`. Where
/// fields are missing and the source may have values to supply, the source
/// decides what comes of it.
pub open spec fn fails_as<D: Deserializer, T>(
    tokens: Seq<Token>,
    failure: Failure,
    outcome: Result<T, Error>,
) -> bool {
    match failure {
        Failure::Missing(_) => !D::has_defaults() ==> (outcome matches Err(error) && reported::<D>(
            tokens,
            failure,
            error,
        )),
        _ => outcome matches Err(error) && reported::<D>(tokens, failure, error),
    }
}

/// Seen from further back twice is seen from further back by the sum.
pub proof fn lemma_after_after<V>(first: int, second: int, reading: Reading<V>)
    ensures
        after(first, after(second, reading)) == after(first + second, reading),
{
}

/// Reading the end of a compound.
pub open spec fn end_reading(tokens: Seq<Token>) -> Reading<()> {
    if tokens.len() == 0 {
        Err(Failure::Ended)
    } else if tokens[0] is End {
        Ok(((), 1))
    } else {
        Err(Failure::Mismatch(0, seq![TokenKind::EndKind]))
    }
}

/// Reading a unit value.
pub open spec fn unit_reading(tokens: Seq<Token>) -> Reading<()> {
    if tokens.len() == 0 {
        Err(Failure::Ended)
    } else if tokens[0] is Null {
        Ok(((), 1))
    } else {
        Err(Failure::Mismatch(0, seq![TokenKind::NullKind]))
    }
}

/// Reading a character.
pub open spec fn char_reading(tokens: Seq<Token>) -> Reading<char> {
    if tokens.len() == 0 {
        Err(Failure::Ended)
    } else if tokens[0] is Char {
        Ok((tokens[0]->Char_0, 1))
    } else {
        Err(Failure::Mismatch(0, seq![TokenKind::CharKind]))
    }
}

/// Reading a text, owned or borrowed.
pub open spec fn string_reading(tokens: Seq<Token>) -> Reading<Seq<char>> {
    if tokens.len() == 0 {
        Err(Failure::Ended)
    } else {
        match tokens[0] {
            Token::String(text) => Ok((text@, 1)),
            Token::Str(text) => Ok((text@, 1)),
            _ => Err(Failure::Mismatch(0, seq![TokenKind::StrKind, TokenKind::StringKind])),
        }
    }
}

/// Reading a signed number from a token of any integer sort.
pub open spec fn int_reading(tokens: Seq<Token>) -> Reading<isize> {
    if tokens.len() == 0 {
        Err(Failure::Ended)
    } else {
        match token_integer(tokens[0]) {
            Some(value) => if isize::MIN <= value <= isize::MAX {
                Ok((value as isize, 1))
            } else {
                Err(Failure::Misfit(0))
            },
            None => Err(Failure::Mismatch(0, integer_kinds())),
        }
    }
}

/// Reading an unsigned number from a token of any integer sort.
pub open spec fn uint_reading(tokens: Seq<Token>) -> Reading<usize> {
    if tokens.len() == 0 {
        Err(Failure::Ended)
    } else {
        match token_integer(tokens[0]) {
            Some(value) => if 0 <= value <= usize::MAX {
                Ok((value as usize, 1))
            } else {
                Err(Failure::Misfit(0))
            },
            None => Err(Failure::Mismatch(0, integer_kinds())),
        }
    }
}

/// Reading an optional character: a mark, and a character after it where
/// the mark says that one is there.
pub open spec fn option_char_reading(tokens: Seq<Token>) -> Reading<Option<char>> {
    if tokens.len() == 0 {
        Err(Failure::Ended)
    } else {
        match tokens[0] {
            Token::Option(false) => Ok((None, 1)),
            Token::Option(true) => if tokens.len() == 1 {
                Err(Failure::Ended)
            } else if tokens[1] is Char {
                Ok((Some(tokens[1]->Char_0), 2))
            } else {
                Err(Failure::Mismatch(1, seq![TokenKind::CharKind]))
            },
            _ => Err(Failure::Mismatch(0, seq![TokenKind::OptionKind])),
        }
    }
}

/// A failure to read the tokens from some place on is a failure, that much
/// later, to read all the tokens.
pub proof fn lemma_reported_later<D: Deserializer>(
    tokens: Seq<Token>,
    tail: Seq<Token>,
    by: int,
    failure: Failure,
    error: Error,
)
    requires
        0 <= by <= tokens.len(),
        tail == tokens.skip(by),
        reported::<D>(tail, failure, error),
    ensures
        reported::<D>(tokens, failure.later(by), error),
{
    match failure {
        Failure::Mismatch(place, _) => {
            assert(tail[place] == tokens[place + by]);
        },
        Failure::Misnamed(place) => {
            assert(tail[place] == tokens[place + by]);
        },
        Failure::Misfit(place) => {
            assert(tail[place] == tokens[place + by]);
        },
        _ => {},
    }
}

} // verus!
