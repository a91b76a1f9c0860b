//! The failures that decoding and deserialization report.

use vstd::prelude::*;

verus! {

/// Why a value could not be rebuilt.
#[derive(Debug, PartialEq, Eq)]
pub enum Error {
    /// The source ran out before the value was complete.
    EndOfStream,
    /// What the source holds next is not what was asked for; the text says
    /// what was expected or found, and may be empty.
    SyntaxError(String),
    /// A struct, enum, variant or field goes by another name than expected.
    UnexpectedName(String),
    /// A value does not fit the type it was asked as.
    ConversionError(String),
    /// A struct ended before the named field appeared.
    MissingField(&'static str),
    /// Any other failure, in the words of whoever raised it.
    OtherError(String),
}

impl Error {
    /// This is a syntax error whose text is `why`.
    pub open spec fn is_syntax(self, why: Seq<char>) -> bool {
        self matches Error::SyntaxError(text) && text@ == why
    }

    /// This is an unexpected-name error whose text is `why`.
    pub open spec fn is_unexpected_name(self, why: Seq<char>) -> bool {
        self matches Error::UnexpectedName(text) && text@ == why
    }

    /// This is a conversion error whose text is `why`.
    pub open spec fn is_conversion(self, why: Seq<char>) -> bool {
        self matches Error::ConversionError(text) && text@ == why
    }

    /// This is the error raised in the words `why`.
    pub open spec fn is_other(self, why: Seq<char>) -> bool {
        self matches Error::OtherError(text) && text@ == why
    }
}

/// The outcome is a syntax error whose text is `why`.
pub open spec fn refused<T>(outcome: Result<T, Error>, why: Seq<char>) -> bool {
    outcome matches Err(error) && error.is_syntax(why)
}

/// A syntax error with the given text.
pub fn syntax_error(why: &str) -> (error: Error)
    ensures
        error.is_syntax(why@),
{
    Error::SyntaxError(why.to_string())
}

/// A syntax error without text.
pub fn bare_syntax_error() -> (error: Error)
    ensures
        error.is_syntax(Seq::empty()),
{
    Error::SyntaxError(String::new())
}

} // verus!
