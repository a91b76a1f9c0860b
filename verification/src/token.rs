//! The tokens that flow from a source to whoever rebuilds a value.

use vstd::prelude::*;
use vstd::string::*;

verus! {

/// One unit of serialized information.
///
/// A floating-point number travels as its IEEE 754 bit pattern.
#[derive(Debug, PartialEq, Eq)]
pub enum Token {
    Null,
    Bool(bool),
    Int(isize),
    I8(i8),
    I16(i16),
    I32(i32),
    I64(i64),
    Uint(usize),
    U8(u8),
    U16(u16),
    U32(u32),
    U64(u64),
    F32(u32),
    F64(u64),
    Char(char),
    Str(&'static str),
    String(String),
    Option(bool),
    TupleStart(usize),
    StructStart(&'static str, usize),
    EnumStart(&'static str, &'static str, usize),
    SeqStart(usize),
    MapStart(usize),
    End,
}

/// What sort of token a [`Token`] is, without what it carries.
#[derive(Clone, Copy, Debug, PartialEq, Eq, Structural)]
pub enum TokenKind {
    NullKind,
    BoolKind,
    IntKind,
    I8Kind,
    I16Kind,
    I32Kind,
    I64Kind,
    UintKind,
    U8Kind,
    U16Kind,
    U32Kind,
    U64Kind,
    F32Kind,
    F64Kind,
    CharKind,
    StrKind,
    StringKind,
    OptionKind,
    TupleStartKind,
    StructStartKind,
    EnumStartKind,
    SeqStartKind,
    MapStartKind,
    EndKind,
}

impl Token {
    /// The sort of this token.
    pub open spec fn kind_of(self) -> TokenKind {
        match self {
            Token::Null => TokenKind::NullKind,
            Token::Bool(_) => TokenKind::BoolKind,
            Token::Int(_) => TokenKind::IntKind,
            Token::I8(_) => TokenKind::I8Kind,
            Token::I16(_) => TokenKind::I16Kind,
            Token::I32(_) => TokenKind::I32Kind,
            Token::I64(_) => TokenKind::I64Kind,
            Token::Uint(_) => TokenKind::UintKind,
            Token::U8(_) => TokenKind::U8Kind,
            Token::U16(_) => TokenKind::U16Kind,
            Token::U32(_) => TokenKind::U32Kind,
            Token::U64(_) => TokenKind::U64Kind,
            Token::F32(_) => TokenKind::F32Kind,
            Token::F64(_) => TokenKind::F64Kind,
            Token::Char(_) => TokenKind::CharKind,
            Token::Str(_) => TokenKind::StrKind,
            Token::String(_) => TokenKind::StringKind,
            Token::Option(_) => TokenKind::OptionKind,
            Token::TupleStart(_) => TokenKind::TupleStartKind,
            Token::StructStart(_, _) => TokenKind::StructStartKind,
            Token::EnumStart(_, _, _) => TokenKind::EnumStartKind,
            Token::SeqStart(_) => TokenKind::SeqStartKind,
            Token::MapStart(_) => TokenKind::MapStartKind,
            Token::End => TokenKind::EndKind,
        }
    }

    /// The sort of this token.
    pub fn kind(&self) -> (kind: TokenKind)
        ensures
            kind == self.kind_of(),
    {
        match self {
            Token::Null => TokenKind::NullKind,
            Token::Bool(_) => TokenKind::BoolKind,
            Token::Int(_) => TokenKind::IntKind,
            Token::I8(_) => TokenKind::I8Kind,
            Token::I16(_) => TokenKind::I16Kind,
            Token::I32(_) => TokenKind::I32Kind,
            Token::I64(_) => TokenKind::I64Kind,
            Token::Uint(_) => TokenKind::UintKind,
            Token::U8(_) => TokenKind::U8Kind,
            Token::U16(_) => TokenKind::U16Kind,
            Token::U32(_) => TokenKind::U32Kind,
            Token::U64(_) => TokenKind::U64Kind,
            Token::F32(_) => TokenKind::F32Kind,
            Token::F64(_) => TokenKind::F64Kind,
            Token::Char(_) => TokenKind::CharKind,
            Token::Str(_) => TokenKind::StrKind,
            Token::String(_) => TokenKind::StringKind,
            Token::Option(_) => TokenKind::OptionKind,
            Token::TupleStart(_) => TokenKind::TupleStartKind,
            Token::StructStart(_, _) => TokenKind::StructStartKind,
            Token::EnumStart(_, _, _) => TokenKind::EnumStartKind,
            Token::SeqStart(_) => TokenKind::SeqStartKind,
            Token::MapStart(_) => TokenKind::MapStartKind,
            Token::End => TokenKind::EndKind,
        }
    }

    /// This token opens a compound that an `End` must close.
    pub open spec fn opens(self) -> bool {
        self is TupleStart || self is StructStart || self is EnumStart || self is SeqStart
            || self is MapStart
    }
}

impl TokenKind {
    /// The name of this sort of token.
    pub open spec fn name_of(self) -> Seq<char> {
        match self {
            TokenKind::NullKind => "Null"@,
            TokenKind::BoolKind => "Bool"@,
            TokenKind::IntKind => "Int"@,
            TokenKind::I8Kind => "I8"@,
            TokenKind::I16Kind => "I16"@,
            TokenKind::I32Kind => "I32"@,
            TokenKind::I64Kind => "I64"@,
            TokenKind::UintKind => "Uint"@,
            TokenKind::U8Kind => "U8"@,
            TokenKind::U16Kind => "U16"@,
            TokenKind::U32Kind => "U32"@,
            TokenKind::U64Kind => "U64"@,
            TokenKind::F32Kind => "F32"@,
            TokenKind::F64Kind => "F64"@,
            TokenKind::CharKind => "Char"@,
            TokenKind::StrKind => "Str"@,
            TokenKind::StringKind => "String"@,
            TokenKind::OptionKind => "Option"@,
            TokenKind::TupleStartKind => "TupleStart"@,
            TokenKind::StructStartKind => "StructStart"@,
            TokenKind::EnumStartKind => "EnumStart"@,
            TokenKind::SeqStartKind => "SeqStart"@,
            TokenKind::MapStartKind => "MapStart"@,
            TokenKind::EndKind => "End"@,
        }
    }

    /// The name of this sort of token.
    pub fn name(&self) -> (name: &'static str)
        ensures
            name@ == self.name_of(),
    {
        match self {
            TokenKind::NullKind => "Null",
            TokenKind::BoolKind => "Bool",
            TokenKind::IntKind => "Int",
            TokenKind::I8Kind => "I8",
            TokenKind::I16Kind => "I16",
            TokenKind::I32Kind => "I32",
            TokenKind::I64Kind => "I64",
            TokenKind::UintKind => "Uint",
            TokenKind::U8Kind => "U8",
            TokenKind::U16Kind => "U16",
            TokenKind::U32Kind => "U32",
            TokenKind::U64Kind => "U64",
            TokenKind::F32Kind => "F32",
            TokenKind::F64Kind => "F64",
            TokenKind::CharKind => "Char",
            TokenKind::StrKind => "Str",
            TokenKind::StringKind => "String",
            TokenKind::OptionKind => "Option",
            TokenKind::TupleStartKind => "TupleStart",
            TokenKind::StructStartKind => "StructStart",
            TokenKind::EnumStartKind => "EnumStart",
            TokenKind::SeqStartKind => "SeqStart",
            TokenKind::MapStartKind => "MapStart",
            TokenKind::EndKind => "End",
        }
    }
}

/// The names of the sorts, in order, with a comma and a blank between them.
pub open spec fn kinds_text(kinds: Seq<TokenKind>) -> Seq<char>
    decreases kinds.len(),
{
    if kinds.len() == 0 {
        Seq::empty()
    } else if kinds.len() == 1 {
        kinds[0].name_of()
    } else {
        kinds_text(kinds.drop_last()) + ", "@ + kinds.last().name_of()
    }
}

/// The text that says which sorts of token were expected and which was found.
pub open spec fn syntax_message(expected: Seq<TokenKind>, found: TokenKind) -> Seq<char> {
    "expected "@ + kinds_text(expected) + ", found "@ + found.name_of()
}

/// The text that says which sort of token was found.
pub open spec fn found_message(found: TokenKind) -> Seq<char> {
    "found "@ + found.name_of()
}

/// Writes out which sorts of token were expected and which was found.
pub fn describe_mismatch(expected: &[TokenKind], found: TokenKind) -> (text: String)
    ensures
        text@ == syntax_message(expected@, found),
{
    let mut text = "expected ".to_string();
    let n = expected.len();
    let mut at: usize = 0;
    while at < n
        invariant
            n == expected@.len(),
            at <= n,
            text@ == "expected "@ + kinds_text(expected@.take(at as int)),
        decreases n - at,
    {
        let ghost done = expected@.take(at as int);
        let ghost next = expected@.take(at + 1);
        assert(next.drop_last() =~= done);
        assert(next.last() == expected@[at as int]);
        if at > 0 {
            text.append(", ");
        }
        text.append(expected[at].name());
        assert(text@ =~= "expected "@ + kinds_text(next));
        at += 1;
    }
    assert(expected@.take(n as int) =~= expected@);
    text.append(", found ");
    text.append(found.name());
    assert(text@ =~= syntax_message(expected@, found));
    text
}

/// Writes out which sort of token was found.
pub fn describe_found(found: TokenKind) -> (text: String)
    ensures
        text@ == found_message(found),
{
    let mut text = "found ".to_string();
    text.append(found.name());
    text
}

/// How many compounds stand open once `tokens` have gone by, `depth` of them
/// having stood open before; `None` where an `End` comes with none open.
pub open spec fn depth_after(depth: nat, tokens: Seq<Token>) -> Option<nat>
    decreases tokens.len(),
{
    if tokens.len() == 0 {
        Some(depth)
    } else if tokens.first().opens() {
        depth_after(depth + 1, tokens.drop_first())
    } else if tokens.first() is End {
        if depth == 0 {
            None
        } else {
            depth_after((depth - 1) as nat, tokens.drop_first())
        }
    } else {
        depth_after(depth, tokens.drop_first())
    }
}

/// Every start among `tokens` is closed by one `End` after it, and every
/// `End` closes the nearest start still open before it.
pub open spec fn well_nested(tokens: Seq<Token>) -> bool {
    depth_after(0, tokens) == Some(0nat)
}

/// Tokens that go by one run after another leave open what the second run
/// leaves open after the first.
pub proof fn lemma_depth_of_runs(depth: nat, first: Seq<Token>, second: Seq<Token>)
    ensures
        depth_after(depth, first + second) == match depth_after(depth, first) {
            Some(between) => depth_after(between, second),
            None => None,
        },
    decreases first.len(),
{
    if first.len() == 0 {
        assert(first + second =~= second);
    } else {
        let whole = first + second;
        assert(whole.first() == first.first());
        assert(whole.drop_first() =~= first.drop_first() + second);
        if first.first().opens() {
            lemma_depth_of_runs(depth + 1, first.drop_first(), second);
        } else if first.first() is End {
            if depth > 0 {
                lemma_depth_of_runs((depth - 1) as nat, first.drop_first(), second);
            }
        } else {
            lemma_depth_of_runs(depth, first.drop_first(), second);
        }
    }
}

} // verus!
