//! The nested struct, read token by token.

use crate::char_map::Letter;
use crate::de::Deserializer;
use crate::decoder::popped;
use crate::error::Error;
use crate::outer::{
    entry_items, inner_children, map_children, outer_children, vec_children, Inner, Outer,
    OuterAdapter, OuterItem,
};
use crate::token::{
    describe_found, describe_mismatch, found_message, syntax_message, Token, TokenKind,
};
use vstd::prelude::*;

verus! {

/// The tokens that stand for one entry of a mapping.
pub open spec fn entry_tokens(entry: (String, Letter)) -> Seq<Token> {
    match entry.1 {
        Letter::Present(c) => seq![Token::String(entry.0), Token::Option(true), Token::Char(c)],
        Letter::Absent => seq![Token::String(entry.0), Token::Option(false)],
    }
}

/// The tokens that stand for the entries of a mapping: those of the entry
/// listed last come first.
pub open spec fn entries_tokens(entries: Seq<(String, Letter)>) -> Seq<Token>
    decreases entries.len(),
{
    if entries.len() == 0 {
        Seq::empty()
    } else {
        entry_tokens(entries.last()) + entries_tokens(entries.drop_last())
    }
}

/// The tokens that stand for a mapping.
pub open spec fn map_tokens(entries: Seq<(String, Letter)>) -> Seq<Token> {
    seq![Token::MapStart(entries.len() as usize)] + entries_tokens(entries) + seq![Token::End]
}

/// The tokens that stand for an inner struct.
pub open spec fn inner_tokens(inner: Inner) -> Seq<Token> {
    seq![
        Token::StructStart("Inner", 3),
        Token::Str("a"),
        Token::Null,
        Token::Str("b"),
        Token::Uint(inner.b),
        Token::Str("c"),
    ] + map_tokens(inner.c.listing()) + seq![Token::End]
}

/// The tokens that stand for inner structs one after another.
pub open spec fn inners_tokens(items: Seq<Inner>) -> Seq<Token>
    decreases items.len(),
{
    if items.len() == 0 {
        Seq::empty()
    } else {
        inner_tokens(items.first()) + inners_tokens(items.drop_first())
    }
}

/// The tokens that stand for a sequence of inner structs.
pub open spec fn vec_tokens(items: Seq<Inner>) -> Seq<Token> {
    seq![Token::SeqStart(items.len() as usize)] + inners_tokens(items) + seq![Token::End]
}

/// The tokens that stand for an outer struct.
pub open spec fn outer_tokens(outer: Outer) -> Seq<Token> {
    seq![Token::StructStart("Outer", 1), Token::Str("inner")] + vec_tokens(outer.inner@) + seq![
        Token::End,
    ]
}

/// The tokens that stand for a work item.
pub open spec fn item_tokens(item: OuterItem) -> Seq<Token> {
    match item {
        OuterItem::OuterState(outer) => outer_tokens(outer),
        OuterItem::InnerState(inner) => inner_tokens(inner),
        OuterItem::FieldState(name) => seq![Token::Str(name)],
        OuterItem::NullState => seq![Token::Null],
        OuterItem::UintState(value) => seq![Token::Uint(value)],
        OuterItem::CharState(c) => seq![Token::Char(c)],
        OuterItem::StringState(text) => seq![Token::String(text)],
        OuterItem::OptionState(present) => seq![Token::Option(present)],
        OuterItem::VecState(items) => vec_tokens(items@),
        OuterItem::MapState(map) => map_tokens(map.listing()),
        OuterItem::EndState => seq![Token::End],
    }
}

/// The tokens that a stack of work items stands for, those of the top first.
pub open spec fn stack_tokens(stack: Seq<OuterItem>) -> Seq<Token>
    decreases stack.len(),
{
    if stack.len() == 0 {
        Seq::empty()
    } else {
        item_tokens(stack.last()) + stack_tokens(stack.drop_last())
    }
}

/// An item put on a stack puts its tokens before those of the stack.
pub proof fn lemma_pushed_tokens(stack: Seq<OuterItem>, item: OuterItem)
    ensures
        stack_tokens(stack.push(item)) == item_tokens(item) + stack_tokens(stack),
{
    assert(stack.push(item).drop_last() =~= stack);
}

/// Items put on a stack put their tokens before those of the stack.
pub proof fn lemma_stacked_tokens(below: Seq<OuterItem>, above: Seq<OuterItem>)
    ensures
        stack_tokens(below + above) == stack_tokens(above) + stack_tokens(below),
    decreases above.len(),
{
    if above.len() == 0 {
        assert(below + above =~= below);
        assert(stack_tokens(above) + stack_tokens(below) =~= stack_tokens(below));
    } else {
        let whole = below + above;
        assert(whole.drop_last() =~= below + above.drop_last());
        assert(whole.last() == above.last());
        lemma_stacked_tokens(below, above.drop_last());
        assert(stack_tokens(whole) =~= stack_tokens(above) + stack_tokens(below));
    }
}

/// The entries of a mapping, laid out as work items, stand for the tokens of
/// the entries.
pub proof fn lemma_map_children_tokens(entries: Seq<(String, Letter)>)
    ensures
        stack_tokens(map_children(entries)) == entries_tokens(entries),
    decreases entries.len(),
{
    if entries.len() > 0 {
        let front = entries.drop_last();
        let last = entries.last();
        lemma_map_children_tokens(front);
        lemma_stacked_tokens(map_children(front), entry_items(last));
        assert(stack_tokens(entry_items(last)) =~= entry_tokens(last)) by {
            lemma_entry_items_tokens(last);
        }
    }
}

/// One entry, laid out as work items, stands for the tokens of the entry.
proof fn lemma_entry_items_tokens(entry: (String, Letter))
    ensures
        stack_tokens(entry_items(entry)) == entry_tokens(entry),
{
    let none = Seq::<OuterItem>::empty();
    match entry.1 {
        Letter::Present(c) => {
            let one = none.push(OuterItem::CharState(c));
            let two = one.push(OuterItem::OptionState(true));
            lemma_pushed_tokens(none, OuterItem::CharState(c));
            lemma_pushed_tokens(one, OuterItem::OptionState(true));
            lemma_pushed_tokens(two, OuterItem::StringState(entry.0));
            assert(entry_items(entry) =~= two.push(OuterItem::StringState(entry.0)));
            assert(stack_tokens(entry_items(entry)) =~= entry_tokens(entry));
        },
        Letter::Absent => {
            let one = none.push(OuterItem::OptionState(false));
            lemma_pushed_tokens(none, OuterItem::OptionState(false));
            lemma_pushed_tokens(one, OuterItem::StringState(entry.0));
            assert(entry_items(entry) =~= one.push(OuterItem::StringState(entry.0)));
            assert(stack_tokens(entry_items(entry)) =~= entry_tokens(entry));
        },
    }
}

/// The elements of a sequence, laid out as work items, stand for the tokens
/// of the elements in order.
pub proof fn lemma_vec_children_tokens(items: Seq<Inner>)
    ensures
        stack_tokens(vec_children(items)) == inners_tokens(items),
    decreases items.len(),
{
    if items.len() > 0 {
        let laid = vec_children(items);
        assert(laid.last() == OuterItem::InnerState(items.first()));
        assert(laid.drop_last() =~= vec_children(items.drop_first()));
        lemma_vec_children_tokens(items.drop_first());
    }
}

/// The field of an outer struct, laid out as work items, stands for the
/// tokens between the start and the end of the struct.
pub proof fn lemma_outer_children_tokens(outer: Outer)
    ensures
        stack_tokens(outer_children(outer)) == seq![Token::Str("inner")] + vec_tokens(outer.inner@),
{
    let none = Seq::<OuterItem>::empty();
    let one = none.push(OuterItem::VecState(outer.inner));
    lemma_pushed_tokens(none, OuterItem::VecState(outer.inner));
    lemma_pushed_tokens(one, OuterItem::FieldState("inner"));
    assert(outer_children(outer) =~= one.push(OuterItem::FieldState("inner")));
    assert(stack_tokens(outer_children(outer)) =~= seq![Token::Str("inner")] + vec_tokens(
        outer.inner@,
    ));
}

/// The fields of an inner struct, laid out as work items, stand for the
/// tokens between the start and the end of the struct.
pub proof fn lemma_inner_children_tokens(inner: Inner)
    ensures
        stack_tokens(inner_children(inner)) == seq![
            Token::Str("a"),
            Token::Null,
            Token::Str("b"),
            Token::Uint(inner.b),
            Token::Str("c"),
        ] + map_tokens(inner.c.listing()),
{
    let s0 = Seq::<OuterItem>::empty();
    let s1 = s0.push(OuterItem::MapState(inner.c));
    let s2 = s1.push(OuterItem::FieldState("c"));
    let s3 = s2.push(OuterItem::UintState(inner.b));
    let s4 = s3.push(OuterItem::FieldState("b"));
    let s5 = s4.push(OuterItem::NullState);
    lemma_pushed_tokens(s0, OuterItem::MapState(inner.c));
    lemma_pushed_tokens(s1, OuterItem::FieldState("c"));
    lemma_pushed_tokens(s2, OuterItem::UintState(inner.b));
    lemma_pushed_tokens(s3, OuterItem::FieldState("b"));
    lemma_pushed_tokens(s4, OuterItem::NullState);
    lemma_pushed_tokens(s5, OuterItem::FieldState("a"));
    assert(inner_children(inner) =~= s5.push(OuterItem::FieldState("a")));
    assert(stack_tokens(inner_children(inner)) =~= seq![
        Token::Str("a"),
        Token::Null,
        Token::Str("b"),
        Token::Uint(inner.b),
        Token::Str("c"),
    ] + map_tokens(inner.c.listing()));
}

/// The first token that a work item stands for.
pub open spec fn first_token(item: OuterItem) -> Token {
    match item {
        OuterItem::OuterState(_) => Token::StructStart("Outer", 1),
        OuterItem::InnerState(_) => Token::StructStart("Inner", 3),
        OuterItem::FieldState(name) => Token::Str(name),
        OuterItem::NullState => Token::Null,
        OuterItem::UintState(value) => Token::Uint(value),
        OuterItem::CharState(c) => Token::Char(c),
        OuterItem::StringState(text) => Token::String(text),
        OuterItem::OptionState(present) => Token::Option(present),
        OuterItem::VecState(items) => Token::SeqStart(items@.len() as usize),
        OuterItem::MapState(map) => Token::MapStart(map.listing().len() as usize),
        OuterItem::EndState => Token::End,
    }
}

/// What takes the place of a work item once its first token has gone out:
/// for a compound an end marker with the parts of the compound above it, for
/// anything else nothing.
pub open spec fn laid_out(item: OuterItem) -> Seq<OuterItem> {
    match item {
        OuterItem::OuterState(outer) => seq![OuterItem::EndState] + outer_children(outer),
        OuterItem::InnerState(inner) => seq![OuterItem::EndState] + inner_children(inner),
        OuterItem::VecState(items) => seq![OuterItem::EndState] + vec_children(items@),
        OuterItem::MapState(map) => seq![OuterItem::EndState] + map_children(map.listing()),
        _ => Seq::empty(),
    }
}

/// A work item stands for its first token and then for what takes its place.
pub proof fn lemma_item_step(item: OuterItem)
    ensures
        item_tokens(item) == seq![first_token(item)] + stack_tokens(laid_out(item)),
{
    let end = seq![OuterItem::EndState];
    assert(stack_tokens(end) =~= seq![Token::End]) by {
        lemma_pushed_tokens(Seq::empty(), OuterItem::EndState);
        assert(Seq::<OuterItem>::empty().push(OuterItem::EndState) =~= end);
    }
    match item {
        OuterItem::OuterState(outer) => {
            lemma_stacked_tokens(end, outer_children(outer));
            lemma_outer_children_tokens(outer);
            assert(item_tokens(item) =~= seq![first_token(item)] + stack_tokens(laid_out(item)));
        },
        OuterItem::InnerState(inner) => {
            lemma_stacked_tokens(end, inner_children(inner));
            lemma_inner_children_tokens(inner);
            assert(item_tokens(item) =~= seq![first_token(item)] + stack_tokens(laid_out(item)));
        },
        OuterItem::VecState(items) => {
            lemma_stacked_tokens(end, vec_children(items@));
            lemma_vec_children_tokens(items@);
            assert(item_tokens(item) =~= seq![first_token(item)] + stack_tokens(laid_out(item)));
        },
        OuterItem::MapState(map) => {
            lemma_stacked_tokens(end, map_children(map.listing()));
            lemma_map_children_tokens(map.listing());
            assert(item_tokens(item) =~= seq![first_token(item)] + stack_tokens(laid_out(item)));
        },
        _ => {
            assert(item_tokens(item) =~= seq![first_token(item)] + stack_tokens(laid_out(item)));
        },
    }
}

impl Deserializer for OuterAdapter {
    open spec fn pending(&self) -> Seq<Token> {
        stack_tokens(self@)
    }

    /// Takes the top of the stack and hands out its first token: for a
    /// compound its start, with an end marker and its parts put in its
    /// place; for any other item the token it stands for.
    fn next(&mut self) -> (r: Option<Result<Token, Error>>)
        ensures
            final(self)@ == (if old(self)@.len() == 0 {
                old(self)@
            } else {
                old(self)@.drop_last() + laid_out(old(self)@.last())
            }),
    {
        let ghost below = popped(self@);
        proof {
            if self@.len() > 0 {
                let top = self@.last();
                lemma_item_step(top);
                lemma_stacked_tokens(below, laid_out(top));
                assert(stack_tokens(self@) =~= seq![first_token(top)] + stack_tokens(
                    below + laid_out(top),
                ));
                assert(stack_tokens(self@).skip(1) =~= stack_tokens(below + laid_out(top)));
            }
        }
        match self.pop() {
            Some(OuterItem::OuterState(outer)) => {
                self.push(OuterItem::EndState);
                self.push_outer_fields(outer);
                assert(self@ =~= below + laid_out(OuterItem::OuterState(outer)));
                Some(Ok(Token::StructStart("Outer", 1)))
            },
            Some(OuterItem::InnerState(inner)) => {
                self.push(OuterItem::EndState);
                self.push_inner_fields(inner);
                assert(self@ =~= below + laid_out(OuterItem::InnerState(inner)));
                Some(Ok(Token::StructStart("Inner", 3)))
            },
            Some(OuterItem::FieldState(name)) => {
                assert(self@ =~= below + laid_out(OuterItem::FieldState(name)));
                Some(Ok(Token::Str(name)))
            },
            Some(OuterItem::VecState(items)) => {
                self.push(OuterItem::EndState);
                let len = items.len();
                self.push_elements(items);
                assert(self@ =~= below + laid_out(OuterItem::VecState(items)));
                Some(Ok(Token::SeqStart(len)))
            },
            Some(OuterItem::MapState(map)) => {
                self.push(OuterItem::EndState);
                let len = map.len();
                self.push_entries(map);
                assert(self@ =~= below + laid_out(OuterItem::MapState(map)));
                Some(Ok(Token::MapStart(len)))
            },
            Some(OuterItem::NullState) => {
                assert(self@ =~= below + laid_out(OuterItem::NullState));
                Some(Ok(Token::Null))
            },
            Some(OuterItem::UintState(x)) => {
                assert(self@ =~= below + laid_out(OuterItem::UintState(x)));
                Some(Ok(Token::Uint(x)))
            },
            Some(OuterItem::CharState(x)) => {
                assert(self@ =~= below + laid_out(OuterItem::CharState(x)));
                Some(Ok(Token::Char(x)))
            },
            Some(OuterItem::StringState(x)) => {
                assert(self@ =~= below + laid_out(OuterItem::StringState(x)));
                Some(Ok(Token::String(x)))
            },
            Some(OuterItem::OptionState(x)) => {
                assert(self@ =~= below + laid_out(OuterItem::OptionState(x)));
                Some(Ok(Token::Option(x)))
            },
            Some(OuterItem::EndState) => {
                assert(self@ =~= below + laid_out(OuterItem::EndState));
                Some(Ok(Token::End))
            },
            None => None,
        }
    }

    open spec fn end_of_stream(error: Error) -> bool {
        error == Error::EndOfStream
    }

    open spec fn syntax(token: Token, expected: Seq<TokenKind>, error: Error) -> bool {
        error.is_syntax(syntax_message(expected, token.kind_of()))
    }

    open spec fn unexpected_name(token: Token, error: Error) -> bool {
        error.is_unexpected_name(found_message(token.kind_of()))
    }

    open spec fn conversion(token: Token, error: Error) -> bool {
        error.is_conversion(found_message(token.kind_of()))
    }

    open spec fn missing(field: Seq<char>, error: Error) -> bool {
        error matches Error::MissingField(name) && name@ == field
    }

    open spec fn has_defaults() -> bool {
        false
    }

    fn end_of_stream_error(&mut self) -> (error: Error)
        ensures
            final(self)@ == old(self)@,
    {
        Error::EndOfStream
    }

    fn syntax_error(&mut self, token: Token, expected: &[TokenKind]) -> (error: Error)
        ensures
            final(self)@ == old(self)@,
    {
        Error::SyntaxError(describe_mismatch(expected, token.kind()))
    }

    fn unexpected_name_error(&mut self, token: Token) -> (error: Error)
        ensures
            final(self)@ == old(self)@,
    {
        Error::UnexpectedName(describe_found(token.kind()))
    }

    fn conversion_error(&mut self, token: Token) -> (error: Error)
        ensures
            final(self)@ == old(self)@,
    {
        Error::ConversionError(describe_found(token.kind()))
    }

    fn missing_field<T>(&mut self, field: &'static str) -> (r: Result<T, Error>)
        ensures
            r is Err,
            final(self)@ == old(self)@,
    {
        Err(Error::MissingField(field))
    }
}

} // verus!
