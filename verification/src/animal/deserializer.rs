//! The animal, read token by token.

use crate::animal::{Animal, AnimalAdapter, AnimalItem};
use crate::de::Deserializer;
use crate::decoder::popped;
use crate::error::{bare_syntax_error, Error};
use crate::token::{Token, TokenKind};
use vstd::prelude::*;

verus! {

/// The tokens that stand for an animal.
pub open spec fn animal_tokens(animal: Animal) -> Seq<Token> {
    match animal {
        Animal::Dog => seq![Token::EnumStart("Animal", "Dog", 0), Token::End],
        Animal::Frog(name, number) => seq![
            Token::EnumStart("Animal", "Frog", 2),
            Token::String(name),
            Token::Int(number),
            Token::End,
        ],
    }
}

/// The tokens that stand for a work item.
pub open spec fn item_tokens(item: AnimalItem) -> Seq<Token> {
    match item {
        AnimalItem::AnimalState(animal) => animal_tokens(animal),
        AnimalItem::IntState(number) => seq![Token::Int(number)],
        AnimalItem::StringState(text) => seq![Token::String(text)],
        AnimalItem::EndState => seq![Token::End],
    }
}

/// The tokens that a stack of work items stands for, those of the top first.
pub open spec fn stack_tokens(stack: Seq<AnimalItem>) -> Seq<Token>
    decreases stack.len(),
{
    if stack.len() == 0 {
        Seq::empty()
    } else {
        item_tokens(stack.last()) + stack_tokens(stack.drop_last())
    }
}

/// An item put on a stack puts its tokens before those of the stack.
pub proof fn lemma_pushed_tokens(stack: Seq<AnimalItem>, item: AnimalItem)
    ensures
        stack_tokens(stack.push(item)) == item_tokens(item) + stack_tokens(stack),
{
    assert(stack.push(item).drop_last() =~= stack);
}

impl Deserializer for AnimalAdapter {
    open spec fn pending(&self) -> Seq<Token> {
        stack_tokens(self@)
    }

    /// Takes the top of the stack and hands out its first token: for an
    /// animal the start of its enum, with an end marker and its fields put
    /// in its place; for any other item the token it stands for.
    fn next(&mut self) -> (r: Option<Result<Token, Error>>)
        ensures
            final(self)@ == (if old(self)@.len() == 0 {
                old(self)@
            } else {
                match old(self)@.last() {
                    AnimalItem::AnimalState(animal) => old(self)@.drop_last().push(
                        AnimalItem::EndState,
                    ) + animal.children(),
                    _ => old(self)@.drop_last(),
                }
            }),
    {
        let ghost below = popped(self@);
        let r = match self.pop() {
            Some(AnimalItem::AnimalState(Animal::Dog)) => {
                self.push(AnimalItem::EndState);
                proof {
                    lemma_pushed_tokens(below, AnimalItem::EndState);
                    assert(self@ =~= below.push(AnimalItem::EndState) + Animal::Dog.children());
                }
                Some(Ok(Token::EnumStart("Animal", "Dog", 0)))
            },
            Some(AnimalItem::AnimalState(Animal::Frog(x0, x1))) => {
                self.push(AnimalItem::EndState);
                self.push(AnimalItem::IntState(x1));
                self.push(AnimalItem::StringState(x0));
                proof {
                    let ended = below.push(AnimalItem::EndState);
                    let numbered = ended.push(AnimalItem::IntState(x1));
                    lemma_pushed_tokens(below, AnimalItem::EndState);
                    lemma_pushed_tokens(ended, AnimalItem::IntState(x1));
                    lemma_pushed_tokens(numbered, AnimalItem::StringState(x0));
                    assert(self@ =~= ended + Animal::Frog(x0, x1).children());
                }
                Some(Ok(Token::EnumStart("Animal", "Frog", 2)))
            },
            Some(AnimalItem::IntState(x)) => Some(Ok(Token::Int(x))),
            Some(AnimalItem::StringState(x)) => Some(Ok(Token::String(x))),
            Some(AnimalItem::EndState) => Some(Ok(Token::End)),
            None => None,
        };
        proof {
            if old(self)@.len() > 0 {
                let tokens = old(self).pending();
                let first = item_tokens(old(self)@.last());
                assert(tokens == first + stack_tokens(below));
                assert(self.pending() =~= tokens.skip(1));
            }
        }
        r
    }

    open spec fn end_of_stream(error: Error) -> bool {
        error == Error::EndOfStream
    }

    open spec fn syntax(token: Token, expected: Seq<TokenKind>, error: Error) -> bool {
        error.is_syntax(Seq::empty())
    }

    open spec fn unexpected_name(token: Token, error: Error) -> bool {
        error.is_syntax(Seq::empty())
    }

    open spec fn conversion(token: Token, error: Error) -> bool {
        error.is_syntax(Seq::empty())
    }

    open spec fn missing(field: Seq<char>, error: Error) -> bool {
        error.is_syntax(Seq::empty())
    }

    open spec fn has_defaults() -> bool {
        false
    }

    fn end_of_stream_error(&mut self) -> (error: Error)
        ensures
            final(self)@ == old(self)@,
    {
        Error::EndOfStream
    }

    fn syntax_error(&mut self, token: Token, expected: &[TokenKind]) -> (error: Error)
        ensures
            final(self)@ == old(self)@,
    {
        bare_syntax_error()
    }

    fn unexpected_name_error(&mut self, token: Token) -> (error: Error)
        ensures
            final(self)@ == old(self)@,
    {
        bare_syntax_error()
    }

    fn conversion_error(&mut self, token: Token) -> (error: Error)
        ensures
            final(self)@ == old(self)@,
    {
        bare_syntax_error()
    }

    fn missing_field<T>(&mut self, field: &'static str) -> (r: Result<T, Error>)
        ensures
            r is Err,
            final(self)@ == old(self)@,
    {
        Err(bare_syntax_error())
    }
}

} // verus!
