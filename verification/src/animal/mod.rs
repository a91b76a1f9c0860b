//! A value with variants, and the adapter that serves it piece by piece.

use crate::animal::deserializer::animal_tokens;
use crate::animal::laws::lemma_fresh_tokens;
use crate::de::Deserializer;
use vstd::prelude::*;

pub mod decoder;
pub mod deserializer;
pub mod laws;
pub mod rebuild;

verus! {

/// An animal: a dog, or a frog with its name and its number.
#[derive(Clone, Debug, PartialEq, Eq)]
pub enum Animal {
    Dog,
    Frog(String, isize),
}

/// The mathematical value of an [`Animal`].
pub enum AnimalView {
    Dog,
    Frog(Seq<char>, isize),
}

impl View for Animal {
    type V = AnimalView;

    open spec fn view(&self) -> AnimalView {
        match self {
            Animal::Dog => AnimalView::Dog,
            Animal::Frog(name, number) => AnimalView::Frog(name@, *number),
        }
    }
}

/// What an [`AnimalAdapter`] has yet to serve.
#[derive(Debug, PartialEq, Eq)]
pub enum AnimalItem {
    /// A whole animal, not yet taken apart.
    AnimalState(Animal),
    /// A number taken out of an animal.
    IntState(isize),
    /// A text taken out of an animal.
    StringState(String),
    /// The close of a compound whose start went out as a token.
    EndState,
}

impl Animal {
    /// The name of this animal's variant.
    pub open spec fn variant_name(self) -> Seq<char> {
        match self {
            Animal::Dog => "Dog"@,
            Animal::Frog(_, _) => "Frog"@,
        }
    }

    /// The fields of this animal as work items, the first field last, so
    /// that it leaves a stack first.
    pub open spec fn children(self) -> Seq<AnimalItem> {
        match self {
            Animal::Dog => Seq::empty(),
            Animal::Frog(name, number) => seq![
                AnimalItem::IntState(number),
                AnimalItem::StringState(name),
            ],
        }
    }
}

/// Serves one [`Animal`] through a stack of what is yet to be served. It can
/// be used once: when the stack is empty nothing more comes out.
pub struct AnimalAdapter {
    stack: Vec<AnimalItem>,
}

impl View for AnimalAdapter {
    type V = Seq<AnimalItem>;

    closed spec fn view(&self) -> Seq<AnimalItem> {
        self.stack@
    }
}

impl AnimalAdapter {
    /// An adapter that holds `animal` and nothing else: it has the tokens
    /// of `animal` pending, and no others.
    pub fn new(animal: Animal) -> (adapter: AnimalAdapter)
        ensures
            adapter@ == seq![AnimalItem::AnimalState(animal)],
            adapter.pending() == animal_tokens(animal),
    {
        let mut stack = Vec::new();
        stack.push(AnimalItem::AnimalState(animal));
        proof {
            assert(stack@ =~= seq![AnimalItem::AnimalState(animal)]);
            lemma_fresh_tokens(animal);
        }
        AnimalAdapter { stack }
    }

    /// Takes the top item off the stack.
    fn pop(&mut self) -> (item: Option<AnimalItem>)
        ensures
            old(self)@.len() > 0
                ==> item == Some(old(self)@.last()) && final(self)@ == old(self)@.drop_last(),
            old(self)@.len() == 0 ==> item.is_none() && final(self)@ == old(self)@,
    {
        self.stack.pop()
    }

    /// Puts an item on the stack.
    fn push(&mut self, item: AnimalItem)
        ensures
            final(self)@ == old(self)@.push(item),
    {
        self.stack.push(item);
    }
}

} // verus!
