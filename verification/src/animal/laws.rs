//! What holds of the animal, its adapter and its tokens.

use crate::animal::deserializer::{animal_tokens, item_tokens, lemma_pushed_tokens, stack_tokens};
use crate::animal::rebuild::animal_reading;
use crate::animal::{Animal, AnimalItem, AnimalView};
use crate::reading::Failure;
use crate::token::{depth_after, lemma_depth_of_runs, well_nested, Token};
use vstd::prelude::*;
use vstd::string::*;

verus! {

/// An adapter that holds one animal has the tokens of that animal pending,
/// and no others.
pub proof fn lemma_fresh_tokens(animal: Animal)
    ensures
        stack_tokens(seq![AnimalItem::AnimalState(animal)]) == animal_tokens(animal),
{
    let none = Seq::<AnimalItem>::empty();
    lemma_pushed_tokens(none, AnimalItem::AnimalState(animal));
    assert(none.push(AnimalItem::AnimalState(animal)) =~= seq![AnimalItem::AnimalState(animal)]);
    assert(animal_tokens(animal) + stack_tokens(none) =~= animal_tokens(animal));
}

/// The tokens of an animal read back as its view: rebuilding an animal from
/// its own tokens gives the animal.
pub proof fn lemma_animal_reads_back(animal: Animal, rest: Seq<Token>)
    ensures
        animal_reading(animal_tokens(animal) + rest) == Ok::<(AnimalView, int), Failure>(
            (animal@, animal_tokens(animal).len() as int),
        ),
{
    let tokens = animal_tokens(animal) + rest;
    reveal_strlit("Dog");
    reveal_strlit("Frog");
    assert("Dog"@.len() == 3 && "Frog"@.len() == 4);
    assert(tokens[0] == animal_tokens(animal)[0]);
    assert(tokens.skip(1)[0] == animal_tokens(animal)[1]);
    match animal {
        Animal::Dog => {},
        Animal::Frog(name, number) => {
            assert(tokens.skip(2)[0] == animal_tokens(animal)[2]);
            assert(tokens.skip(3)[0] == animal_tokens(animal)[3]);
        },
    }
}

/// Once the tokens of its animal have been read, an adapter has nothing
/// left: no token is pending and no item is on its stack, so that whatever is
/// asked of it next finds nothing.
pub proof fn lemma_spent_once_read(animal: Animal, stack: Seq<AnimalItem>)
    requires
        stack_tokens(stack) == animal_tokens(animal).skip(animal_tokens(animal).len() as int),
    ensures
        stack_tokens(stack).len() == 0,
        stack.len() == 0,
        animal_reading(stack_tokens(stack)) == Err::<(AnimalView, int), Failure>(Failure::Ended),
{
    lemma_tokens_while_items(stack);
}

/// A stack that stands for no token is empty: an adapter has nothing pending
/// only when nothing is left on its stack.
pub proof fn lemma_tokens_while_items(stack: Seq<AnimalItem>)
    ensures
        stack_tokens(stack).len() >= stack.len(),
    decreases stack.len(),
{
    if stack.len() > 0 {
        lemma_tokens_while_items(stack.drop_last());
        assert(item_tokens(stack.last()).len() >= 1);
    }
}

/// How many end markers lie on a stack.
pub open spec fn end_markers(stack: Seq<AnimalItem>) -> nat
    decreases stack.len(),
{
    if stack.len() == 0 {
        0
    } else if stack.last() is EndState {
        end_markers(stack.drop_last()) + 1
    } else {
        end_markers(stack.drop_last())
    }
}

/// The tokens of an animal close what they open.
pub proof fn lemma_animal_level(depth: nat, animal: Animal)
    ensures
        depth_after(depth, animal_tokens(animal)) == Some(depth),
{
    reveal_with_fuel(depth_after, 5);
}

/// Whatever an adapter holds, the tokens it has pending close every
/// compound they open, and besides close one compound for each end marker
/// on the stack: the compounds whose starts have gone out already.
pub proof fn lemma_pending_closes_what_is_open(stack: Seq<AnimalItem>)
    ensures
        depth_after(end_markers(stack), stack_tokens(stack)) == Some(0nat),
    decreases stack.len(),
{
    if stack.len() > 0 {
        let top = stack.last();
        let below = stack.drop_last();
        let open = end_markers(below);
        lemma_pending_closes_what_is_open(below);
        lemma_depth_of_runs(end_markers(stack), item_tokens(top), stack_tokens(below));
        reveal_with_fuel(depth_after, 2);
        match top {
            AnimalItem::AnimalState(animal) => {
                lemma_animal_level(open, animal);
            },
            AnimalItem::EndState => {
                assert(depth_after(open + 1, item_tokens(top)) == Some(open));
            },
            _ => {
                assert(depth_after(open, item_tokens(top)) == Some(open));
            },
        }
    }
}

/// The tokens that an adapter hands out for an animal are well nested: the
/// start has one end that matches it.
pub proof fn lemma_tokens_well_nested(animal: Animal)
    ensures
        well_nested(animal_tokens(animal)),
{
    lemma_animal_level(0, animal);
}

} // verus!
