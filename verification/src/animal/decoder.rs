//! The animal, asked for part by part.

use crate::animal::{Animal, AnimalAdapter, AnimalItem};
use crate::decoder::{popped, top_of, Decoder};
use crate::error::{bare_syntax_error, refused, Error};
use crate::text::{find_name, is_first_match, no_match, same_text};
use vstd::prelude::*;
use vstd::string::*;

verus! {

impl Decoder for AnimalAdapter {
    fn error(&mut self, msg: &str) -> (error: Error) {
        Error::OtherError(msg.to_string())
    }

    fn read_nil(&mut self) -> (r: Result<(), Error>)
        ensures
            refused(r, Seq::empty()),
            final(self)@ == old(self)@,
    {
        Err(bare_syntax_error())
    }

    fn read_uint(&mut self) -> (r: Result<usize, Error>)
        ensures
            refused(r, Seq::empty()),
            final(self)@ == old(self)@,
    {
        Err(bare_syntax_error())
    }

    fn read_u64(&mut self) -> (r: Result<u64, Error>)
        ensures
            refused(r, Seq::empty()),
            final(self)@ == old(self)@,
    {
        Err(bare_syntax_error())
    }

    fn read_u32(&mut self) -> (r: Result<u32, Error>)
        ensures
            refused(r, Seq::empty()),
            final(self)@ == old(self)@,
    {
        Err(bare_syntax_error())
    }

    fn read_u16(&mut self) -> (r: Result<u16, Error>)
        ensures
            refused(r, Seq::empty()),
            final(self)@ == old(self)@,
    {
        Err(bare_syntax_error())
    }

    fn read_u8(&mut self) -> (r: Result<u8, Error>)
        ensures
            refused(r, Seq::empty()),
            final(self)@ == old(self)@,
    {
        Err(bare_syntax_error())
    }

    /// Takes the number on top of the stack.
    fn read_int(&mut self) -> (r: Result<isize, Error>)
        ensures
            final(self)@ == popped(old(self)@),
            match top_of(old(self)@) {
                Some(AnimalItem::IntState(number)) => r == Ok::<isize, Error>(number),
                _ => refused(r, Seq::empty()),
            },
    {
        match self.pop() {
            Some(AnimalItem::IntState(x)) => Ok(x),
            _ => Err(bare_syntax_error()),
        }
    }

    fn read_i64(&mut self) -> (r: Result<i64, Error>)
        ensures
            refused(r, Seq::empty()),
            final(self)@ == old(self)@,
    {
        Err(bare_syntax_error())
    }

    fn read_i32(&mut self) -> (r: Result<i32, Error>)
        ensures
            refused(r, Seq::empty()),
            final(self)@ == old(self)@,
    {
        Err(bare_syntax_error())
    }

    fn read_i16(&mut self) -> (r: Result<i16, Error>)
        ensures
            refused(r, Seq::empty()),
            final(self)@ == old(self)@,
    {
        Err(bare_syntax_error())
    }

    fn read_i8(&mut self) -> (r: Result<i8, Error>)
        ensures
            refused(r, Seq::empty()),
            final(self)@ == old(self)@,
    {
        Err(bare_syntax_error())
    }

    fn read_bool(&mut self) -> (r: Result<bool, Error>)
        ensures
            refused(r, Seq::empty()),
            final(self)@ == old(self)@,
    {
        Err(bare_syntax_error())
    }

    fn read_f64(&mut self) -> (r: Result<u64, Error>)
        ensures
            refused(r, Seq::empty()),
            final(self)@ == old(self)@,
    {
        Err(bare_syntax_error())
    }

    fn read_f32(&mut self) -> (r: Result<u32, Error>)
        ensures
            refused(r, Seq::empty()),
            final(self)@ == old(self)@,
    {
        Err(bare_syntax_error())
    }

    fn read_char(&mut self) -> (r: Result<char, Error>)
        ensures
            refused(r, Seq::empty()),
            final(self)@ == old(self)@,
    {
        Err(bare_syntax_error())
    }

    /// Takes the text on top of the stack.
    fn read_str(&mut self) -> (r: Result<String, Error>)
        ensures
            final(self)@ == popped(old(self)@),
            match top_of(old(self)@) {
                Some(AnimalItem::StringState(text)) => r == Ok::<String, Error>(text),
                _ => refused(r, Seq::empty()),
            },
    {
        match self.pop() {
            Some(AnimalItem::StringState(x)) => Ok(x),
            _ => Err(bare_syntax_error()),
        }
    }

    /// Where an animal is on top and `name` is `"Animal"`, calls `f` on the
    /// adapter as it stands. Refuses otherwise: an animal on top stays, any
    /// other item is taken off.
    fn read_enum<T, F: FnOnce(&mut Self) -> Result<T, Error>>(&mut self, name: &str, f: F) -> (r:
        Result<T, Error>)
        ensures
            match top_of(old(self)@) {
                Some(AnimalItem::AnimalState(_)) => if name@ == "Animal"@ {
                    exists|d: &mut Self| #![trigger call_ensures(f, (d,), r)]
                        (*d)@ == old(self)@ && call_ensures(f, (d,), r) && *final(d) == *final(self)
                } else {
                    refused(r, Seq::empty()) && final(self)@ == old(self)@
                },
                _ => refused(r, Seq::empty()) && final(self)@ == popped(old(self)@),
            },
    {
        match self.pop() {
            Some(AnimalItem::AnimalState(animal)) => {
                self.push(AnimalItem::AnimalState(animal));
                assert(self@ =~= old(self)@);
                if same_text(name, "Animal") {
                    f(self)
                } else {
                    Err(bare_syntax_error())
                }
            },
            _ => Err(bare_syntax_error()),
        }
    }

    /// Where an animal is on top, puts its fields in its place, the first
    /// field uppermost, and calls `f` with the first place at which the
    /// variant's name stands in `names`. Refuses where the name stands
    /// nowhere in `names`, and where no animal is on top.
    fn read_enum_variant<T, F: FnOnce(&mut Self, usize) -> Result<T, Error>>(
        &mut self,
        names: &[&str],
        f: F,
    ) -> (r: Result<T, Error>)
        ensures
            match top_of(old(self)@) {
                Some(AnimalItem::AnimalState(animal)) => {
                    let laid_out = old(self)@.drop_last() + animal.children();
                    if no_match(names@, animal.variant_name()) {
                        refused(r, Seq::empty()) && final(self)@ == laid_out
                    } else {
                        exists|d: &mut Self, at: usize| #![trigger call_ensures(f, (d, at), r)]
                            (*d)@ == laid_out && is_first_match(
                                names@,
                                animal.variant_name(),
                                at as int,
                            ) && call_ensures(f, (d, at), r) && *final(d) == *final(self)
                    }
                },
                _ => refused(r, Seq::empty()) && final(self)@ == popped(old(self)@),
            },
    {
        let name = match self.pop() {
            Some(AnimalItem::AnimalState(Animal::Dog)) => {
                assert(self@ =~= old(self)@.drop_last() + Animal::Dog.children());
                "Dog"
            },
            Some(AnimalItem::AnimalState(Animal::Frog(x0, x1))) => {
                self.push(AnimalItem::IntState(x1));
                self.push(AnimalItem::StringState(x0));
                assert(self@ =~= old(self)@.drop_last() + Animal::Frog(x0, x1).children());
                "Frog"
            },
            _ => {
                return Err(bare_syntax_error());
            },
        };
        let idx = match find_name(names, name) {
            Some(idx) => idx,
            None => {
                return Err(bare_syntax_error());
            },
        };
        f(self, idx)
    }

    /// Calls `f` on the adapter as it stands.
    fn read_enum_variant_arg<T, F: FnOnce(&mut Self) -> Result<T, Error>>(
        &mut self,
        a_idx: usize,
        f: F,
    ) -> (r: Result<T, Error>)
        ensures
            exists|d: &mut Self| #![trigger call_ensures(f, (d,), r)]
                (*d)@ == old(self)@ && call_ensures(f, (d,), r) && *final(d) == *final(self),
    {
        f(self)
    }

    fn read_enum_struct_variant<T, F: FnOnce(&mut Self, usize) -> Result<T, Error>>(
        &mut self,
        names: &[&str],
        f: F,
    ) -> (r: Result<T, Error>)
        ensures
            refused(r, Seq::empty()),
            final(self)@ == old(self)@,
    {
        Err(bare_syntax_error())
    }

    fn read_enum_struct_variant_field<T, F: FnOnce(&mut Self) -> Result<T, Error>>(
        &mut self,
        f_name: &str,
        f_idx: usize,
        f: F,
    ) -> (r: Result<T, Error>)
        ensures
            refused(r, Seq::empty()),
            final(self)@ == old(self)@,
    {
        Err(bare_syntax_error())
    }

    fn read_struct<T, F: FnOnce(&mut Self) -> Result<T, Error>>(
        &mut self,
        s_name: &str,
        len: usize,
        f: F,
    ) -> (r: Result<T, Error>)
        ensures
            refused(r, Seq::empty()),
            final(self)@ == old(self)@,
    {
        Err(bare_syntax_error())
    }

    fn read_struct_field<T, F: FnOnce(&mut Self) -> Result<T, Error>>(
        &mut self,
        f_name: &str,
        f_idx: usize,
        f: F,
    ) -> (r: Result<T, Error>)
        ensures
            refused(r, Seq::empty()),
            final(self)@ == old(self)@,
    {
        Err(bare_syntax_error())
    }

    fn read_tuple<T, F: FnOnce(&mut Self, usize) -> Result<T, Error>>(&mut self, f: F) -> (r:
        Result<T, Error>)
        ensures
            refused(r, Seq::empty()),
            final(self)@ == old(self)@,
    {
        Err(bare_syntax_error())
    }

    fn read_tuple_arg<T, F: FnOnce(&mut Self) -> Result<T, Error>>(
        &mut self,
        a_idx: usize,
        f: F,
    ) -> (r: Result<T, Error>)
        ensures
            refused(r, Seq::empty()),
            final(self)@ == old(self)@,
    {
        Err(bare_syntax_error())
    }

    fn read_tuple_struct<T, F: FnOnce(&mut Self, usize) -> Result<T, Error>>(
        &mut self,
        s_name: &str,
        f: F,
    ) -> (r: Result<T, Error>)
        ensures
            refused(r, Seq::empty()),
            final(self)@ == old(self)@,
    {
        Err(bare_syntax_error())
    }

    fn read_tuple_struct_arg<T, F: FnOnce(&mut Self) -> Result<T, Error>>(
        &mut self,
        a_idx: usize,
        f: F,
    ) -> (r: Result<T, Error>)
        ensures
            refused(r, Seq::empty()),
            final(self)@ == old(self)@,
    {
        Err(bare_syntax_error())
    }

    fn read_option<T, F: FnOnce(&mut Self, bool) -> Result<T, Error>>(&mut self, f: F) -> (r:
        Result<T, Error>)
        ensures
            refused(r, Seq::empty()),
            final(self)@ == old(self)@,
    {
        Err(bare_syntax_error())
    }

    /// Calls `f` on the adapter as it stands, with a length of three.
    fn read_seq<T, F: FnOnce(&mut Self, usize) -> Result<T, Error>>(&mut self, f: F) -> (r:
        Result<T, Error>)
        ensures
            exists|d: &mut Self| #![trigger call_ensures(f, (d, 3usize), r)]
                (*d)@ == old(self)@ && call_ensures(f, (d, 3usize), r) && *final(d) == *final(self),
    {
        f(self, 3)
    }

    /// Calls `f` on the adapter as it stands.
    fn read_seq_elt<T, F: FnOnce(&mut Self) -> Result<T, Error>>(&mut self, idx: usize, f: F) -> (r:
        Result<T, Error>)
        ensures
            exists|d: &mut Self| #![trigger call_ensures(f, (d,), r)]
                (*d)@ == old(self)@ && call_ensures(f, (d,), r) && *final(d) == *final(self),
    {
        f(self)
    }

    fn read_map<T, F: FnOnce(&mut Self, usize) -> Result<T, Error>>(&mut self, f: F) -> (r:
        Result<T, Error>)
        ensures
            refused(r, Seq::empty()),
            final(self)@ == old(self)@,
    {
        Err(bare_syntax_error())
    }

    fn read_map_elt_key<T, F: FnOnce(&mut Self) -> Result<T, Error>>(
        &mut self,
        idx: usize,
        f: F,
    ) -> (r: Result<T, Error>)
        ensures
            refused(r, Seq::empty()),
            final(self)@ == old(self)@,
    {
        Err(bare_syntax_error())
    }

    fn read_map_elt_val<T, F: FnOnce(&mut Self) -> Result<T, Error>>(
        &mut self,
        idx: usize,
        f: F,
    ) -> (r: Result<T, Error>)
        ensures
            refused(r, Seq::empty()),
            final(self)@ == old(self)@,
    {
        Err(bare_syntax_error())
    }
}


impl Animal {
    /// Rebuilds the animal that `d` holds on top by asking `d` for its parts.
    ///
    /// Where an animal is on top, it comes back as it went in, and `d` is left
    /// with what lay below it. Otherwise `d` refuses.
    pub fn decode(d: &mut AnimalAdapter) -> (r: Result<Animal, Error>)
        ensures
            match top_of(old(d)@) {
                Some(AnimalItem::AnimalState(animal)) => r == Ok::<Animal, Error>(animal)
                    && final(d)@ == old(d)@.drop_last(),
                _ => refused(r, Seq::empty()) && final(d)@ == popped(old(d)@),
            },
    {
        d.read_enum("Animal", decode_variant)
    }
}


/// Rebuilds an animal from the adapter once its enum is entered.
fn decode_variant(d: &mut AnimalAdapter) -> (r: Result<Animal, Error>)
    ensures
        old(d)@.len() > 0 && old(d)@.last() is AnimalState ==> r == Ok::<Animal, Error>(
            old(d)@.last()->AnimalState_0,
        ) && final(d)@ == old(d)@.drop_last(),
{
    let names = ["Dog", "Frog"];
    proof {
        reveal_strlit("Dog");
        reveal_strlit("Frog");
        if old(d)@.len() > 0 && old(d)@.last() is AnimalState {
            let animal = old(d)@.last()->AnimalState_0;
            let below = old(d)@.drop_last();
            let laid_out = below + animal.children();
            assert(names@[0]@ == "Dog"@);
            assert(names@[1]@ == "Frog"@);
            assert(laid_out.take(below.len() as int) =~= below);
            match animal {
                Animal::Dog => {
                    assert(laid_out =~= below);
                },
                Animal::Frog(name, number) => {
                    assert(laid_out[laid_out.len() - 1] == AnimalItem::StringState(name));
                    assert(laid_out[laid_out.len() - 2] == AnimalItem::IntState(number));
                },
            }
        }
    }
    d.read_enum_variant(&names, decode_fields)
}

/// Rebuilds the variant that stands at `at` among `"Dog"` and `"Frog"` from
/// the fields on top of the adapter.
fn decode_fields(d: &mut AnimalAdapter, at: usize) -> (r: Result<Animal, Error>)
    ensures
        at == 0 ==> r == Ok::<Animal, Error>(Animal::Dog) && final(d)@ == old(d)@,
        at == 1 && old(d)@.len() >= 2 && old(d)@[old(d)@.len() - 1] is StringState && old(
            d,
        )@[old(d)@.len() - 2] is IntState ==> r == Ok::<Animal, Error>(
            Animal::Frog(
                old(d)@[old(d)@.len() - 1]->StringState_0,
                old(d)@[old(d)@.len() - 2]->IntState_0,
            ),
        ) && final(d)@ == old(d)@.take(old(d)@.len() - 2),
{
    if at == 0 {
        Ok(Animal::Dog)
    } else if at == 1 {
        let name = match d.read_enum_variant_arg(0, read_text) {
            Ok(name) => name,
            Err(error) => {
                return Err(error);
            },
        };
        let number = match d.read_enum_variant_arg(1, read_number) {
            Ok(number) => number,
            Err(error) => {
                return Err(error);
            },
        };
        assert(old(d)@.len() >= 2 ==> old(d)@.drop_last().drop_last() =~= old(d)@.take(
            old(d)@.len() - 2,
        ));
        Ok(Animal::Frog(name, number))
    } else {
        Err(d.error("no such variant"))
    }
}

/// Reads a text from the adapter.
fn read_text(d: &mut AnimalAdapter) -> (r: Result<String, Error>)
    ensures
        final(d)@ == popped(old(d)@),
        match top_of(old(d)@) {
            Some(AnimalItem::StringState(text)) => r == Ok::<String, Error>(text),
            _ => refused(r, Seq::empty()),
        },
{
    d.read_str()
}

/// Reads a number from the adapter.
fn read_number(d: &mut AnimalAdapter) -> (r: Result<isize, Error>)
    ensures
        final(d)@ == popped(old(d)@),
        match top_of(old(d)@) {
            Some(AnimalItem::IntState(number)) => r == Ok::<isize, Error>(number),
            _ => refused(r, Seq::empty()),
        },
{
    d.read_int()
}

} // verus!
