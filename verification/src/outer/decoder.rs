//! The nested struct, asked for part by part.

use crate::assoc::{assoc_map, keys_increase};
use crate::char_map::{char_pairs, lemma_reverse_same_map, CharMap, Letter};
use crate::decoder::{popped, top_of, Decoder};
use crate::error::{bare_syntax_error, refused, syntax_error, Error};
use crate::outer::{
    entry_items, inner_children, inner_views, map_children, outer_children, vec_children, Inner,
    Outer, OuterAdapter, OuterItem,
};
use crate::text::same_text;
use vstd::prelude::*;
use vstd::string::*;

verus! {

impl Decoder for OuterAdapter {
    fn error(&mut self, msg: &str) -> (error: Error) {
        Error::OtherError(msg.to_string())
    }

    /// Takes the unit value on top of the stack.
    fn read_nil(&mut self) -> (r: Result<(), Error>)
        ensures
            final(self)@ == popped(old(self)@),
            match top_of(old(self)@) {
                Some(OuterItem::NullState) => r is Ok,
                _ => refused(r, "NullState"@),
            },
    {
        match self.pop() {
            Some(OuterItem::NullState) => Ok(()),
            _ => Err(syntax_error("NullState")),
        }
    }

    /// Takes the number on top of the stack.
    fn read_uint(&mut self) -> (r: Result<usize, Error>)
        ensures
            final(self)@ == popped(old(self)@),
            match top_of(old(self)@) {
                Some(OuterItem::UintState(value)) => r == Ok::<usize, Error>(value),
                _ => refused(r, "UintState"@),
            },
    {
        match self.pop() {
            Some(OuterItem::UintState(value)) => Ok(value),
            _ => Err(syntax_error("UintState")),
        }
    }

    fn read_u64(&mut self) -> (r: Result<u64, Error>)
        ensures
            refused(r, Seq::empty()),
            final(self)@ == old(self)@,
    {
        Err(bare_syntax_error())
    }

    fn read_u32(&mut self) -> (r: Result<u32, Error>)
        ensures
            refused(r, Seq::empty()),
            final(self)@ == old(self)@,
    {
        Err(bare_syntax_error())
    }

    fn read_u16(&mut self) -> (r: Result<u16, Error>)
        ensures
            refused(r, Seq::empty()),
            final(self)@ == old(self)@,
    {
        Err(bare_syntax_error())
    }

    fn read_u8(&mut self) -> (r: Result<u8, Error>)
        ensures
            refused(r, Seq::empty()),
            final(self)@ == old(self)@,
    {
        Err(bare_syntax_error())
    }

    fn read_int(&mut self) -> (r: Result<isize, Error>)
        ensures
            refused(r, Seq::empty()),
            final(self)@ == old(self)@,
    {
        Err(bare_syntax_error())
    }

    fn read_i64(&mut self) -> (r: Result<i64, Error>)
        ensures
            refused(r, Seq::empty()),
            final(self)@ == old(self)@,
    {
        Err(bare_syntax_error())
    }

    fn read_i32(&mut self) -> (r: Result<i32, Error>)
        ensures
            refused(r, Seq::empty()),
            final(self)@ == old(self)@,
    {
        Err(bare_syntax_error())
    }

    fn read_i16(&mut self) -> (r: Result<i16, Error>)
        ensures
            refused(r, Seq::empty()),
            final(self)@ == old(self)@,
    {
        Err(bare_syntax_error())
    }

    fn read_i8(&mut self) -> (r: Result<i8, Error>)
        ensures
            refused(r, Seq::empty()),
            final(self)@ == old(self)@,
    {
        Err(bare_syntax_error())
    }

    fn read_bool(&mut self) -> (r: Result<bool, Error>)
        ensures
            refused(r, Seq::empty()),
            final(self)@ == old(self)@,
    {
        Err(bare_syntax_error())
    }

    fn read_f64(&mut self) -> (r: Result<u64, Error>)
        ensures
            refused(r, Seq::empty()),
            final(self)@ == old(self)@,
    {
        Err(bare_syntax_error())
    }

    fn read_f32(&mut self) -> (r: Result<u32, Error>)
        ensures
            refused(r, Seq::empty()),
            final(self)@ == old(self)@,
    {
        Err(bare_syntax_error())
    }

    /// Takes the character on top of the stack.
    fn read_char(&mut self) -> (r: Result<char, Error>)
        ensures
            final(self)@ == popped(old(self)@),
            match top_of(old(self)@) {
                Some(OuterItem::CharState(c)) => r == Ok::<char, Error>(c),
                _ => refused(r, Seq::empty()),
            },
    {
        match self.pop() {
            Some(OuterItem::CharState(c)) => Ok(c),
            _ => Err(bare_syntax_error()),
        }
    }

    /// Takes the text on top of the stack.
    fn read_str(&mut self) -> (r: Result<String, Error>)
        ensures
            final(self)@ == popped(old(self)@),
            match top_of(old(self)@) {
                Some(OuterItem::StringState(text)) => r == Ok::<String, Error>(text),
                _ => refused(r, Seq::empty()),
            },
    {
        match self.pop() {
            Some(OuterItem::StringState(text)) => Ok(text),
            _ => Err(bare_syntax_error()),
        }
    }

    fn read_enum<T, F: FnOnce(&mut Self) -> Result<T, Error>>(&mut self, name: &str, f: F) -> (r:
        Result<T, Error>)
        ensures
            refused(r, Seq::empty()),
            final(self)@ == old(self)@,
    {
        Err(bare_syntax_error())
    }

    fn read_enum_variant<T, F: FnOnce(&mut Self, usize) -> Result<T, Error>>(
        &mut self,
        names: &[&str],
        f: F,
    ) -> (r: Result<T, Error>)
        ensures
            refused(r, Seq::empty()),
            final(self)@ == old(self)@,
    {
        Err(bare_syntax_error())
    }

    fn read_enum_variant_arg<T, F: FnOnce(&mut Self) -> Result<T, Error>>(
        &mut self,
        a_idx: usize,
        f: F,
    ) -> (r: Result<T, Error>)
        ensures
            refused(r, Seq::empty()),
            final(self)@ == old(self)@,
    {
        Err(bare_syntax_error())
    }

    fn read_enum_struct_variant<T, F: FnOnce(&mut Self, usize) -> Result<T, Error>>(
        &mut self,
        names: &[&str],
        f: F,
    ) -> (r: Result<T, Error>)
        ensures
            refused(r, Seq::empty()),
            final(self)@ == old(self)@,
    {
        Err(bare_syntax_error())
    }

    fn read_enum_struct_variant_field<T, F: FnOnce(&mut Self) -> Result<T, Error>>(
        &mut self,
        f_name: &str,
        f_idx: usize,
        f: F,
    ) -> (r: Result<T, Error>)
        ensures
            refused(r, Seq::empty()),
            final(self)@ == old(self)@,
    {
        Err(bare_syntax_error())
    }

    /// Takes the struct on top of the stack and, where it goes by `s_name`,
    /// puts its fields in its place, each under its name and the first field
    /// uppermost, and calls `f`. Refuses a struct of another name, and
    /// anything that is no struct.
    fn read_struct<T, F: FnOnce(&mut Self) -> Result<T, Error>>(
        &mut self,
        s_name: &str,
        len: usize,
        f: F,
    ) -> (r: Result<T, Error>)
        ensures
            match top_of(old(self)@) {
                Some(OuterItem::OuterState(outer)) => if s_name@ == "Outer"@ {
                    exists|d: &mut Self| #![trigger call_ensures(f, (d,), r)]
                        (*d)@ == old(self)@.drop_last() + outer_children(outer) && call_ensures(
                            f,
                            (d,),
                            r,
                        ) && *final(d) == *final(self)
                } else {
                    refused(r, "expected Outer"@) && final(self)@ == old(self)@.drop_last()
                },
                Some(OuterItem::InnerState(inner)) => if s_name@ == "Inner"@ {
                    exists|d: &mut Self| #![trigger call_ensures(f, (d,), r)]
                        (*d)@ == old(self)@.drop_last() + inner_children(inner) && call_ensures(
                            f,
                            (d,),
                            r,
                        ) && *final(d) == *final(self)
                } else {
                    refused(r, "expected Inner"@) && final(self)@ == old(self)@.drop_last()
                },
                _ => refused(r, "expected InnerState or OuterState"@)
                    && final(self)@ == popped(old(self)@),
            },
    {
        match self.pop() {
            Some(OuterItem::OuterState(outer)) => {
                if same_text(s_name, "Outer") {
                    self.push_outer_fields(outer);
                    f(self)
                } else {
                    Err(syntax_error("expected Outer"))
                }
            },
            Some(OuterItem::InnerState(inner)) => {
                if same_text(s_name, "Inner") {
                    self.push_inner_fields(inner);
                    f(self)
                } else {
                    Err(syntax_error("expected Inner"))
                }
            },
            _ => Err(syntax_error("expected InnerState or OuterState")),
        }
    }

    /// Takes the field name on top of the stack and, where it is `f_name`,
    /// calls `f` for the value below it. Refuses another name, and anything
    /// that is no field name.
    fn read_struct_field<T, F: FnOnce(&mut Self) -> Result<T, Error>>(
        &mut self,
        f_name: &str,
        f_idx: usize,
        f: F,
    ) -> (r: Result<T, Error>)
        ensures
            match top_of(old(self)@) {
                Some(OuterItem::FieldState(name)) => if f_name@ == name@ {
                    exists|d: &mut Self| #![trigger call_ensures(f, (d,), r)]
                        (*d)@ == old(self)@.drop_last() && call_ensures(f, (d,), r) && *final(d)
                            == *final(self)
                } else {
                    refused(r, "expected FieldState"@) && final(self)@ == old(self)@.drop_last()
                },
                _ => refused(r, "expected FieldState"@) && final(self)@ == popped(old(self)@),
            },
    {
        match self.pop() {
            Some(OuterItem::FieldState(name)) => {
                if same_text(f_name, name) {
                    f(self)
                } else {
                    Err(syntax_error("expected FieldState"))
                }
            },
            _ => Err(syntax_error("expected FieldState")),
        }
    }

    fn read_tuple<T, F: FnOnce(&mut Self, usize) -> Result<T, Error>>(&mut self, f: F) -> (r:
        Result<T, Error>)
        ensures
            refused(r, Seq::empty()),
            final(self)@ == old(self)@,
    {
        Err(bare_syntax_error())
    }

    fn read_tuple_arg<T, F: FnOnce(&mut Self) -> Result<T, Error>>(
        &mut self,
        a_idx: usize,
        f: F,
    ) -> (r: Result<T, Error>)
        ensures
            refused(r, Seq::empty()),
            final(self)@ == old(self)@,
    {
        Err(bare_syntax_error())
    }

    fn read_tuple_struct<T, F: FnOnce(&mut Self, usize) -> Result<T, Error>>(
        &mut self,
        s_name: &str,
        f: F,
    ) -> (r: Result<T, Error>)
        ensures
            refused(r, Seq::empty()),
            final(self)@ == old(self)@,
    {
        Err(bare_syntax_error())
    }

    fn read_tuple_struct_arg<T, F: FnOnce(&mut Self) -> Result<T, Error>>(
        &mut self,
        a_idx: usize,
        f: F,
    ) -> (r: Result<T, Error>)
        ensures
            refused(r, Seq::empty()),
            final(self)@ == old(self)@,
    {
        Err(bare_syntax_error())
    }

    /// Takes the mark on top of the stack and tells `f` what it says.
    fn read_option<T, F: FnOnce(&mut Self, bool) -> Result<T, Error>>(&mut self, f: F) -> (r:
        Result<T, Error>)
        ensures
            match top_of(old(self)@) {
                Some(OuterItem::OptionState(present)) => exists|d: &mut Self|
                    #![trigger call_ensures(f, (d, present), r)]
                    (*d)@ == old(self)@.drop_last() && call_ensures(f, (d, present), r)
                        && *final(d) == *final(self),
                _ => refused(r, "expected OptionState"@) && final(self)@ == popped(old(self)@),
            },
    {
        match self.pop() {
            Some(OuterItem::OptionState(present)) => f(self, present),
            _ => Err(syntax_error("expected OptionState")),
        }
    }

    /// Takes the sequence on top of the stack, puts its elements in its
    /// place, the first element uppermost, and tells `f` how many there are.
    fn read_seq<T, F: FnOnce(&mut Self, usize) -> Result<T, Error>>(&mut self, f: F) -> (r:
        Result<T, Error>)
        ensures
            match top_of(old(self)@) {
                Some(OuterItem::VecState(items)) => exists|d: &mut Self, len: usize|
                    #![trigger call_ensures(f, (d, len), r)]
                    (*d)@ == old(self)@.drop_last() + vec_children(items@) && len == items@.len()
                        && call_ensures(f, (d, len), r) && *final(d) == *final(self),
                _ => refused(r, "expected VecState"@) && final(self)@ == popped(old(self)@),
            },
    {
        match self.pop() {
            Some(OuterItem::VecState(items)) => {
                let len = items.len();
                self.push_elements(items);
                f(self, len)
            },
            _ => Err(syntax_error("expected VecState")),
        }
    }

    /// Calls `f` on the adapter as it stands.
    fn read_seq_elt<T, F: FnOnce(&mut Self) -> Result<T, Error>>(&mut self, idx: usize, f: F) -> (r:
        Result<T, Error>)
        ensures
            exists|d: &mut Self| #![trigger call_ensures(f, (d,), r)]
                (*d)@ == old(self)@ && call_ensures(f, (d,), r) && *final(d) == *final(self),
    {
        f(self)
    }

    /// Takes the mapping on top of the stack, puts its entries in its place
    /// in the order in which it lists them, the entry listed last uppermost,
    /// and tells `f` how many there are. A mapping lists its keys in
    /// increasing order.
    fn read_map<T, F: FnOnce(&mut Self, usize) -> Result<T, Error>>(&mut self, f: F) -> (r:
        Result<T, Error>)
        ensures
            match top_of(old(self)@) {
                Some(OuterItem::MapState(map)) => keys_increase(char_pairs(map.listing()))
                    && exists|d: &mut Self, len: usize|
                    #![trigger call_ensures(f, (d, len), r)]
                    (*d)@ == old(self)@.drop_last() + map_children(map.listing()) && len
                        == map.listing().len() && call_ensures(f, (d, len), r) && *final(d)
                        == *final(self),
                _ => refused(r, "expected MapState"@) && final(self)@ == popped(old(self)@),
            },
    {
        match self.pop() {
            Some(OuterItem::MapState(map)) => {
                let len = map.len();
                self.push_entries(map);
                f(self, len)
            },
            _ => Err(syntax_error("expected MapState")),
        }
    }

    /// Calls `f` on the adapter as it stands.
    fn read_map_elt_key<T, F: FnOnce(&mut Self) -> Result<T, Error>>(
        &mut self,
        idx: usize,
        f: F,
    ) -> (r: Result<T, Error>)
        ensures
            exists|d: &mut Self| #![trigger call_ensures(f, (d,), r)]
                (*d)@ == old(self)@ && call_ensures(f, (d,), r) && *final(d) == *final(self),
    {
        f(self)
    }

    /// Calls `f` on the adapter as it stands.
    fn read_map_elt_val<T, F: FnOnce(&mut Self) -> Result<T, Error>>(
        &mut self,
        idx: usize,
        f: F,
    ) -> (r: Result<T, Error>)
        ensures
            exists|d: &mut Self| #![trigger call_ensures(f, (d,), r)]
                (*d)@ == old(self)@ && call_ensures(f, (d,), r) && *final(d) == *final(self),
    {
        f(self)
    }
}

/// What reads as one entry off the top of `stack`: a key above a mark, and a
/// character below the mark where the mark says so. Gives the entry and what
/// is left of the stack.
pub open spec fn entry_on_top(stack: Seq<OuterItem>) -> Option<((String, Letter), Seq<OuterItem>)> {
    let n = stack.len() as int;
    if n >= 2 && stack[n - 1] is StringState && stack[n - 2] == OuterItem::OptionState(false) {
        Some(((stack[n - 1]->StringState_0, Letter::Absent), stack.take(n - 2)))
    } else if n >= 3 && stack[n - 1] is StringState && stack[n - 2] == OuterItem::OptionState(true)
        && stack[n - 3] is CharState {
        Some(
            (
                (stack[n - 1]->StringState_0, Letter::Present(stack[n - 3]->CharState_0)),
                stack.take(n - 3),
            ),
        )
    } else {
        None
    }
}

/// What reads as `count` entries off the top of `stack`: the entries in the
/// order read, and what is left of the stack.
pub open spec fn entries_on_top(stack: Seq<OuterItem>, count: nat) -> Option<
    (Seq<(String, Letter)>, Seq<OuterItem>),
>
    decreases count,
{
    if count == 0 {
        Some((Seq::empty(), stack))
    } else {
        match entry_on_top(stack) {
            None => None,
            Some((entry, rest)) => match entries_on_top(rest, (count - 1) as nat) {
                None => None,
                Some((more, left)) => Some((seq![entry] + more, left)),
            },
        }
    }
}

/// As many entries are read as were asked for.
proof fn lemma_entries_count(stack: Seq<OuterItem>, count: nat)
    ensures
        entries_on_top(stack, count) matches Some((entries, _)) ==> entries.len() == count,
    decreases count,
{
    if count > 0 {
        match entry_on_top(stack) {
            None => {},
            Some((entry, rest)) => {
                lemma_entries_count(rest, (count - 1) as nat);
            },
        }
    }
}

/// The entries of a mapping laid out on a stack read back in reverse.
proof fn lemma_entries_laid_out(below: Seq<OuterItem>, entries: Seq<(String, Letter)>)
    ensures
        entries_on_top(below + map_children(entries), entries.len()) == Some(
            (entries.reverse(), below),
        ),
    decreases entries.len(),
{
    let stack = below + map_children(entries);
    if entries.len() == 0 {
        assert(stack =~= below);
        assert(entries.reverse() =~= Seq::empty());
    } else {
        let front = entries.drop_last();
        let last = entries.last();
        let lower = below + map_children(front);
        assert(stack =~= lower + entry_items(last));
        lemma_entries_laid_out(below, front);
        let n = stack.len() as int;
        match last.1 {
            Letter::Present(c) => {
                assert(stack[n - 1] == OuterItem::StringState(last.0));
                assert(stack[n - 2] == OuterItem::OptionState(true));
                assert(stack[n - 3] == OuterItem::CharState(c));
                assert(stack.take(n - 3) =~= lower);
            },
            Letter::Absent => {
                assert(stack[n - 1] == OuterItem::StringState(last.0));
                assert(stack[n - 2] == OuterItem::OptionState(false));
                assert(stack.take(n - 2) =~= lower);
            },
        }
        assert(entry_on_top(stack) == Some((last, lower)));
        assert(seq![last] + front.reverse() =~= entries.reverse());
    }
}

/// Reads a unit value.
fn read_unit(d: &mut OuterAdapter) -> (r: Result<(), Error>)
    ensures
        final(d)@ == popped(old(d)@),
        match top_of(old(d)@) {
            Some(OuterItem::NullState) => r is Ok,
            _ => refused(r, "NullState"@),
        },
{
    d.read_nil()
}

/// Reads an unsigned number.
fn read_count(d: &mut OuterAdapter) -> (r: Result<usize, Error>)
    ensures
        final(d)@ == popped(old(d)@),
        match top_of(old(d)@) {
            Some(OuterItem::UintState(value)) => r == Ok::<usize, Error>(value),
            _ => refused(r, "UintState"@),
        },
{
    d.read_uint()
}

/// Reads a key.
fn read_key(d: &mut OuterAdapter) -> (r: Result<String, Error>)
    ensures
        final(d)@ == popped(old(d)@),
        match top_of(old(d)@) {
            Some(OuterItem::StringState(text)) => r == Ok::<String, Error>(text),
            _ => refused(r, Seq::empty()),
        },
{
    d.read_str()
}

/// Reads the character that a mark announced, if it announced one.
fn option_body(d: &mut OuterAdapter, present: bool) -> (r: Result<Letter, Error>)
    ensures
        !present ==> r == Ok::<Letter, Error>(Letter::Absent) && final(d)@ == old(d)@,
        present ==> final(d)@ == popped(old(d)@) && match top_of(old(d)@) {
            Some(OuterItem::CharState(c)) => r == Ok::<Letter, Error>(Letter::Present(c)),
            _ => refused(r, Seq::empty()),
        },
{
    if present {
        match d.read_char() {
            Ok(c) => Ok(Letter::Present(c)),
            Err(error) => Err(error),
        }
    } else {
        Ok(Letter::Absent)
    }
}

/// Reads an optional character: a mark, and the character below it where the
/// mark says that one is there.
fn decode_option(d: &mut OuterAdapter) -> (r: Result<Letter, Error>)
    ensures
        match top_of(old(d)@) {
            Some(OuterItem::OptionState(false)) => r == Ok::<Letter, Error>(Letter::Absent)
                && final(d)@ == old(d)@.drop_last(),
            Some(OuterItem::OptionState(true)) => final(d)@ == popped(old(d)@.drop_last())
                && match top_of(old(d)@.drop_last()) {
                Some(OuterItem::CharState(c)) => r == Ok::<Letter, Error>(Letter::Present(c)),
                _ => refused(r, Seq::empty()),
            },
            _ => refused(r, "expected OptionState"@) && final(d)@ == popped(old(d)@),
        },
{
    d.read_option(option_body)
}

/// Reads `len` entries off the adapter into a mapping, a later entry taking
/// the place of an earlier one with the same key.
fn map_entries(d: &mut OuterAdapter, len: usize) -> (r: Result<CharMap, Error>)
    ensures
        entries_on_top(old(d)@, len as nat) matches Some((entries, left)) ==> (r matches Ok(map)
            && map@ == assoc_map(char_pairs(entries)) && final(d)@ == left),
{
    let ghost start = d@;
    let mut map = CharMap::new();
    let mut at: usize = 0;
    proof {
        lemma_entries_count(start, len as nat);
        if entries_on_top(start, len as nat) is Some {
            let entries = entries_on_top(start, len as nat)->Some_0.0;
            assert(entries.skip(0) =~= entries);
            assert(char_pairs(entries.take(0)) =~= Seq::empty());
        }
    }
    while at < len
        invariant
            at <= len,
            start == old(d)@,
            entries_on_top(start, len as nat) matches Some((entries, left)) ==> entries.len() == len
                && entries_on_top(d@, (len - at) as nat) == Some((entries.skip(at as int), left))
                && map@ == assoc_map(char_pairs(entries.take(at as int))),
        decreases len - at,
    {
        let ghost now = d@;
        let ghost fine = entries_on_top(start, len as nat) is Some;
        let ghost entries = entries_on_top(start, len as nat)->Some_0.0;
        let ghost left = entries_on_top(start, len as nat)->Some_0.1;
        proof {
            if fine {
                let found = entry_on_top(now);
                assert(found is Some);
                let rest = found->Some_0.1;
                let more = entries_on_top(rest, (len - at - 1) as nat)->Some_0.0;
                assert(entries.skip(at as int) == seq![found->Some_0.0] + more);
                assert(entries.skip(at as int)[0] == found->Some_0.0);
                assert((seq![found->Some_0.0] + more).skip(1) =~= more);
                assert(entries.skip(at as int).skip(1) =~= entries.skip(at + 1));
                assert(now.drop_last().drop_last() =~= now.take(now.len() - 2));
                assert(now.len() >= 3 ==> now.drop_last().drop_last().drop_last() =~= now.take(
                    now.len() - 3,
                ));
                assert(top_of(now) == Some(now[now.len() - 1]));
                assert(top_of(now.drop_last()) == Some(now[now.len() - 2]));
                assert(now.len() >= 3 ==> top_of(now.drop_last().drop_last()) == Some(
                    now[now.len() - 3],
                ));
            }
        }
        let key = match d.read_map_elt_key(at, read_key) {
            Ok(key) => key,
            Err(error) => {
                return Err(error);
            },
        };
        let value = match d.read_map_elt_val(at, decode_option) {
            Ok(value) => value,
            Err(error) => {
                return Err(error);
            },
        };
        proof {
            if fine {
                assert(entries[at as int] == (key, value));
                let done = entries.take(at as int);
                let next = entries.take(at + 1);
                assert(next =~= done.push((key, value)));
                assert(char_pairs(next) =~= char_pairs(done).push((key@, value.as_option())));
                assert(char_pairs(next).drop_last() =~= char_pairs(done));
            }
        }
        map.insert(key, value.to_option());
        at += 1;
    }
    proof {
        if entries_on_top(start, len as nat) is Some {
            let entries = entries_on_top(start, len as nat)->Some_0.0;
            assert(entries.take(len as int) =~= entries);
        }
    }
    Ok(map)
}

/// Rebuilds the mapping on top of the adapter.
fn decode_map(d: &mut OuterAdapter) -> (r: Result<CharMap, Error>)
    ensures
        match top_of(old(d)@) {
            Some(OuterItem::MapState(map)) => (r matches Ok(out) && out@ == map@) && final(d)@
                == old(d)@.drop_last(),
            _ => refused(r, "expected MapState"@) && final(d)@ == popped(old(d)@),
        },
{
    proof {
        if old(d)@.len() > 0 && old(d)@.last() is MapState {
            let map = old(d)@.last()->MapState_0;
            lemma_entries_laid_out(old(d)@.drop_last(), map.listing());
        }
    }
    let r = d.read_map(map_entries);
    proof {
        if old(d)@.len() > 0 && old(d)@.last() is MapState {
            let map = old(d)@.last()->MapState_0;
            lemma_reverse_same_map(map.listing());
        }
    }
    r
}

/// The inner struct whose fields lie on top of `stack`, if they do.
pub open spec fn inner_on_top(stack: Seq<OuterItem>) -> Option<Inner> {
    let n = stack.len() as int;
    if n >= 6 && stack[n - 4] is UintState && stack[n - 6] is MapState {
        let inner = Inner { a: (), b: stack[n - 4]->UintState_0, c: stack[n - 6]->MapState_0 };
        if stack.skip(n - 6) == inner_children(inner) {
            Some(inner)
        } else {
            None
        }
    } else {
        None
    }
}

/// Rebuilds an inner struct from its fields on top of the adapter.
fn inner_fields(d: &mut OuterAdapter) -> (r: Result<Inner, Error>)
    ensures
        inner_on_top(old(d)@) matches Some(inner) ==> (r matches Ok(out) && out@ == inner@)
            && final(d)@ == old(d)@.take(old(d)@.len() - 6),
{
    let ghost start = d@;
    let ghost n = start.len() as int;
    proof {
        if inner_on_top(start) is Some {
            assert(start.skip(n - 6)[5] == start[n - 1]);
            assert(start.skip(n - 6)[4] == start[n - 2]);
            assert(start.skip(n - 6)[3] == start[n - 3]);
            assert(start.skip(n - 6)[2] == start[n - 4]);
            assert(start.skip(n - 6)[1] == start[n - 5]);
            assert(start.skip(n - 6)[0] == start[n - 6]);
            assert(start.drop_last().drop_last() =~= start.take(n - 2));
            assert(start.take(n - 2).drop_last().drop_last() =~= start.take(n - 4));
            assert(start.take(n - 4).drop_last().drop_last() =~= start.take(n - 6));
            assert(start.take(n - 2).last() == start[n - 3]);
            assert(start.take(n - 4).last() == start[n - 5]);
            assert(start.drop_last().last() == start[n - 2]);
            assert(start.take(n - 2).drop_last().last() == start[n - 4]);
            assert(start.take(n - 4).drop_last().last() == start[n - 6]);
        }
    }
    let a = match d.read_struct_field("a", 0, read_unit) {
        Ok(a) => a,
        Err(error) => {
            return Err(error);
        },
    };
    let b = match d.read_struct_field("b", 1, read_count) {
        Ok(b) => b,
        Err(error) => {
            return Err(error);
        },
    };
    let c = match d.read_struct_field("c", 2, decode_map) {
        Ok(c) => c,
        Err(error) => {
            return Err(error);
        },
    };
    Ok(Inner { a, b, c })
}

impl Inner {
    /// Rebuilds the inner struct that `d` holds on top by asking `d` for its
    /// parts.
    ///
    /// Where an inner struct is on top, one with the same view comes back and
    /// `d` is left with what lay below it. Otherwise `d` refuses.
    pub fn decode(d: &mut OuterAdapter) -> (r: Result<Inner, Error>)
        ensures
            match top_of(old(d)@) {
                Some(OuterItem::InnerState(inner)) => (r matches Ok(out) && out@ == inner@)
                    && final(d)@ == old(d)@.drop_last(),
                Some(OuterItem::OuterState(_)) => refused(r, "expected Outer"@) && final(d)@
                    == old(d)@.drop_last(),
                _ => refused(r, "expected InnerState or OuterState"@) && final(d)@ == popped(
                    old(d)@,
                ),
            },
    {
        proof {
            if old(d)@.len() > 0 && old(d)@.last() is InnerState {
                let inner = old(d)@.last()->InnerState_0;
                let below = old(d)@.drop_last();
                let laid = below + inner_children(inner);
                assert(laid.skip(laid.len() - 6) =~= inner_children(inner));
                assert(laid.take(laid.len() - 6) =~= below);
                assert(laid[laid.len() - 4] == inner_children(inner)[2]);
                assert(laid[laid.len() - 6] == inner_children(inner)[0]);
                assert(Inner { a: (), b: inner.b, c: inner.c } == inner);
                assert(inner_on_top(laid) == Some(inner));
            }
            reveal_strlit("Inner");
            reveal_strlit("Outer");
            assert("Inner"@.len() == 5 && "Outer"@.len() == 5);
            assert("Inner"@[0] == 'I' && "Outer"@[0] == 'O');
        }
        d.read_struct("Inner", 3, inner_fields)
    }
}

/// The top `count` items of `stack` are inner structs.
pub open spec fn inners_on_top(stack: Seq<OuterItem>, count: nat) -> bool {
    count <= stack.len() && forall|k: int|
        0 <= k < count ==> (#[trigger] stack[stack.len() - 1 - k]) is InnerState
}

/// The inner structs on top of `stack`, the uppermost first.
pub open spec fn top_inners(stack: Seq<OuterItem>, count: nat) -> Seq<Inner> {
    Seq::new(count, |k: int| stack[stack.len() - 1 - k]->InnerState_0)
}

/// Rebuilds `len` inner structs off the adapter into a sequence.
fn inner_elements(d: &mut OuterAdapter, len: usize) -> (r: Result<Vec<Inner>, Error>)
    ensures
        inners_on_top(old(d)@, len as nat) ==> (r matches Ok(out) && inner_views(out@)
            == inner_views(top_inners(old(d)@, len as nat))) && final(d)@ == old(d)@.take(
            old(d)@.len() - len,
        ),
{
    let ghost start = d@;
    let mut out: Vec<Inner> = Vec::new();
    let mut at: usize = 0;
    assert(start.take(start.len() as int) =~= start);
    while at < len
        invariant
            at <= len,
            out@.len() == at,
            start == old(d)@,
            inners_on_top(start, len as nat)
                ==> d@ == start.take(start.len() - at) && forall|k: int|
                0 <= k < at ==> (#[trigger] out@[k])@ == start[start.len() - 1 - k]->InnerState_0@,
        decreases len - at,
    {
        proof {
            if inners_on_top(start, len as nat) {
                assert(start[start.len() - 1 - at] is InnerState);
                assert(d@.last() == start[start.len() - 1 - at]);
                assert(d@.drop_last() =~= start.take(start.len() - at - 1));
                assert(top_of(d@) == Some(start[start.len() - 1 - at]));
            }
        }
        let item = match d.read_seq_elt(at, Inner::decode) {
            Ok(item) => item,
            Err(error) => {
                return Err(error);
            },
        };
        out.push(item);
        at += 1;
    }
    proof {
        if inners_on_top(start, len as nat) {
            assert(inner_views(out@) =~= inner_views(top_inners(start, len as nat)));
        }
    }
    Ok(out)
}

/// Rebuilds the sequence on top of the adapter.
fn decode_inners(d: &mut OuterAdapter) -> (r: Result<Vec<Inner>, Error>)
    ensures
        match top_of(old(d)@) {
            Some(OuterItem::VecState(items)) => (r matches Ok(out) && inner_views(out@)
                == inner_views(items@)) && final(d)@ == old(d)@.drop_last(),
            _ => refused(r, "expected VecState"@) && final(d)@ == popped(old(d)@),
        },
{
    proof {
        if old(d)@.len() > 0 && old(d)@.last() is VecState {
            let items = old(d)@.last()->VecState_0@;
            let below = old(d)@.drop_last();
            let laid = below + vec_children(items);
            assert(inners_on_top(laid, items.len())) by {
                assert forall|k: int| 0 <= k < items.len() implies (#[trigger] laid[laid.len() - 1
                    - k]) is InnerState by {
                    assert(laid[laid.len() - 1 - k] == vec_children(items)[items.len() - 1 - k]);
                }
            }
            assert(top_inners(laid, items.len()) =~= items) by {
                assert forall|k: int| 0 <= k < items.len() implies top_inners(
                    laid,
                    items.len(),
                )[k] == items[k] by {
                    assert(laid[laid.len() - 1 - k] == vec_children(items)[items.len() - 1 - k]);
                }
            }
            assert(laid.take(laid.len() - items.len()) =~= below);
        }
    }
    d.read_seq(inner_elements)
}

/// Rebuilds an outer struct from its field on top of the adapter.
fn outer_fields(d: &mut OuterAdapter) -> (r: Result<Outer, Error>)
    ensures
        old(d)@.len() >= 2 && old(d)@[old(d)@.len() - 1] == OuterItem::FieldState("inner")
            && old(d)@[old(d)@.len() - 2] is VecState ==> (r matches Ok(out) && out@
            == inner_views(old(d)@[old(d)@.len() - 2]->VecState_0@)) && final(d)@ == old(d)@.take(
            old(d)@.len() - 2,
        ),
{
    assert(old(d)@.len() >= 2 ==> old(d)@.drop_last().drop_last() =~= old(d)@.take(
        old(d)@.len() - 2,
    ) && old(d)@.drop_last().last() == old(d)@[old(d)@.len() - 2]);
    let inner = match d.read_struct_field("inner", 0, decode_inners) {
        Ok(inner) => inner,
        Err(error) => {
            return Err(error);
        },
    };
    Ok(Outer { inner })
}

impl Outer {
    /// Rebuilds the outer struct that `d` holds on top by asking `d` for its
    /// parts.
    ///
    /// Where an outer struct is on top, one with the same view comes back and
    /// `d` is left with what lay below it. Otherwise `d` refuses.
    pub fn decode(d: &mut OuterAdapter) -> (r: Result<Outer, Error>)
        ensures
            match top_of(old(d)@) {
                Some(OuterItem::OuterState(outer)) => (r matches Ok(out) && out@ == outer@)
                    && final(d)@ == old(d)@.drop_last(),
                Some(OuterItem::InnerState(_)) => refused(r, "expected Inner"@) && final(d)@
                    == old(d)@.drop_last(),
                _ => refused(r, "expected InnerState or OuterState"@) && final(d)@ == popped(
                    old(d)@,
                ),
            },
    {
        proof {
            if old(d)@.len() > 0 && old(d)@.last() is OuterState {
                let outer = old(d)@.last()->OuterState_0;
                let below = old(d)@.drop_last();
                let laid = below + outer_children(outer);
                assert(laid[laid.len() - 1] == OuterItem::FieldState("inner"));
                assert(laid[laid.len() - 2] == OuterItem::VecState(outer.inner));
                assert(laid.take(laid.len() - 2) =~= below);
            }
            reveal_strlit("Inner");
            reveal_strlit("Outer");
            assert("Inner"@.len() == 5 && "Outer"@.len() == 5);
            assert("Inner"@[0] == 'I' && "Outer"@[0] == 'O');
        }
        d.read_struct("Outer", 1, outer_fields)
    }
}

} // verus!
