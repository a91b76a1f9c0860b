//! The decoding interface: a source is asked for one thing after another, and
//! hands control to the caller's continuation for what lies inside a compound.

use crate::error::Error;
use vstd::prelude::*;

verus! {

/// A source that is asked, call by call, for the parts of a value.
///
/// An operation for a compound validates what the source holds next, lays out
/// its parts, and calls the continuation `f` with the source itself; what `f`
/// returns is what the operation returns. A continuation must therefore be
/// callable on the source whatever it holds. After an error the source is not
/// to be used further.
///
/// A floating-point number is read as its IEEE 754 bit pattern.
pub trait Decoder: Sized {
    /// An error in the caller's own words.
    fn error(&mut self, msg: &str) -> (error: Error)
        ensures
            error.is_other(msg@),
            *final(self) == *old(self),
    ;

    /// Reads a unit value.
    fn read_nil(&mut self) -> (r: Result<(), Error>);

    /// Reads an unsigned number of the machine's word size.
    fn read_uint(&mut self) -> (r: Result<usize, Error>);

    /// Reads an unsigned number of 64 bits.
    fn read_u64(&mut self) -> (r: Result<u64, Error>);

    /// Reads an unsigned number of 32 bits.
    fn read_u32(&mut self) -> (r: Result<u32, Error>);

    /// Reads an unsigned number of 16 bits.
    fn read_u16(&mut self) -> (r: Result<u16, Error>);

    /// Reads an unsigned number of 8 bits.
    fn read_u8(&mut self) -> (r: Result<u8, Error>);

    /// Reads a signed number of the machine's word size.
    fn read_int(&mut self) -> (r: Result<isize, Error>);

    /// Reads a signed number of 64 bits.
    fn read_i64(&mut self) -> (r: Result<i64, Error>);

    /// Reads a signed number of 32 bits.
    fn read_i32(&mut self) -> (r: Result<i32, Error>);

    /// Reads a signed number of 16 bits.
    fn read_i16(&mut self) -> (r: Result<i16, Error>);

    /// Reads a signed number of 8 bits.
    fn read_i8(&mut self) -> (r: Result<i8, Error>);

    /// Reads a truth value.
    fn read_bool(&mut self) -> (r: Result<bool, Error>);

    /// Reads a floating-point number of 64 bits, as its bit pattern.
    fn read_f64(&mut self) -> (r: Result<u64, Error>);

    /// Reads a floating-point number of 32 bits, as its bit pattern.
    fn read_f32(&mut self) -> (r: Result<u32, Error>);

    /// Reads a character.
    fn read_char(&mut self) -> (r: Result<char, Error>);

    /// Reads a text.
    fn read_str(&mut self) -> (r: Result<String, Error>);

    /// Enters an enum that goes by `name`.
    fn read_enum<T, F: FnOnce(&mut Self) -> Result<T, Error>>(&mut self, name: &str, f: F) -> (r:
        Result<T, Error>)
        requires
            forall|d: &mut Self| call_requires(f, (d,)),
        ensures
            r is Ok ==> exists|d: &mut Self|
                #![trigger call_ensures(f, (d,), r)]
                call_ensures(f, (d,), r) && *final(d) == *final(self),
    ;

    /// Finds which of `names` the pending variant goes by, and hands its
    /// place among them to `f`.
    fn read_enum_variant<T, F: FnOnce(&mut Self, usize) -> Result<T, Error>>(
        &mut self,
        names: &[&str],
        f: F,
    ) -> (r: Result<T, Error>)
        requires
            forall|d: &mut Self, at: usize| call_requires(f, (d, at)),
        ensures
            r is Ok ==> exists|d: &mut Self, at: usize| #![trigger call_ensures(f, (d, at), r)]
                at < names@.len() && call_ensures(f, (d, at), r) && *final(d) == *final(self),
    ;

    /// Enters the field at `a_idx` of the pending variant.
    fn read_enum_variant_arg<T, F: FnOnce(&mut Self) -> Result<T, Error>>(
        &mut self,
        a_idx: usize,
        f: F,
    ) -> (r: Result<T, Error>)
        requires
            forall|d: &mut Self| call_requires(f, (d,)),
        ensures
            r is Ok ==> exists|d: &mut Self|
                #![trigger call_ensures(f, (d,), r)]
                call_ensures(f, (d,), r) && *final(d) == *final(self),
    ;

    /// Finds which of `names` the pending variant with named fields goes by,
    /// and hands its place among them to `f`.
    fn read_enum_struct_variant<T, F: FnOnce(&mut Self, usize) -> Result<T, Error>>(
        &mut self,
        names: &[&str],
        f: F,
    ) -> (r: Result<T, Error>)
        requires
            forall|d: &mut Self, at: usize| call_requires(f, (d, at)),
        ensures
            r is Ok ==> exists|d: &mut Self, at: usize| #![trigger call_ensures(f, (d, at), r)]
                at < names@.len() && call_ensures(f, (d, at), r) && *final(d) == *final(self),
    ;

    /// Enters the field that goes by `f_name` and stands at `f_idx` in the
    /// pending variant.
    fn read_enum_struct_variant_field<T, F: FnOnce(&mut Self) -> Result<T, Error>>(
        &mut self,
        f_name: &str,
        f_idx: usize,
        f: F,
    ) -> (r: Result<T, Error>)
        requires
            forall|d: &mut Self| call_requires(f, (d,)),
        ensures
            r is Ok ==> exists|d: &mut Self| #![trigger call_ensures(f, (d,), r)]
                call_ensures(f, (d,), r) && *final(d) == *final(self),
    ;

    /// Enters a struct that goes by `s_name` and has `len` fields.
    fn read_struct<T, F: FnOnce(&mut Self) -> Result<T, Error>>(
        &mut self,
        s_name: &str,
        len: usize,
        f: F,
    ) -> (r: Result<T, Error>)
        requires
            forall|d: &mut Self| call_requires(f, (d,)),
        ensures
            r is Ok ==> exists|d: &mut Self|
                #![trigger call_ensures(f, (d,), r)]
                call_ensures(f, (d,), r) && *final(d) == *final(self),
    ;

    /// Enters the field that goes by `f_name` and stands at `f_idx`.
    fn read_struct_field<T, F: FnOnce(&mut Self) -> Result<T, Error>>(
        &mut self,
        f_name: &str,
        f_idx: usize,
        f: F,
    ) -> (r: Result<T, Error>)
        requires
            forall|d: &mut Self| call_requires(f, (d,)),
        ensures
            r is Ok ==> exists|d: &mut Self|
                #![trigger call_ensures(f, (d,), r)]
                call_ensures(f, (d,), r) && *final(d) == *final(self),
    ;

    /// Enters a tuple and tells `f` how many fields it has.
    fn read_tuple<T, F: FnOnce(&mut Self, usize) -> Result<T, Error>>(&mut self, f: F) -> (r:
        Result<T, Error>)
        requires
            forall|d: &mut Self, len: usize| call_requires(f, (d, len)),
        ensures
            r is Ok ==> exists|d: &mut Self, len: usize| #![trigger call_ensures(f, (d, len), r)]
                call_ensures(f, (d, len), r) && *final(d) == *final(self),
    ;

    /// Enters the field at `a_idx` of the pending tuple.
    fn read_tuple_arg<T, F: FnOnce(&mut Self) -> Result<T, Error>>(
        &mut self,
        a_idx: usize,
        f: F,
    ) -> (r: Result<T, Error>)
        requires
            forall|d: &mut Self| call_requires(f, (d,)),
        ensures
            r is Ok ==> exists|d: &mut Self| #![trigger call_ensures(f, (d,), r)]
                call_ensures(f, (d,), r) && *final(d) == *final(self),
    ;

    /// Enters a tuple struct that goes by `s_name` and tells `f` how many
    /// fields it has.
    fn read_tuple_struct<T, F: FnOnce(&mut Self, usize) -> Result<T, Error>>(
        &mut self,
        s_name: &str,
        f: F,
    ) -> (r: Result<T, Error>)
        requires
            forall|d: &mut Self, len: usize| call_requires(f, (d, len)),
        ensures
            r is Ok ==> exists|d: &mut Self, len: usize| #![trigger call_ensures(f, (d, len), r)]
                call_ensures(f, (d, len), r) && *final(d) == *final(self),
    ;

    /// Enters the field at `a_idx` of the pending tuple struct.
    fn read_tuple_struct_arg<T, F: FnOnce(&mut Self) -> Result<T, Error>>(
        &mut self,
        a_idx: usize,
        f: F,
    ) -> (r: Result<T, Error>)
        requires
            forall|d: &mut Self| call_requires(f, (d,)),
        ensures
            r is Ok ==> exists|d: &mut Self| #![trigger call_ensures(f, (d,), r)]
                call_ensures(f, (d,), r) && *final(d) == *final(self),
    ;

    /// Tells `f` whether an optional value is present.
    fn read_option<T, F: FnOnce(&mut Self, bool) -> Result<T, Error>>(&mut self, f: F) -> (r:
        Result<T, Error>)
        requires
            forall|d: &mut Self, present: bool| call_requires(f, (d, present)),
        ensures
            r is Ok ==> exists|d: &mut Self, present: bool|
                #![trigger call_ensures(f, (d, present), r)]
                call_ensures(f, (d, present), r) && *final(d) == *final(self),
    ;

    /// Enters a sequence and tells `f` how many elements it has.
    fn read_seq<T, F: FnOnce(&mut Self, usize) -> Result<T, Error>>(&mut self, f: F) -> (r:
        Result<T, Error>)
        requires
            forall|d: &mut Self, len: usize| call_requires(f, (d, len)),
        ensures
            r is Ok ==> exists|d: &mut Self, len: usize| #![trigger call_ensures(f, (d, len), r)]
                call_ensures(f, (d, len), r) && *final(d) == *final(self),
    ;

    /// Enters the element at `idx` of the pending sequence.
    fn read_seq_elt<T, F: FnOnce(&mut Self) -> Result<T, Error>>(&mut self, idx: usize, f: F) -> (r:
        Result<T, Error>)
        requires
            forall|d: &mut Self| call_requires(f, (d,)),
        ensures
            r is Ok ==> exists|d: &mut Self|
                #![trigger call_ensures(f, (d,), r)]
                call_ensures(f, (d,), r) && *final(d) == *final(self),
    ;

    /// Enters a mapping and tells `f` how many entries it has.
    fn read_map<T, F: FnOnce(&mut Self, usize) -> Result<T, Error>>(&mut self, f: F) -> (r:
        Result<T, Error>)
        requires
            forall|d: &mut Self, len: usize| call_requires(f, (d, len)),
        ensures
            r is Ok ==> exists|d: &mut Self, len: usize| #![trigger call_ensures(f, (d, len), r)]
                call_ensures(f, (d, len), r) && *final(d) == *final(self),
    ;

    /// Enters the key of the entry at `idx` of the pending mapping.
    fn read_map_elt_key<T, F: FnOnce(&mut Self) -> Result<T, Error>>(
        &mut self,
        idx: usize,
        f: F,
    ) -> (r: Result<T, Error>)
        requires
            forall|d: &mut Self| call_requires(f, (d,)),
        ensures
            r is Ok ==> exists|d: &mut Self|
                #![trigger call_ensures(f, (d,), r)]
                call_ensures(f, (d,), r) && *final(d) == *final(self),
    ;

    /// Enters the value of the entry at `idx` of the pending mapping.
    fn read_map_elt_val<T, F: FnOnce(&mut Self) -> Result<T, Error>>(
        &mut self,
        idx: usize,
        f: F,
    ) -> (r: Result<T, Error>)
        requires
            forall|d: &mut Self| call_requires(f, (d,)),
        ensures
            r is Ok ==> exists|d: &mut Self|
                #![trigger call_ensures(f, (d,), r)]
                call_ensures(f, (d,), r) && *final(d) == *final(self),
    ;
}

/// The item on top of a stack, if there is one.
pub open spec fn top_of<S>(stack: Seq<S>) -> Option<S> {
    if stack.len() > 0 {
        Some(stack.last())
    } else {
        None
    }
}

/// What is left of a stack once its top is taken, if it has one.
pub open spec fn popped<S>(stack: Seq<S>) -> Seq<S> {
    if stack.len() > 0 {
        stack.drop_last()
    } else {
        stack
    }
}

} // verus!
