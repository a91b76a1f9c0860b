//! A mapping from text keys to optional characters.

use crate::assoc::{
    assoc_map, find_slot, keys_distinct, lemma_assoc_same_pairs, keys_increase, lemma_absent,
        lemma_assoc_insert_at, lemma_assoc_keys,
    lemma_assoc_len, lemma_assoc_lookup, lemma_assoc_update_at, lemma_increasing_keys_are_distinct,
    lemma_insert_keeps_increase, lemma_update_keeps_increase, Key,
};
use vstd::prelude::*;

verus! {

/// A mapping from text keys to optional characters.
///
/// The entries are kept in increasing order of key, by code point, and are
/// listed in that order: two mappings with the same entries are stored alike,
/// in whatever order the entries were put in.
#[derive(Debug, PartialEq, Eq)]
pub struct CharMap {
    entries: Vec<(String, Letter)>,
}

/// An optional character as a mapping stores it.
#[derive(Clone, Copy, Debug, PartialEq, Eq, Structural)]
pub enum Letter {
    /// The character is there.
    Present(char),
    /// No character is there.
    Absent,
}

impl Letter {
    /// The optional character that this stands for.
    pub open spec fn as_option(self) -> Option<char> {
        match self {
            Letter::Present(c) => Some(c),
            Letter::Absent => None,
        }
    }

    /// The stored form of an optional character.
    pub fn from_option(value: Option<char>) -> (letter: Letter)
        ensures
            letter.as_option() == value,
    {
        match value {
            Some(c) => Letter::Present(c),
            None => Letter::Absent,
        }
    }

    /// The optional character that this stands for.
    pub fn to_option(self) -> (value: Option<char>)
        ensures
            value == self.as_option(),
    {
        match self {
            Letter::Present(c) => Some(c),
            Letter::Absent => None,
        }
    }
}

/// The entries, each key by its view and each value as an optional character.
pub open spec fn char_pairs(entries: Seq<(String, Letter)>) -> Seq<(Key, Option<char>)> {
    entries.map_values(|entry: (String, Letter)| (entry.0@, entry.1.as_option()))
}

impl View for CharMap {
    type V = Map<Key, Option<char>>;

    open spec fn view(&self) -> Map<Key, Option<char>> {
        assoc_map(char_pairs(self.listing()))
    }
}

impl Clone for CharMap {
    /// A mapping with the same entries.
    fn clone(&self) -> (copy: CharMap)
        ensures
            copy.listing() == self.listing(),
    {
        proof {
            use_type_invariant(self);
        }
        let mut entries: Vec<(String, Letter)> = Vec::new();
        let n = self.entries.len();
        let mut at: usize = 0;
        while at < n
            invariant
                n == self.entries@.len(),
                at <= n,
                entries@ == self.entries@.take(at as int),
            decreases n - at,
        {
            let key = self.entries[at].0.clone();
            let value = self.entries[at].1;
            entries.push((key, value));
            assert(entries@ =~= self.entries@.take(at + 1));
            at += 1;
        }
        assert(entries@ =~= self.entries@);
        CharMap { entries }
    }
}

impl CharMap {
    /// The entries in the order in which the mapping lists them.
    pub closed spec fn listing(&self) -> Seq<(String, Letter)> {
        self.entries@
    }

    /// The mapping lists its entries by increasing key. This holds of every
    /// mapping that exists at run time.
    #[verifier::type_invariant]
    pub open spec fn ordered(&self) -> bool {
        keys_increase(char_pairs(self.listing()))
    }

    /// A mapping without entries.
    pub fn new() -> (map: CharMap)
        ensures
            map@ == Map::<Key, Option<char>>::empty(),
            map.listing() == Seq::<(String, Letter)>::empty(),
    {
        CharMap { entries: Vec::new() }
    }

    /// The number of entries.
    pub fn len(&self) -> (n: usize)
        ensures
            n == self@.len(),
            n == self.listing().len(),
    {
        proof {
            use_type_invariant(self);
            lemma_increasing_keys_are_distinct(char_pairs(self.entries@));
            lemma_assoc_len(char_pairs(self.entries@));
        }
        self.entries.len()
    }

    /// Files `value` under `key`, in place of what was filed there before,
    /// and hands back what it replaced.
    pub fn insert(&mut self, key: String, value: Option<char>) -> (previous: Option<Option<char>>)
        ensures
            final(self)@ == old(self)@.insert(key@, value),
            match previous {
                Some(before) => old(self)@.contains_key(key@) && before == old(self)@[key@],
                None => !old(self)@.contains_key(key@),
            },
    {
        proof {
            use_type_invariant(&*self);
        }
        let mut entries: Vec<(String, Letter)> = Vec::new();
        core::mem::swap(&mut self.entries, &mut entries);
        let ghost before = char_pairs(entries@);
        let ghost key_view = key@;
        let (at, hit) = find_slot(&entries, key.as_str());
        proof {
            lemma_increasing_keys_are_distinct(before);
            lemma_assoc_keys(before);
        }
        if hit {
            let replaced = entries.remove(at);
            entries.insert(at, (key, Letter::from_option(value)));
            proof {
                assert(char_pairs(entries@) =~= before.update(at as int, (key_view, value)));
                lemma_assoc_update_at(before, at as int, value);
                lemma_assoc_lookup(before, at as int);
                lemma_update_keeps_increase(before, at as int, value);
            }
            self.entries = entries;
            Some(replaced.1.to_option())
        } else {
            entries.insert(at, (key, Letter::from_option(value)));
            proof {
                assert(char_pairs(entries@) =~= before.insert(at as int, (key_view, value)));
                lemma_insert_keeps_increase(before, at as int, key_view, value);
                lemma_increasing_keys_are_distinct(char_pairs(entries@));
                lemma_assoc_insert_at(before, at as int, key_view, value);
            }
            self.entries = entries;
            None
        }
    }

    /// Looks up what is filed under `key`.
    pub fn get(&self, key: &str) -> (found: Option<Option<char>>)
        ensures
            match found {
                Some(value) => self@.contains_key(key@) && value == self@[key@],
                None => !self@.contains_key(key@),
            },
    {
        proof {
            use_type_invariant(self);
            lemma_increasing_keys_are_distinct(char_pairs(self.entries@));
            lemma_assoc_keys(char_pairs(self.entries@));
        }
        let (at, hit) = find_slot(&self.entries, key);
        if hit {
            proof {
                lemma_assoc_lookup(char_pairs(self.entries@), at as int);
            }
            Some(self.entries[at].1.to_option())
        } else {
            proof {
                lemma_absent(char_pairs(self.entries@), at as int, key@);
            }
            None
        }
    }

    /// Hands out the entries in the order in which the mapping lists them:
    /// by increasing key.
    pub fn into_entries(self) -> (entries: Vec<(String, Letter)>)
        ensures
            entries@ == self.listing(),
            keys_increase(char_pairs(entries@)),
    {
        proof {
            use_type_invariant(&self);
        }
        self.entries
    }
}

/// A list of entries and its reverse stand for the same mapping where the
/// keys increase.
pub proof fn lemma_reverse_same_map(entries: Seq<(String, Letter)>)
    requires
        keys_increase(char_pairs(entries)),
    ensures
        assoc_map(char_pairs(entries.reverse())) == assoc_map(char_pairs(entries)),
{
    let pairs = char_pairs(entries);
    let back = char_pairs(entries.reverse());
    lemma_increasing_keys_are_distinct(pairs);
    assert(back =~= pairs.reverse());
    assert forall|i: int| 0 <= i < back.len() implies pairs.contains(#[trigger] back[i]) by {
        assert(pairs[pairs.len() - 1 - i] == back[i]);
    }
    assert forall|i: int| 0 <= i < pairs.len() implies back.contains(#[trigger] pairs[i]) by {
        assert(back[pairs.len() - 1 - i] == pairs[i]);
    }
    assert(keys_distinct(back)) by {
        assert forall|i: int, j: int|
            0 <= i < back.len() && 0 <= j < back.len() && i != j implies (#[trigger] back[i]).0 != (
        #[trigger] back[j]).0 by {
            assert(back[i] == pairs[pairs.len() - 1 - i]);
            assert(back[j] == pairs[pairs.len() - 1 - j]);
        }
    }
    lemma_assoc_same_pairs(back, pairs);
}

} // verus!
