//! A struct that holds a sequence of structs, each with a mapping, and the
//! adapter that serves it piece by piece.

use crate::assoc::{keys_increase, Key};
use crate::char_map::{char_pairs, CharMap, Letter};
use crate::de::Deserializer;
use crate::outer::deserializer::outer_tokens;
use crate::outer::laws::lemma_fresh_tokens;
use vstd::prelude::*;

pub mod decoder;
pub mod deserializer;
pub mod laws;
pub mod rebuild;

verus! {

/// What an [`Outer`] holds many of.
#[derive(Debug, PartialEq, Eq)]
pub struct Inner {
    pub a: (),
    pub b: usize,
    pub c: CharMap,
}

/// A sequence of [`Inner`]s.
#[derive(Clone, Debug, PartialEq, Eq)]
pub struct Outer {
    pub inner: Vec<Inner>,
}

impl Clone for Inner {
    /// A struct with the same fields.
    fn clone(&self) -> (copy: Inner)
        ensures
            copy@ == self@,
    {
        Inner { a: (), b: self.b, c: self.c.clone() }
    }
}

/// The mathematical value of an [`Inner`].
pub struct InnerView {
    pub b: usize,
    pub c: Map<Key, Option<char>>,
}

impl View for Inner {
    type V = InnerView;

    open spec fn view(&self) -> InnerView {
        InnerView { b: self.b, c: self.c@ }
    }
}

impl Inner {
    /// The mapping of this struct lists its entries by increasing key. This
    /// holds of every inner struct that exists at run time.
    pub open spec fn sound(self) -> bool {
        self.c.ordered()
    }
}

impl Outer {
    /// Every inner struct of this struct is sound. This holds of every outer
    /// struct that exists at run time.
    pub open spec fn sound(self) -> bool {
        forall|i: int| 0 <= i < self.inner@.len() ==> (#[trigger] self.inner@[i]).sound()
    }

    /// Tells the verifier what holds of every outer struct at run time.
    pub fn confirm(&self)
        ensures
            self.sound(),
    {
        let n = self.inner.len();
        let mut at: usize = 0;
        while at < n
            invariant
                n == self.inner@.len(),
                at <= n,
                forall|i: int| 0 <= i < at ==> (#[trigger] self.inner@[i]).sound(),
            decreases n - at,
        {
            let item = &self.inner[at];
            proof {
                use_type_invariant(&item.c);
            }
            at += 1;
        }
    }
}

/// The views of the items, in order.
pub open spec fn inner_views(items: Seq<Inner>) -> Seq<InnerView> {
    items.map_values(|item: Inner| item@)
}

impl View for Outer {
    type V = Seq<InnerView>;

    open spec fn view(&self) -> Seq<InnerView> {
        inner_views(self.inner@)
    }
}

/// What an [`OuterAdapter`] has yet to serve.
#[derive(Debug, PartialEq, Eq)]
pub enum OuterItem {
    /// A whole outer struct, not yet taken apart.
    OuterState(Outer),
    /// A whole inner struct, not yet taken apart.
    InnerState(Inner),
    /// The name of the field whose value lies below.
    FieldState(&'static str),
    /// A unit value.
    NullState,
    /// An unsigned number.
    UintState(usize),
    /// A character.
    CharState(char),
    /// A text.
    StringState(String),
    /// Whether the optional value below is there.
    OptionState(bool),
    /// A sequence, not yet taken apart.
    VecState(Vec<Inner>),
    /// A mapping, not yet taken apart.
    MapState(CharMap),
    /// The close of a compound whose start went out as a token.
    EndState,
}

/// The field of an outer struct as work items: its name above its value.
pub open spec fn outer_children(outer: Outer) -> Seq<OuterItem> {
    seq![OuterItem::VecState(outer.inner), OuterItem::FieldState("inner")]
}

/// The fields of an inner struct as work items, each name above its value,
/// the first field uppermost.
pub open spec fn inner_children(inner: Inner) -> Seq<OuterItem> {
    seq![
        OuterItem::MapState(inner.c),
        OuterItem::FieldState("c"),
        OuterItem::UintState(inner.b),
        OuterItem::FieldState("b"),
        OuterItem::NullState,
        OuterItem::FieldState("a"),
    ]
}

/// The elements of a sequence as work items, the first element uppermost.
pub open spec fn vec_children(items: Seq<Inner>) -> Seq<OuterItem> {
    Seq::new(items.len(), |k: int| OuterItem::InnerState(items[items.len() - 1 - k]))
}

/// One entry of a mapping as work items: its key above the mark that says
/// whether a character is there, and that above the character if it is.
pub open spec fn entry_items(entry: (String, Letter)) -> Seq<OuterItem> {
    match entry.1 {
        Letter::Present(c) => seq![
            OuterItem::CharState(c),
            OuterItem::OptionState(true),
            OuterItem::StringState(entry.0),
        ],
        Letter::Absent => seq![OuterItem::OptionState(false), OuterItem::StringState(entry.0)],
    }
}

/// The entries of a mapping as work items, in the order in which the mapping
/// lists them, so that the entry listed last is uppermost.
pub open spec fn map_children(entries: Seq<(String, Letter)>) -> Seq<OuterItem>
    decreases entries.len(),
{
    if entries.len() == 0 {
        Seq::empty()
    } else {
        map_children(entries.drop_last()) + entry_items(entries.last())
    }
}

/// Three items put on a stack one by one lie on it as a group.
proof fn lemma_three_pushed(below: Seq<OuterItem>, x: OuterItem, y: OuterItem, z: OuterItem)
    ensures
        below.push(x).push(y).push(z) == below + seq![x, y, z],
{
    assert(below.push(x).push(y).push(z) =~= below + seq![x, y, z]);
}

/// Two items put on a stack one by one lie on it as a group.
proof fn lemma_two_pushed(below: Seq<OuterItem>, x: OuterItem, y: OuterItem)
    ensures
        below.push(x).push(y) == below + seq![x, y],
{
    assert(below.push(x).push(y) =~= below + seq![x, y]);
}

/// Serves one [`Outer`] through a stack of what is yet to be served. It can
/// be used once: when the stack is empty nothing more comes out.
pub struct OuterAdapter {
    stack: Vec<OuterItem>,
}

impl View for OuterAdapter {
    type V = Seq<OuterItem>;

    closed spec fn view(&self) -> Seq<OuterItem> {
        self.stack@
    }
}

impl OuterAdapter {
    /// An adapter that holds `outer` and nothing else: it has the tokens of
    /// `outer` pending, and no others.
    pub fn new(outer: Outer) -> (adapter: OuterAdapter)
        ensures
            adapter@ == seq![OuterItem::OuterState(outer)],
            adapter.pending() == outer_tokens(outer),
    {
        let mut stack = Vec::new();
        stack.push(OuterItem::OuterState(outer));
        proof {
            assert(stack@ =~= seq![OuterItem::OuterState(outer)]);
            lemma_fresh_tokens(outer);
        }
        OuterAdapter { stack }
    }

    /// Takes the top item off the stack.
    fn pop(&mut self) -> (item: Option<OuterItem>)
        ensures
            old(self)@.len() > 0 ==> item == Some(old(self)@.last()) && final(self)@ == old(
                self,
            )@.drop_last(),
            old(self)@.len() == 0 ==> item.is_none() && final(self)@ == old(self)@,
    {
        self.stack.pop()
    }

    /// Puts an item on the stack.
    fn push(&mut self, item: OuterItem)
        ensures
            final(self)@ == old(self)@.push(item),
    {
        self.stack.push(item);
    }

    /// Puts the field of an outer struct on the stack.
    fn push_outer_fields(&mut self, outer: Outer)
        ensures
            final(self)@ == old(self)@ + outer_children(outer),
    {
        let Outer { inner } = outer;
        self.stack.push(OuterItem::VecState(inner));
        self.stack.push(OuterItem::FieldState("inner"));
        assert(self@ =~= old(self)@ + outer_children(outer));
    }

    /// Puts the fields of an inner struct on the stack, the last field first.
    fn push_inner_fields(&mut self, inner: Inner)
        ensures
            final(self)@ == old(self)@ + inner_children(inner),
    {
        let Inner { a, b, c } = inner;
        self.stack.push(OuterItem::MapState(c));
        self.stack.push(OuterItem::FieldState("c"));
        self.stack.push(OuterItem::UintState(b));
        self.stack.push(OuterItem::FieldState("b"));
        self.stack.push(OuterItem::NullState);
        self.stack.push(OuterItem::FieldState("a"));
        assert(self@ =~= old(self)@ + inner_children(inner));
    }

    /// Puts the elements of a sequence on the stack, the last element first.
    fn push_elements(&mut self, items: Vec<Inner>)
        ensures
            final(self)@ == old(self)@ + vec_children(items@),
    {
        let mut items = items;
        let ghost all = items@;
        let ghost below = self@;
        loop
            invariant
                items@.len() <= all.len(),
                items@ == all.take(items@.len() as int),
                self@ == below + vec_children(all).take(all.len() - items@.len()),
            ensures
                items@.len() == 0,
            decreases items@.len(),
        {
            match items.pop() {
                Some(item) => {
                    self.stack.push(OuterItem::InnerState(item));
                    assert(items@ =~= all.take(items@.len() as int));
                    assert(self@ =~= below + vec_children(all).take(all.len() - items@.len()));
                },
                None => {
                    break ;
                },
            }
        }
        assert(vec_children(all).take(all.len() as int) =~= vec_children(all));
    }

    /// Puts the entries of a mapping on the stack in the order in which the
    /// mapping lists them, which is by increasing key.
    fn push_entries(&mut self, map: CharMap)
        ensures
            final(self)@ == old(self)@ + map_children(map.listing()),
            keys_increase(char_pairs(map.listing())),
    {
        let entries = map.into_entries();
        let ghost below = self@;
        for entry in it: entries
            invariant
                it.seq() == entries@,
                self@ == below + map_children(entries@.take(it.index() as int)),
        {
            let ghost before = self@;
            let ghost done = entries@.take(it.index() as int);
            let ghost next = entries@.take(it.index() + 1);
            assert(next.drop_last() =~= done);
            assert(next.last() == entry);
            let (key, letter) = entry;
            match letter {
                Letter::Present(c) => {
                    self.push(OuterItem::CharState(c));
                    self.push(OuterItem::OptionState(true));
                    self.push(OuterItem::StringState(key));
                    proof {
                        lemma_three_pushed(
                            before,
                            OuterItem::CharState(c),
                            OuterItem::OptionState(true),
                            OuterItem::StringState(key),
                        );
                    }
                },
                Letter::Absent => {
                    self.push(OuterItem::OptionState(false));
                    self.push(OuterItem::StringState(key));
                    proof {
                        lemma_two_pushed(
                            before,
                            OuterItem::OptionState(false),
                            OuterItem::StringState(key),
                        );
                    }
                },
            }
            assert(self@ == before + entry_items(entry));
            assert(before + entry_items(entry) =~= below + map_children(next));
        }
        assert(entries@.take(entries@.len() as int) =~= entries@);
    }
}

} // verus!
