//! What holds of the nested struct, its adapter and its tokens.

use crate::assoc::{
    assoc_map, has_key, keys_distinct, keys_increase, lemma_assoc_keys,
    lemma_increasing_keys_are_distinct, Key,
};
use crate::char_map::{char_pairs, Letter};
use crate::outer::deserializer::{
    entries_tokens, entry_tokens, inner_tokens, inners_tokens, item_tokens, lemma_pushed_tokens,
    map_tokens, outer_tokens, stack_tokens, vec_tokens,
};
use crate::outer::rebuild::{
    entries_reading, inner_fields_reading, inner_reading, inners_reading, map_reading,
    outer_fields_reading, outer_reading, vec_reading,
};
use crate::outer::{inner_views, Inner, InnerView, Outer, OuterItem};
use crate::reading::{after, option_char_reading, Failure};
use crate::token::{depth_after, lemma_depth_of_runs, well_nested, Token};
use vstd::prelude::*;
use vstd::string::*;

verus! {

/// What a mapping holds once the entries are filed in it, the one listed
/// last first.
pub open spec fn filed(sofar: Map<Key, Option<char>>, entries: Seq<(String, Letter)>) -> Map<
    Key,
    Option<char>,
>
    decreases entries.len(),
{
    if entries.len() == 0 {
        sofar
    } else {
        filed(
            sofar.insert(entries.last().0@, entries.last().1.as_option()),
            entries.drop_last(),
        )
    }
}

/// Entries with distinct keys, filed in whatever order, add up to the
/// mapping they stand for.
pub proof fn lemma_filed(sofar: Map<Key, Option<char>>, entries: Seq<(String, Letter)>)
    requires
        keys_distinct(char_pairs(entries)),
    ensures
        filed(sofar, entries) == sofar.union_prefer_right(assoc_map(char_pairs(entries))),
    decreases entries.len(),
{
    let pairs = char_pairs(entries);
    if entries.len() == 0 {
        assert(sofar.union_prefer_right(assoc_map(pairs)) =~= sofar);
    } else {
        let front = entries.drop_last();
        let last = entries.last();
        assert(char_pairs(front) =~= pairs.drop_last());
        assert(keys_distinct(char_pairs(front))) by {
            assert forall|i: int, j: int|
                0 <= i < front.len() && 0 <= j < front.len() && i != j implies (
            #[trigger] char_pairs(front)[i]).0 != (#[trigger] char_pairs(front)[j]).0 by {
                assert(char_pairs(front)[i] == pairs[i] && char_pairs(front)[j] == pairs[j]);
            }
        }
        lemma_filed(sofar.insert(last.0@, last.1.as_option()), front);
        lemma_assoc_keys(char_pairs(front));
        assert(!assoc_map(char_pairs(front)).contains_key(last.0@)) by {
            if has_key(char_pairs(front), last.0@) {
                let i = choose|i: int|
                    0 <= i < char_pairs(front).len() && (#[trigger] char_pairs(front)[i]).0
                        == last.0@;
                assert(pairs[i].0 == pairs[pairs.len() - 1].0);
            }
        }
        assert(pairs.last() == (last.0@, last.1.as_option()));
        assert(filed(sofar, entries) =~= sofar.union_prefer_right(assoc_map(pairs)));
    }
}

/// The tokens of the entries of a mapping, with the end that closes it, read
/// back as the entries filed.
pub proof fn lemma_entries_read_back(
    entries: Seq<(String, Letter)>,
    rest: Seq<Token>,
    sofar: Map<Key, Option<char>>,
)
    ensures
        entries_reading(entries_tokens(entries) + seq![Token::End] + rest, sofar) == Ok::<
            (Map<Key, Option<char>>, int),
            Failure,
        >((filed(sofar, entries), entries_tokens(entries).len() as int + 1)),
    decreases entries.len(),
{
    let tokens = entries_tokens(entries) + seq![Token::End] + rest;
    if entries.len() == 0 {
        assert(tokens[0] == Token::End);
    } else {
        let last = entries.last();
        let front = entries.drop_last();
        let head = entry_tokens(last);
        let tail = entries_tokens(front) + seq![Token::End] + rest;
        assert(tokens =~= head + tail);
        assert(tokens[0] == head[0]);
        assert(tokens[1] == head[1]);
        assert(tokens.skip(1)[0] == tokens[1]);
        lemma_entries_read_back(front, rest, sofar.insert(last.0@, last.1.as_option()));
        match last.1 {
            Letter::Present(c) => {
                assert(tokens[2] == head[2]);
                assert(tokens.skip(1)[1] == tokens[2]);
                assert(tokens.skip(3) =~= tail);
                assert(option_char_reading(tokens.skip(1)) == Ok::<
                    (Option<char>, int),
                    Failure,
                >((Some(c), 2)));
            },
            Letter::Absent => {
                assert(tokens.skip(2) =~= tail);
                assert(option_char_reading(tokens.skip(1)) == Ok::<
                    (Option<char>, int),
                    Failure,
                >((None, 1)));
            },
        }
    }
}

/// The tokens of a mapping read back as the mapping.
pub proof fn lemma_map_reads_back(entries: Seq<(String, Letter)>, rest: Seq<Token>)
    requires
        keys_increase(char_pairs(entries)),
    ensures
        map_reading(map_tokens(entries) + rest) == Ok::<
            (Map<Key, Option<char>>, int),
            Failure,
        >((assoc_map(char_pairs(entries)), map_tokens(entries).len() as int)),
{
    reveal(map_reading);
    let tokens = map_tokens(entries) + rest;
    assert(tokens.skip(1) =~= entries_tokens(entries) + seq![Token::End] + rest);
    assert(tokens[0] is MapStart);
    lemma_entries_read_back(entries, rest, Map::empty());
    lemma_increasing_keys_are_distinct(char_pairs(entries));
    lemma_filed(Map::empty(), entries);
    assert(Map::<Key, Option<char>>::empty().union_prefer_right(assoc_map(char_pairs(entries)))
        =~= assoc_map(char_pairs(entries)));
}

/// The tokens of a sound inner struct read back as its view.
pub proof fn lemma_inner_reads_back(inner: Inner, rest: Seq<Token>)
    requires
        inner.sound(),
    ensures
        inner_reading(inner_tokens(inner) + rest) == Ok::<
            (InnerView, int),
            Failure,
        >((inner@, inner_tokens(inner).len() as int)),
{
    reveal(inner_reading);
    let tokens = inner_tokens(inner) + rest;
    let entries = inner.c.listing();
    let mapped = map_tokens(entries);
    let tail = seq![Token::End] + rest;
    lemma_map_reads_back(entries, tail);
    reveal_strlit("a");
    reveal_strlit("b");
    reveal_strlit("c");
    assert("a"@[0] == 'a' && "b"@[0] == 'b' && "c"@[0] == 'c');
    assert(tokens[0] == Token::StructStart("Inner", 3));
    let t1 = tokens.skip(1);
    assert(t1[0] == Token::Str("a"));
    assert(t1.skip(1)[0] == Token::Null);
    let t3 = t1.skip(2);
    assert(t3 =~= tokens.skip(3));
    assert(t3[0] == Token::Str("b"));
    assert(t3.skip(1)[0] == Token::Uint(inner.b));
    let t5 = t3.skip(2);
    assert(t5 =~= tokens.skip(5));
    assert(t5[0] == Token::Str("c"));
    assert(t5.skip(1) =~= mapped + tail);
    let t7 = t5.skip(1 + mapped.len() as int);
    assert(t7 =~= tail);
    assert(t7[0] == Token::End);
    let a = Some(());
    let b = Some(inner.b);
    let c = Some(inner.c@);
    assert(inner_fields_reading(t7, a, b, c) == Ok::<(InnerView, int), Failure>(
        (inner@, 1),
    ));
    assert(inner_fields_reading(t5, a, b, None) == after(
        1 + mapped.len() as int,
        inner_fields_reading(t7, a, b, c),
    ));
    assert(inner_fields_reading(t3, a, None, None) == after(
        2,
        inner_fields_reading(t5, a, b, None),
    ));
    assert(inner_fields_reading(t1, None, None, None) == after(
        2,
        inner_fields_reading(t3, a, None, None),
    ));
}

/// The tokens of sound inner structs, with the end that closes their
/// sequence, read back as their views, in order.
pub proof fn lemma_inners_read_back(items: Seq<Inner>, rest: Seq<Token>, sofar: Seq<InnerView>)
    requires
        forall|i: int| 0 <= i < items.len() ==> (#[trigger] items[i]).sound(),
    ensures
        inners_reading(inners_tokens(items) + seq![Token::End] + rest, sofar) == Ok::<
            (Seq<InnerView>, int),
            Failure,
        >((sofar + inner_views(items), inners_tokens(items).len() as int + 1)),
    decreases items.len(),
{
    let tokens = inners_tokens(items) + seq![Token::End] + rest;
    if items.len() == 0 {
        assert(tokens[0] == Token::End);
        assert(sofar + inner_views(items) =~= sofar);
    } else {
        let first = items.first();
        let more = items.drop_first();
        let tail = inners_tokens(more) + seq![Token::End] + rest;
        assert(tokens =~= inner_tokens(first) + tail);
        assert(tokens[0] == inner_tokens(first)[0]);
        assert(first.sound());
        assert forall|i: int| 0 <= i < more.len() implies (#[trigger] more[i]).sound() by {
            assert(more[i] == items[i + 1]);
        }
        lemma_inner_reads_back(first, tail);
        lemma_inners_read_back(more, rest, sofar.push(first@));
        assert(tokens.skip(inner_tokens(first).len() as int) =~= tail);
        assert(sofar.push(first@) + inner_views(more) =~= sofar + inner_views(items));
    }
}

/// The tokens of a sequence of sound inner structs read back as their views.
pub proof fn lemma_vec_reads_back(items: Seq<Inner>, rest: Seq<Token>)
    requires
        forall|i: int| 0 <= i < items.len() ==> (#[trigger] items[i]).sound(),
    ensures
        vec_reading(vec_tokens(items) + rest) == Ok::<
            (Seq<InnerView>, int),
            Failure,
        >((inner_views(items), vec_tokens(items).len() as int)),
{
    reveal(vec_reading);
    let tokens = vec_tokens(items) + rest;
    assert(tokens.skip(1) =~= inners_tokens(items) + seq![Token::End] + rest);
    assert(tokens[0] is SeqStart);
    lemma_inners_read_back(items, rest, Seq::empty());
    assert(Seq::<InnerView>::empty() + inner_views(items) =~= inner_views(items));
}

/// The tokens of a sound outer struct read back as its view: rebuilding a
/// value from its own tokens gives the value.
pub proof fn lemma_outer_reads_back(outer: Outer, rest: Seq<Token>)
    requires
        outer.sound(),
    ensures
        outer_reading(outer_tokens(outer) + rest) == Ok::<
            (Seq<InnerView>, int),
            Failure,
        >((outer@, outer_tokens(outer).len() as int)),
{
    let tokens = outer_tokens(outer) + rest;
    let items = outer.inner@;
    let listed = vec_tokens(items);
    let tail = seq![Token::End] + rest;
    lemma_vec_reads_back(items, tail);
    reveal_strlit("inner");
    assert(tokens[0] == Token::StructStart("Outer", 1));
    let t1 = tokens.skip(1);
    assert(t1[0] == Token::Str("inner"));
    assert(t1.skip(1) =~= listed + tail);
    let t2 = t1.skip(1 + listed.len() as int);
    assert(t2 =~= tail);
    assert(t2[0] == Token::End);
    assert(outer_fields_reading(t2, Some(inner_views(items))) == Ok::<
        (Seq<InnerView>, int),
        Failure,
    >((inner_views(items), 1)));
    assert(outer_fields_reading(t1, None) == after(
        1 + listed.len() as int,
        outer_fields_reading(t2, Some(inner_views(items))),
    ));
}

/// An adapter that holds one outer struct has the tokens of that struct
/// pending, and no others.
pub proof fn lemma_fresh_tokens(outer: Outer)
    ensures
        stack_tokens(seq![OuterItem::OuterState(outer)]) == outer_tokens(outer),
{
    let none = Seq::<OuterItem>::empty();
    lemma_pushed_tokens(none, OuterItem::OuterState(outer));
    assert(none.push(OuterItem::OuterState(outer)) =~= seq![OuterItem::OuterState(outer)]);
    assert(outer_tokens(outer) + stack_tokens(none) =~= outer_tokens(outer));
}

/// Once the tokens of its outer struct have been read, an adapter has
/// nothing left: no token is pending and no item is on its stack, so that
/// whatever is asked of it next finds nothing.
pub proof fn lemma_spent_once_read(outer: Outer, stack: Seq<OuterItem>)
    requires
        stack_tokens(stack) == outer_tokens(outer).skip(outer_tokens(outer).len() as int),
    ensures
        stack_tokens(stack).len() == 0,
        stack.len() == 0,
        outer_reading(stack_tokens(stack)) == Err::<(Seq<InnerView>, int), Failure>(
            Failure::Ended,
        ),
{
    lemma_tokens_while_items(stack);
}

/// A stack that stands for no token is empty: an adapter has nothing pending
/// only when nothing is left on its stack.
pub proof fn lemma_tokens_while_items(stack: Seq<OuterItem>)
    ensures
        stack_tokens(stack).len() >= stack.len(),
    decreases stack.len(),
{
    if stack.len() > 0 {
        lemma_tokens_while_items(stack.drop_last());
        assert(item_tokens(stack.last()).len() >= 1);
    }
}

/// How many end markers lie on a stack.
pub open spec fn end_markers(stack: Seq<OuterItem>) -> nat
    decreases stack.len(),
{
    if stack.len() == 0 {
        0
    } else if stack.last() is EndState {
        end_markers(stack.drop_last()) + 1
    } else {
        end_markers(stack.drop_last())
    }
}

/// The tokens of the entries of a mapping open and close nothing.
pub proof fn lemma_entries_level(depth: nat, entries: Seq<(String, Letter)>)
    ensures
        depth_after(depth, entries_tokens(entries)) == Some(depth),
    decreases entries.len(),
{
    if entries.len() > 0 {
        let head = entry_tokens(entries.last());
        lemma_entries_level(depth, entries.drop_last());
        lemma_depth_of_runs(depth, head, entries_tokens(entries.drop_last()));
        reveal_with_fuel(depth_after, 4);
        assert(depth_after(depth, head) == Some(depth));
    }
}

/// The tokens of a mapping close what they open.
pub proof fn lemma_map_level(depth: nat, entries: Seq<(String, Letter)>)
    ensures
        depth_after(depth, map_tokens(entries)) == Some(depth),
{
    let start = seq![Token::MapStart(entries.len() as usize)];
    let inside = entries_tokens(entries);
    let end = seq![Token::End];
    reveal_with_fuel(depth_after, 2);
    lemma_entries_level(depth + 1, entries);
    lemma_depth_of_runs(depth + 1, inside, end);
    lemma_depth_of_runs(depth, start, inside + end);
    assert(start + (inside + end) =~= map_tokens(entries));
    assert(depth_after(depth, start) == Some(depth + 1));
    assert(depth_after(depth + 1, end) == Some(depth));
}

/// The tokens of an inner struct close what they open.
pub proof fn lemma_inner_level(depth: nat, inner: Inner)
    ensures
        depth_after(depth, inner_tokens(inner)) == Some(depth),
{
    let head = seq![
        Token::StructStart("Inner", 3),
        Token::Str("a"),
        Token::Null,
        Token::Str("b"),
        Token::Uint(inner.b),
        Token::Str("c"),
    ];
    let map = map_tokens(inner.c.listing());
    let end = seq![Token::End];
    reveal_with_fuel(depth_after, 7);
    lemma_map_level(depth + 1, inner.c.listing());
    lemma_depth_of_runs(depth + 1, map, end);
    lemma_depth_of_runs(depth, head, map + end);
    assert(head + (map + end) =~= inner_tokens(inner));
    assert(depth_after(depth, head) == Some(depth + 1));
    assert(depth_after(depth + 1, end) == Some(depth));
}

/// The tokens of inner structs one after another close what they open.
pub proof fn lemma_inners_level(depth: nat, items: Seq<Inner>)
    ensures
        depth_after(depth, inners_tokens(items)) == Some(depth),
    decreases items.len(),
{
    if items.len() > 0 {
        lemma_inner_level(depth, items.first());
        lemma_inners_level(depth, items.drop_first());
        lemma_depth_of_runs(depth, inner_tokens(items.first()), inners_tokens(items.drop_first()));
    }
}

/// The tokens of a sequence close what they open.
pub proof fn lemma_vec_level(depth: nat, items: Seq<Inner>)
    ensures
        depth_after(depth, vec_tokens(items)) == Some(depth),
{
    let start = seq![Token::SeqStart(items.len() as usize)];
    let inside = inners_tokens(items);
    let end = seq![Token::End];
    reveal_with_fuel(depth_after, 2);
    lemma_inners_level(depth + 1, items);
    lemma_depth_of_runs(depth + 1, inside, end);
    lemma_depth_of_runs(depth, start, inside + end);
    assert(start + (inside + end) =~= vec_tokens(items));
    assert(depth_after(depth, start) == Some(depth + 1));
    assert(depth_after(depth + 1, end) == Some(depth));
}

/// The tokens of an outer struct close what they open.
pub proof fn lemma_outer_level(depth: nat, outer: Outer)
    ensures
        depth_after(depth, outer_tokens(outer)) == Some(depth),
{
    let head = seq![Token::StructStart("Outer", 1), Token::Str("inner")];
    let inside = vec_tokens(outer.inner@);
    let end = seq![Token::End];
    reveal_with_fuel(depth_after, 3);
    lemma_vec_level(depth + 1, outer.inner@);
    lemma_depth_of_runs(depth + 1, inside, end);
    lemma_depth_of_runs(depth, head, inside + end);
    assert(head + (inside + end) =~= outer_tokens(outer));
    assert(depth_after(depth, head) == Some(depth + 1));
    assert(depth_after(depth + 1, end) == Some(depth));
}

/// Whatever an adapter holds, the tokens it has pending close every
/// compound they open, and besides close one compound for each end marker
/// on the stack: the compounds whose starts have gone out already.
pub proof fn lemma_pending_closes_what_is_open(stack: Seq<OuterItem>)
    ensures
        depth_after(end_markers(stack), stack_tokens(stack)) == Some(0nat),
    decreases stack.len(),
{
    if stack.len() > 0 {
        let top = stack.last();
        let below = stack.drop_last();
        let open = end_markers(below);
        lemma_pending_closes_what_is_open(below);
        lemma_depth_of_runs(end_markers(stack), item_tokens(top), stack_tokens(below));
        reveal_with_fuel(depth_after, 2);
        match top {
            OuterItem::OuterState(outer) => {
                lemma_outer_level(open, outer);
            },
            OuterItem::InnerState(inner) => {
                lemma_inner_level(open, inner);
            },
            OuterItem::VecState(items) => {
                lemma_vec_level(open, items@);
            },
            OuterItem::MapState(map) => {
                lemma_map_level(open, map.listing());
            },
            OuterItem::EndState => {
                assert(depth_after(open + 1, item_tokens(top)) == Some(open));
            },
            _ => {
                assert(depth_after(open, item_tokens(top)) == Some(open));
            },
        }
    }
}

/// The tokens that an adapter hands out for an outer struct are well nested:
/// every start has one end that matches it, and no two compounds cross.
pub proof fn lemma_tokens_well_nested(outer: Outer)
    ensures
        well_nested(outer_tokens(outer)),
{
    lemma_outer_level(0, outer);
}

} // verus!
