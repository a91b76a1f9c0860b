//! Association lists keyed by text, and the maps they stand for.

use crate::text::{
    compare_text, lemma_before_is_transitive, lemma_order_flips, lemma_same_iff_equal, text_order,
    TextOrder,
};
use vstd::prelude::*;

verus! {

/// The key of a pair is the text it is filed under.
pub type Key = Seq<char>;

/// No two pairs share a key.
pub open spec fn keys_distinct<V>(pairs: Seq<(Key, V)>) -> bool {
    forall|i: int, j: int|
        0 <= i < pairs.len() && 0 <= j < pairs.len() && i != j ==> (#[trigger] pairs[i]).0 != (
        #[trigger] pairs[j]).0
}

/// The keys of the pairs strictly increase.
pub open spec fn keys_increase<V>(pairs: Seq<(Key, V)>) -> bool {
    forall|i: int, j: int|
        0 <= i < j < pairs.len() ==> text_order((#[trigger] pairs[i]).0, (#[trigger] pairs[j]).0)
            == TextOrder::Before
}

/// Some pair is filed under `key`.
pub open spec fn has_key<V>(pairs: Seq<(Key, V)>, key: Key) -> bool {
    exists|i: int| 0 <= i < pairs.len() && (#[trigger] pairs[i]).0 == key
}

/// The map a list of pairs stands for; of two pairs with one key the later wins.
pub open spec fn assoc_map<V>(pairs: Seq<(Key, V)>) -> Map<Key, V>
    decreases pairs.len(),
{
    if pairs.len() == 0 {
        Map::empty()
    } else {
        assoc_map(pairs.drop_last()).insert(pairs.last().0, pairs.last().1)
    }
}

/// The map's keys are exactly the keys of the pairs, and there are finitely many.
pub proof fn lemma_assoc_keys<V>(pairs: Seq<(Key, V)>)
    ensures
        assoc_map(pairs).dom().finite(),
        forall|key: Key| #[trigger] assoc_map(pairs).contains_key(key) <==> has_key(pairs, key),
    decreases pairs.len(),
{
    if pairs.len() > 0 {
        let front = pairs.drop_last();
        lemma_assoc_keys(front);
        assert forall|key: Key| #[trigger]
            assoc_map(pairs).contains_key(key) <==> has_key(pairs, key) by {
            if has_key(pairs, key) {
                let i = choose|i: int| 0 <= i < pairs.len() && (#[trigger] pairs[i]).0 == key;
                if i < front.len() {
                    assert(front[i].0 == key);
                }
            }
            if assoc_map(pairs).contains_key(key) && key != pairs.last().0 {
                let i = choose|i: int| 0 <= i < front.len() && (#[trigger] front[i]).0 == key;
                assert(pairs[i].0 == key);
            }
            if key == pairs.last().0 {
                assert(pairs[pairs.len() - 1].0 == key);
            }
        }
    }
}

/// Where keys are distinct, each pair's key leads to that pair's value.
pub proof fn lemma_assoc_lookup<V>(pairs: Seq<(Key, V)>, i: int)
    requires
        keys_distinct(pairs),
        0 <= i < pairs.len(),
    ensures
        assoc_map(pairs).contains_key(pairs[i].0),
        assoc_map(pairs)[pairs[i].0] == pairs[i].1,
    decreases pairs.len(),
{
    let front = pairs.drop_last();
    if i < pairs.len() - 1 {
        lemma_front_distinct(pairs);
        lemma_assoc_lookup(front, i);
        assert(front[i] == pairs[i]);
        assert(pairs[i].0 != pairs[pairs.len() - 1].0);
    }
}

/// Where keys are distinct, the map has as many entries as there are pairs.
pub proof fn lemma_assoc_len<V>(pairs: Seq<(Key, V)>)
    requires
        keys_distinct(pairs),
    ensures
        assoc_map(pairs).len() == pairs.len(),
    decreases pairs.len(),
{
    if pairs.len() > 0 {
        let front = pairs.drop_last();
        lemma_front_distinct(pairs);
        lemma_assoc_len(front);
        lemma_assoc_keys(front);
        if has_key(front, pairs.last().0) {
            let i = choose|i: int| 0 <= i < front.len()
                && (#[trigger] front[i]).0 == pairs.last().0;
            assert(front[i] == pairs[i]);
            assert(pairs[i].0 == pairs[pairs.len() - 1].0);
        }
    }
}

/// Dropping the last pair keeps keys distinct.
proof fn lemma_front_distinct<V>(pairs: Seq<(Key, V)>)
    requires
        keys_distinct(pairs),
        pairs.len() > 0,
    ensures
        keys_distinct(pairs.drop_last()),
{
    let front = pairs.drop_last();
    assert forall|a: int, b: int|
        0 <= a < front.len() && 0 <= b < front.len() && a != b implies (#[trigger] front[a]).0 != (
    #[trigger] front[b]).0 by {
        assert(front[a] == pairs[a] && front[b] == pairs[b]);
    }
}

/// Two lists with distinct keys that hold the same pairs, in whatever order,
/// stand for the same map.
pub proof fn lemma_assoc_same_pairs<V>(left: Seq<(Key, V)>, right: Seq<(Key, V)>)
    requires
        keys_distinct(left),
        keys_distinct(right),
        forall|i: int| 0 <= i < left.len() ==> right.contains(#[trigger] left[i]),
        forall|i: int| 0 <= i < right.len() ==> left.contains(#[trigger] right[i]),
    ensures
        assoc_map(left) == assoc_map(right),
{
    lemma_assoc_keys(left);
    lemma_assoc_keys(right);
    assert forall|key: Key| assoc_map(left).contains_key(key) implies assoc_map(
        right,
    ).contains_key(key) && assoc_map(left)[key] == assoc_map(right)[key] by {
        let i = choose|i: int| 0 <= i < left.len() && (#[trigger] left[i]).0 == key;
        assert(right.contains(left[i]));
        let j = choose|j: int| 0 <= j < right.len() && right[j] == left[i];
        lemma_assoc_lookup(left, i);
        lemma_assoc_lookup(right, j);
    }
    assert forall|key: Key| assoc_map(right).contains_key(key) implies assoc_map(
        left,
    ).contains_key(key) by {
        let j = choose|j: int| 0 <= j < right.len() && (#[trigger] right[j]).0 == key;
        assert(left.contains(right[j]));
        let i = choose|i: int| 0 <= i < left.len() && left[i] == right[j];
        lemma_assoc_lookup(left, i);
    }
    assert(assoc_map(left) =~= assoc_map(right));
}

/// Putting a pair with a fresh key anywhere into the list adds it to the map.
pub proof fn lemma_assoc_insert_at<V>(pairs: Seq<(Key, V)>, at: int, key: Key, value: V)
    requires
        0 <= at <= pairs.len(),
        keys_distinct(pairs.insert(at, (key, value))),
    ensures
        keys_distinct(pairs),
        !has_key(pairs, key),
        assoc_map(pairs.insert(at, (key, value))) == assoc_map(pairs).insert(key, value),
{
    let grown = pairs.insert(at, (key, value));
    assert forall|i: int| 0 <= i < pairs.len() implies (#[trigger] pairs[i]) == grown[if i < at {
        i
    } else {
        i + 1
    }] by {}
    assert(grown[at] == (key, value));
    assert(keys_distinct(pairs)) by {
        assert forall|a: int, b: int|
            0 <= a < pairs.len() && 0 <= b < pairs.len() && a != b implies (#[trigger] pairs[a]).0
            != (#[trigger] pairs[b]).0 by {
            let ga = if a < at { a } else { a + 1 };
            let gb = if b < at { b } else { b + 1 };
            assert(pairs[a] == grown[ga] && pairs[b] == grown[gb]);
        }
    }
    if has_key(pairs, key) {
        let i = choose|i: int| 0 <= i < pairs.len() && (#[trigger] pairs[i]).0 == key;
        let gi = if i < at { i } else { i + 1 };
        assert(pairs[i] == grown[gi]);
        assert(grown[gi].0 == grown[at].0);
    }
    let pushed = pairs.push((key, value));
    assert(keys_distinct(pushed)) by {
        assert forall|a: int, b: int|
            0 <= a < pushed.len() && 0 <= b < pushed.len() && a != b implies (
        #[trigger] pushed[a]).0 != (#[trigger] pushed[b]).0 by {
            if a < pairs.len() && b < pairs.len() {
                assert(pushed[a] == pairs[a] && pushed[b] == pairs[b]);
            } else if a < pairs.len() {
                assert(pushed[a] == pairs[a]);
            } else {
                assert(pushed[b] == pairs[b]);
            }
        }
    }
    assert forall|i: int| 0 <= i < grown.len() implies pushed.contains(#[trigger] grown[i]) by {
        if i < at {
            assert(pushed[i] == grown[i]);
        } else if i == at {
            assert(pushed[pairs.len() as int] == grown[i]);
        } else {
            assert(pushed[i - 1] == grown[i]);
        }
    }
    assert forall|i: int| 0 <= i < pushed.len() implies grown.contains(#[trigger] pushed[i]) by {
        if i == pairs.len() {
            assert(grown[at] == pushed[i]);
        } else if i < at {
            assert(grown[i] == pushed[i]);
        } else {
            assert(grown[i + 1] == pushed[i]);
        }
    }
    lemma_assoc_same_pairs(grown, pushed);
    assert(pushed.drop_last() =~= pairs);
}

/// Replacing the value of one pair replaces it in the map.
pub proof fn lemma_assoc_update_at<V>(pairs: Seq<(Key, V)>, at: int, value: V)
    requires
        0 <= at < pairs.len(),
        keys_distinct(pairs),
    ensures
        keys_distinct(pairs.update(at, (pairs[at].0, value))),
        assoc_map(pairs.update(at, (pairs[at].0, value))) == assoc_map(pairs).insert(
            pairs[at].0,
            value,
        ),
{
    let key = pairs[at].0;
    let changed = pairs.update(at, (key, value));
    assert(keys_distinct(changed)) by {
        assert forall|a: int, b: int|
            0 <= a < changed.len() && 0 <= b < changed.len() && a != b implies (
        #[trigger] changed[a]).0 != (#[trigger] changed[b]).0 by {
            assert(changed[a].0 == pairs[a].0 && changed[b].0 == pairs[b].0);
        }
    }
    lemma_assoc_keys(pairs);
    lemma_assoc_keys(changed);
    let goal = assoc_map(pairs).insert(key, value);
    assert forall|k: Key| assoc_map(changed).contains_key(k) <==> goal.contains_key(k) by {
        if has_key(changed, k) {
            let i = choose|i: int| 0 <= i < changed.len() && (#[trigger] changed[i]).0 == k;
            assert(pairs[i].0 == k);
        }
        if has_key(pairs, k) {
            let i = choose|i: int| 0 <= i < pairs.len() && (#[trigger] pairs[i]).0 == k;
            assert(changed[i].0 == k);
        }
        if k == key {
            assert(changed[at].0 == k);
        }
    }
    assert forall|k: Key| assoc_map(changed).contains_key(k) implies assoc_map(changed)[k]
        == goal[k] by {
        let i = choose|i: int| 0 <= i < changed.len() && (#[trigger] changed[i]).0 == k;
        lemma_assoc_lookup(changed, i);
        lemma_assoc_lookup(pairs, i);
        if i != at {
            assert(changed[i] == pairs[i]);
            assert(pairs[i].0 != pairs[at].0);
        }
    }
    assert(assoc_map(changed) =~= goal);
}

/// Keys that strictly increase are distinct.
pub proof fn lemma_increasing_keys_are_distinct<V>(pairs: Seq<(Key, V)>)
    requires
        keys_increase(pairs),
    ensures
        keys_distinct(pairs),
{
    assert forall|i: int, j: int|
        0 <= i < pairs.len() && 0 <= j < pairs.len() && i != j implies (#[trigger] pairs[i]).0 != (
    #[trigger] pairs[j]).0 by {
        lemma_same_iff_equal(pairs[i].0, pairs[j].0);
        lemma_order_flips(pairs[i].0, pairs[j].0);
        if i < j {
            assert(text_order(pairs[i].0, pairs[j].0) == TextOrder::Before);
        } else {
            assert(text_order(pairs[j].0, pairs[i].0) == TextOrder::Before);
        }
    }
}

/// A pair put where all keys before it are smaller and the key at its place
/// is larger keeps the keys increasing.
pub proof fn lemma_insert_keeps_increase<V>(pairs: Seq<(Key, V)>, at: int, key: Key, value: V)
    requires
        keys_increase(pairs),
        0 <= at <= pairs.len(),
        forall|j: int| 0 <= j < at
            ==> text_order((#[trigger] pairs[j]).0, key) == TextOrder::Before,
        at < pairs.len() ==> text_order(pairs[at].0, key) == TextOrder::After,
    ensures
        keys_increase(pairs.insert(at, (key, value))),
{
    let after = pairs.insert(at, (key, value));
    assert forall|i: int, j: int| 0 <= i < j < after.len() implies text_order(
        (#[trigger] after[i]).0,
        (#[trigger] after[j]).0,
    ) == TextOrder::Before by {
        if j < at {
            assert(after[i] == pairs[i] && after[j] == pairs[j]);
        } else if j == at {
            assert(after[i] == pairs[i]);
        } else if i == at {
            assert(after[j] == pairs[j - 1]);
            lemma_order_flips(pairs[at].0, key);
            if j - 1 > at {
                lemma_before_is_transitive(key, pairs[at].0, pairs[j - 1].0);
            }
        } else if i < at {
            assert(after[i] == pairs[i] && after[j] == pairs[j - 1]);
        } else {
            assert(after[i] == pairs[i - 1] && after[j] == pairs[j - 1]);
        }
    }
}

/// A new value for one pair keeps the keys increasing.
pub proof fn lemma_update_keeps_increase<V>(pairs: Seq<(Key, V)>, at: int, value: V)
    requires
        keys_increase(pairs),
        0 <= at < pairs.len(),
    ensures
        keys_increase(pairs.update(at, (pairs[at].0, value))),
{
    let after = pairs.update(at, (pairs[at].0, value));
    assert forall|i: int, j: int| 0 <= i < j < after.len() implies text_order(
        (#[trigger] after[i]).0,
        (#[trigger] after[j]).0,
    ) == TextOrder::Before by {
        assert(after[i].0 == pairs[i].0 && after[j].0 == pairs[j].0);
    }
}

/// A key that sorts after all pairs before `at` and before the pair at `at`
/// is filed nowhere.
pub proof fn lemma_absent<V>(pairs: Seq<(Key, V)>, at: int, key: Key)
    requires
        keys_increase(pairs),
        0 <= at <= pairs.len(),
        forall|j: int| 0 <= j < at
            ==> text_order((#[trigger] pairs[j]).0, key) == TextOrder::Before,
        at < pairs.len() ==> text_order(pairs[at].0, key) == TextOrder::After,
    ensures
        !has_key(pairs, key),
{
    if has_key(pairs, key) {
        let i = choose|i: int| 0 <= i < pairs.len() && (#[trigger] pairs[i]).0 == key;
        lemma_same_iff_equal(pairs[i].0, key);
        if i > at {
            lemma_order_flips(pairs[at].0, key);
            lemma_before_is_transitive(key, pairs[at].0, pairs[i].0);
            lemma_order_flips(key, pairs[i].0);
        }
    }
}

/// Where `key` stands among entries whose keys increase, and whether it is there.
///
/// All keys before the place are smaller than `key`. With a hit the place
/// holds `key` itself; without one it holds a larger key or lies past the end.
pub fn find_slot<V>(entries: &Vec<(String, V)>, key: &str) -> (slot: (usize, bool))
    ensures
        slot.0 <= entries@.len(),
        forall|j: int|
            0 <= j < slot.0 ==> text_order((#[trigger] entries@[j]).0@, key@) == TextOrder::Before,
        slot.1 ==> slot.0 < entries@.len() && entries@[slot.0 as int].0@ == key@,
        !slot.1 && slot.0 < entries@.len() ==> text_order(entries@[slot.0 as int].0@, key@)
            == TextOrder::After,
{
    let n = entries.len();
    let mut at: usize = 0;
    while at < n
        invariant
            n == entries@.len(),
            at <= n,
            forall|j: int|
                0 <= j < at ==> text_order((#[trigger] entries@[j]).0@, key@) == TextOrder::Before,
        decreases n - at,
    {
        match compare_text(entries[at].0.as_str(), key) {
            TextOrder::Before => {
                at += 1;
            },
            TextOrder::Same => {
                proof {
                    lemma_same_iff_equal(entries@[at as int].0@, key@);
                }
                return (at, true);
            },
            TextOrder::After => {
                return (at, false);
            },
        }
    }
    (at, false)
}

} // verus!
