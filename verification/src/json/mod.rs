//! A tree of JSON-like values, and the ordered object it is built on.

use crate::assoc::{
    assoc_map, find_slot, keys_increase, lemma_assoc_insert_at, lemma_assoc_keys, lemma_assoc_len,
    lemma_assoc_lookup, lemma_assoc_update_at, lemma_increasing_keys_are_distinct,
    lemma_insert_keeps_increase, lemma_update_keeps_increase, Key,
};
use crate::assoc::lemma_absent;
use vstd::prelude::*;
use vstd::string::*;

pub mod builder;

verus! {

/// A JSON-like value.
///
/// A floating-point number is held as its IEEE 754 binary64 bit pattern, so two
/// `Float`s are equal exactly when their bits are.
#[derive(Debug, PartialEq)]
pub enum Json {
    Null,
    Bool(bool),
    Integer(i64),
    Float(u64),
    String(String),
    List(Vec<Json>),
    Object(JsonObject),
}

/// A mapping from text keys to values that keeps its entries in increasing
/// order of key, so that equal mappings are stored alike.
#[derive(Debug, PartialEq)]
pub struct JsonObject {
    entries: Vec<(String, Json)>,
}

/// The mathematical value of a [`Json`].
pub enum JsonView {
    Null,
    Bool(bool),
    Integer(int),
    Float(u64),
    String(Seq<char>),
    List(Seq<JsonView>),
    Object(Map<Key, JsonView>),
}

/// The mathematical value of `value`.
pub open spec fn json_view(value: Json) -> JsonView
    decreases value,
{
    match value {
        Json::Null => JsonView::Null,
        Json::Bool(b) => JsonView::Bool(b),
        Json::Integer(i) => JsonView::Integer(i as int),
        Json::Float(bits) => JsonView::Float(bits),
        Json::String(s) => JsonView::String(s@),
        Json::List(items) => JsonView::List(list_view(items@)),
        Json::Object(object) => JsonView::Object(assoc_map(object_pairs(object))),
    }
}

/// The views of the values, in order.
pub open spec fn list_view(items: Seq<Json>) -> Seq<JsonView>
    decreases items,
{
    if items.len() == 0 {
        Seq::empty()
    } else {
        list_view(items.drop_last()).push(json_view(items.last()))
    }
}

/// The entries of a vector, each key and value by its view.
pub open spec fn pairs_of(entries: Seq<(String, Json)>) -> Seq<(Key, JsonView)>
    decreases entries,
{
    if entries.len() == 0 {
        Seq::empty()
    } else {
        pairs_of(entries.drop_last()).push((entries.last().0@, json_view(entries.last().1)))
    }
}

/// The entries of an object in stored order, each key and value by its view.
pub closed spec fn object_pairs(object: JsonObject) -> Seq<(Key, JsonView)>
    decreases object,
{
    pairs_of(object.entries@)
}

impl View for Json {
    type V = JsonView;

    open spec fn view(&self) -> JsonView {
        json_view(*self)
    }
}

impl Json {
    /// A copy of the value with the same view.
    pub fn duplicate(&self) -> (copy: Json)
        ensures
            copy@ == self@,
        decreases self, 1int,
    {
        match self {
            Json::Null => Json::Null,
            Json::Bool(b) => Json::Bool(*b),
            Json::Integer(i) => Json::Integer(*i),
            Json::Float(bits) => Json::Float(*bits),
            Json::String(s) => Json::String(s.clone()),
            Json::List(items) => {
                let copies = duplicate_items(items);
                Json::List(copies)
            },
            Json::Object(object) => Json::Object(object.duplicate()),
        }
    }
}

/// Copies of the items, in order.
fn duplicate_items(items: &Vec<Json>) -> (copies: Vec<Json>)
    ensures
        list_view(copies@) == list_view(items@),
    decreases items,
{
    let mut copies: Vec<Json> = Vec::new();
    let n = items.len();
    let mut at: usize = 0;
    while at < n
        invariant
            n == items@.len(),
            at <= n,
            copies@.len() == at,
            forall|j: int| 0 <= j < at ==> (#[trigger] copies@[j])@ == items@[j]@,
        decreases n - at,
    {
        proof {
            vstd::std_specs::vec::axiom_vec_index_decreases(*items, at as int);
        }
        let copy = items[at].duplicate();
        copies.push(copy);
        at += 1;
    }
    proof {
        lemma_list_view(copies@);
        lemma_list_view(items@);
        assert(list_view(copies@) =~= list_view(items@));
    }
    copies
}

impl Clone for Json {
    /// A copy of the value with the same view.
    fn clone(&self) -> (copy: Json)
        ensures
            copy@ == self@,
    {
        self.duplicate()
    }
}

impl Clone for JsonObject {
    /// A copy of the object with the same entries.
    fn clone(&self) -> (copy: JsonObject)
        ensures
            copy@ == self@,
    {
        self.duplicate()
    }
}

/// A value that can be turned into a [`Json`] tree.
pub trait ToJson {
    /// The tree this value turns into.
    spec fn json(&self) -> JsonView;

    /// Builds the tree for this value.
    fn to_json(&self) -> (tree: Json)
        ensures
            tree@ == self.json(),
    ;
}

impl ToJson for Json {
    open spec fn json(&self) -> JsonView {
        self@
    }

    fn to_json(&self) -> (tree: Json) {
        self.duplicate()
    }
}

impl ToJson for () {
    open spec fn json(&self) -> JsonView {
        JsonView::Null
    }

    fn to_json(&self) -> (tree: Json) {
        Json::Null
    }
}

impl ToJson for bool {
    open spec fn json(&self) -> JsonView {
        JsonView::Bool(*self)
    }

    fn to_json(&self) -> (tree: Json) {
        Json::Bool(*self)
    }
}

impl ToJson for i8 {
    open spec fn json(&self) -> JsonView {
        JsonView::Integer(*self as int)
    }

    fn to_json(&self) -> (tree: Json) {
        Json::Integer(*self as i64)
    }
}

impl ToJson for i16 {
    open spec fn json(&self) -> JsonView {
        JsonView::Integer(*self as int)
    }

    fn to_json(&self) -> (tree: Json) {
        Json::Integer(*self as i64)
    }
}

impl ToJson for i32 {
    open spec fn json(&self) -> JsonView {
        JsonView::Integer(*self as int)
    }

    fn to_json(&self) -> (tree: Json) {
        Json::Integer(*self as i64)
    }
}

impl ToJson for i64 {
    open spec fn json(&self) -> JsonView {
        JsonView::Integer(*self as int)
    }

    fn to_json(&self) -> (tree: Json) {
        Json::Integer(*self)
    }
}

impl ToJson for isize {
    open spec fn json(&self) -> JsonView {
        JsonView::Integer(*self as int)
    }

    fn to_json(&self) -> (tree: Json) {
        Json::Integer(*self as i64)
    }
}

impl ToJson for u8 {
    open spec fn json(&self) -> JsonView {
        JsonView::Integer(*self as int)
    }

    fn to_json(&self) -> (tree: Json) {
        Json::Integer(*self as i64)
    }
}

impl ToJson for u16 {
    open spec fn json(&self) -> JsonView {
        JsonView::Integer(*self as int)
    }

    fn to_json(&self) -> (tree: Json) {
        Json::Integer(*self as i64)
    }
}

impl ToJson for u32 {
    open spec fn json(&self) -> JsonView {
        JsonView::Integer(*self as int)
    }

    fn to_json(&self) -> (tree: Json) {
        Json::Integer(*self as i64)
    }
}

impl ToJson for String {
    open spec fn json(&self) -> JsonView {
        JsonView::String(self@)
    }

    fn to_json(&self) -> (tree: Json) {
        Json::String(self.clone())
    }
}

impl<'a> ToJson for &'a str {
    open spec fn json(&self) -> JsonView {
        JsonView::String(self@)
    }

    fn to_json(&self) -> (tree: Json) {
        let text: &str = *self;
        Json::String(text.to_string())
    }
}

impl<T: ToJson> ToJson for Option<T> {
    open spec fn json(&self) -> JsonView {
        match self {
            Some(value) => value.json(),
            None => JsonView::Null,
        }
    }

    fn to_json(&self) -> (tree: Json) {
        match self {
            Some(value) => value.to_json(),
            None => Json::Null,
        }
    }
}

impl<T: ToJson> ToJson for Vec<T> {
    open spec fn json(&self) -> JsonView {
        JsonView::List(Seq::new(self@.len(), |i: int| self@[i].json()))
    }

    fn to_json(&self) -> (tree: Json) {
        let mut items: Vec<Json> = Vec::new();
        let n = self.len();
        let mut at: usize = 0;
        while at < n
            invariant
                n == self@.len(),
                at <= n,
                items@.len() == at,
                forall|j: int| 0 <= j < at ==> (#[trigger] items@[j])@ == self@[j].json(),
            decreases n - at,
        {
            let item = self[at].to_json();
            items.push(item);
            at += 1;
        }
        proof {
            lemma_list_view(items@);
            assert(list_view(items@) =~= Seq::new(self@.len(), |i: int| self@[i].json()));
        }
        Json::List(items)
    }
}

/// An object's view, as a tree, is the view of the object.
pub proof fn lemma_object_view(object: JsonObject)
    ensures
        Json::Object(object)@ == JsonView::Object(object@),
{
}

/// `list_view` goes item by item.
pub proof fn lemma_list_view(items: Seq<Json>)
    ensures
        list_view(items).len() == items.len(),
        forall|i: int| 0 <= i < items.len() ==> (#[trigger] list_view(items)[i]) == items[i]@,
    decreases items.len(),
{
    if items.len() > 0 {
        lemma_list_view(items.drop_last());
    }
}

/// `pairs_of` goes entry by entry.
pub proof fn lemma_pairs_of(entries: Seq<(String, Json)>)
    ensures
        pairs_of(entries).len() == entries.len(),
        forall|i: int|
            0 <= i < entries.len() ==> (#[trigger] pairs_of(entries)[i]) == (
                entries[i].0@,
                entries[i].1@,
            ),
    decreases entries.len(),
{
    if entries.len() > 0 {
        lemma_pairs_of(entries.drop_last());
    }
}

impl View for JsonObject {
    type V = Map<Key, JsonView>;

    closed spec fn view(&self) -> Map<Key, JsonView> {
        assoc_map(object_pairs(*self))
    }
}

impl JsonObject {
    /// The entries in stored order, each key and value by its view.
    pub closed spec fn pairs(&self) -> Seq<(Key, JsonView)> {
        object_pairs(*self)
    }

    #[verifier::type_invariant]
    closed spec fn well_formed(&self) -> bool {
        keys_increase(self.pairs())
    }

    /// An object without entries.
    pub fn new() -> (object: JsonObject)
        ensures
            object@ == Map::<Key, JsonView>::empty(),
    {
        let object = JsonObject { entries: Vec::new() };
        assert(object.pairs() =~= Seq::empty());
        object
    }

    /// Files `value` under `key`, in place of what was filed there before,
    /// and hands back what it replaced.
    pub fn insert(&mut self, key: String, value: Json) -> (previous: Option<Json>)
        ensures
            final(self)@ == old(self)@.insert(key@, value@),
            match previous {
                Some(before) => old(self)@.contains_key(key@) && before@ == old(self)@[key@],
                None => !old(self)@.contains_key(key@),
            },
    {
        proof {
            use_type_invariant(&*self);
        }
        let mut entries: Vec<(String, Json)> = Vec::new();
        core::mem::swap(&mut self.entries, &mut entries);
        let ghost before = pairs_of(entries@);
        let ghost key_view = key@;
        let ghost value_view = value@;
        let (at, hit) = find_slot(&entries, key.as_str());
        proof {
            lemma_pairs_of(entries@);
            lemma_increasing_keys_are_distinct(before);
            lemma_assoc_keys(before);
        }
        if hit {
            let replaced = entries.remove(at);
            entries.insert(at, (key, value));
            proof {
                lemma_pairs_of(entries@);
                assert(pairs_of(entries@) =~= before.update(at as int, (key_view, value_view)));
                lemma_assoc_update_at(before, at as int, value_view);
                lemma_assoc_lookup(before, at as int);
                lemma_update_keeps_increase(before, at as int, value_view);
            }
            self.entries = entries;
            Some(replaced.1)
        } else {
            entries.insert(at, (key, value));
            proof {
                lemma_pairs_of(entries@);
                assert(pairs_of(entries@) =~= before.insert(at as int, (key_view, value_view)));
                lemma_insert_keeps_increase(before, at as int, key_view, value_view);
                lemma_increasing_keys_are_distinct(pairs_of(entries@));
                lemma_assoc_insert_at(before, at as int, key_view, value_view);
            }
            self.entries = entries;
            None
        }
    }

    /// Looks up what is filed under `key`.
    pub fn get(&self, key: &str) -> (found: Option<&Json>)
        ensures
            match found {
                Some(value) => self@.contains_key(key@) && value@ == self@[key@],
                None => !self@.contains_key(key@),
            },
    {
        proof {
            use_type_invariant(self);
            lemma_pairs_of(self.entries@);
            lemma_increasing_keys_are_distinct(self.pairs());
            lemma_assoc_keys(self.pairs());
        }
        let (at, hit) = find_slot(&self.entries, key);
        if hit {
            proof {
                lemma_assoc_lookup(self.pairs(), at as int);
            }
            Some(&self.entries[at].1)
        } else {
            proof {
                lemma_absent(self.pairs(), at as int, key@);
            }
            None
        }
    }

    /// Hands out the entries by increasing key.
    pub fn into_entries(self) -> (entries: Vec<(String, Json)>)
        ensures
            keys_increase(pairs_of(entries@)),
            assoc_map(pairs_of(entries@)) == self@,
    {
        proof {
            use_type_invariant(&self);
        }
        self.entries
    }

    /// A copy of the object with the same entries.
    pub fn duplicate(&self) -> (copy: JsonObject)
        ensures
            copy@ == self@,
        decreases self, 0int,
    {
        proof {
            use_type_invariant(self);
        }
        let mut entries: Vec<(String, Json)> = Vec::new();
        let n = self.entries.len();
        let mut at: usize = 0;
        while at < n
            invariant
                n == self.entries@.len(),
                at <= n,
                entries@.len() == at,
                forall|j: int|
                    0 <= j < at ==> (#[trigger] entries@[j]).0@ == self.entries@[j].0@
                        && entries@[j].1@ == self.entries@[j].1@,
            decreases n - at,
        {
            let key = self.entries[at].0.clone();
            let value = self.entries[at].1.duplicate();
            entries.push((key, value));
            at += 1;
        }
        proof {
            lemma_pairs_of(entries@);
            lemma_pairs_of(self.entries@);
            assert(pairs_of(entries@) =~= pairs_of(self.entries@));
        }
        JsonObject { entries }
    }

    /// The number of entries.
    pub fn len(&self) -> (n: usize)
        ensures
            n == self@.len(),
    {
        proof {
            use_type_invariant(self);
            lemma_increasing_keys_are_distinct(self.pairs());
            lemma_assoc_len(self.pairs());
            lemma_pairs_of(self.entries@);
        }
        self.entries.len()
    }
}

} // verus!
