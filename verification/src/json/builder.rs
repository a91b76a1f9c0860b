//! Fluent construction of lists and objects.

use crate::assoc::Key;
use crate::json::{list_view, Json, JsonObject, JsonView, ToJson};
use vstd::prelude::*;
use vstd::string::*;

verus! {

/// A list in the making: each call hands back the builder with one more item.
pub struct ListBuilder {
    list: Vec<Json>,
}

impl View for ListBuilder {
    type V = Seq<JsonView>;

    closed spec fn view(&self) -> Seq<JsonView> {
        list_view(self.list@)
    }
}

impl ListBuilder {
    /// A builder that holds no item yet.
    pub fn new() -> (builder: ListBuilder)
        ensures
            builder@ == Seq::<JsonView>::empty(),
    {
        ListBuilder { list: Vec::new() }
    }

    /// Finishes the list.
    pub fn unwrap(self) -> (tree: Json)
        ensures
            tree@ == JsonView::List(self@),
    {
        Json::List(self.list)
    }

    /// Appends the tree of `value`.
    pub fn push<T: ToJson>(self, value: T) -> (builder: ListBuilder)
        ensures
            builder@ == self@.push(value.json()),
    {
        let mut builder = self;
        let tree = value.to_json();
        builder.list.push(tree);
        assert(builder.list@.drop_last() == self.list@);
        builder
    }

    /// Appends the list that `f` builds from an empty builder.
    pub fn push_list<F: FnOnce(ListBuilder) -> ListBuilder>(self, f: F) -> (builder: ListBuilder)
        requires
            forall|start: ListBuilder| start@ == Seq::<JsonView>::empty() ==> f.requires((start,)),
        ensures
            exists|start: ListBuilder, inner: ListBuilder|
                start@ == Seq::<JsonView>::empty() && f.ensures((start,), inner) && builder@
                    == self@.push(JsonView::List(inner@)),
    {
        let start = ListBuilder::new();
        let inner = f(start);
        let ghost done = inner;
        let builder = self.push(inner.unwrap());
        assert(start@ == Seq::<JsonView>::empty() && f.ensures((start,), done) && builder@
            == self@.push(JsonView::List(done@)));
        builder
    }

    /// Appends the object that `f` builds from an empty builder.
    pub fn push_object<F: FnOnce(ObjectBuilder) -> ObjectBuilder>(self, f: F) -> (builder:
        ListBuilder)
        requires
            forall|start: ObjectBuilder|
                start@ == Map::<Key, JsonView>::empty() ==> f.requires((start,)),
        ensures
            exists|start: ObjectBuilder, inner: ObjectBuilder|
                start@ == Map::<Key, JsonView>::empty() && f.ensures((start,), inner) && builder@
                    == self@.push(JsonView::Object(inner@)),
    {
        let start = ObjectBuilder::new();
        let inner = f(start);
        let ghost done = inner;
        let builder = self.push(inner.unwrap());
        assert(start@ == Map::<Key, JsonView>::empty() && f.ensures((start,), done) && builder@
            == self@.push(JsonView::Object(done@)));
        builder
    }
}

/// An object in the making: each call hands back the builder with one more entry.
pub struct ObjectBuilder {
    object: JsonObject,
}

impl View for ObjectBuilder {
    type V = Map<Key, JsonView>;

    closed spec fn view(&self) -> Map<Key, JsonView> {
        self.object@
    }
}

impl ObjectBuilder {
    /// A builder that holds no entry yet.
    pub fn new() -> (builder: ObjectBuilder)
        ensures
            builder@ == Map::<Key, JsonView>::empty(),
    {
        ObjectBuilder { object: JsonObject::new() }
    }

    /// Finishes the object.
    pub fn unwrap(self) -> (tree: Json)
        ensures
            tree@ == JsonView::Object(self@),
    {
        proof {
            crate::json::lemma_object_view(self.object);
        }
        Json::Object(self.object)
    }

    /// Files the tree of `value` under `key`, in place of what was filed there.
    pub fn insert<T: ToJson>(self, key: String, value: T) -> (builder: ObjectBuilder)
        ensures
            builder@ == self@.insert(key@, value.json()),
    {
        let mut builder = self;
        let tree = value.to_json();
        builder.object.insert(key, tree);
        builder
    }

    /// Files under `key` the list that `f` builds from an empty builder.
    pub fn insert_list<F: FnOnce(ListBuilder) -> ListBuilder>(self, key: &str, f: F) -> (builder:
        ObjectBuilder)
        requires
            forall|start: ListBuilder| start@ == Seq::<JsonView>::empty() ==> f.requires((start,)),
        ensures
            exists|start: ListBuilder, inner: ListBuilder|
                start@ == Seq::<JsonView>::empty() && f.ensures((start,), inner) && builder@
                    == self@.insert(key@, JsonView::List(inner@)),
    {
        let start = ListBuilder::new();
        let inner = f(start);
        let ghost done = inner;
        let builder = self.insert(key.to_string(), inner.unwrap());
        assert(start@ == Seq::<JsonView>::empty() && f.ensures((start,), done) && builder@
            == self@.insert(key@, JsonView::List(done@)));
        builder
    }

    /// Files under `key` the object that `f` builds from an empty builder.
    pub fn insert_object<F: FnOnce(ObjectBuilder) -> ObjectBuilder>(
        self,
        key: &str,
        f: F,
    ) -> (builder: ObjectBuilder)
        requires
            forall|start: ObjectBuilder|
                start@ == Map::<Key, JsonView>::empty() ==> f.requires((start,)),
        ensures
            exists|start: ObjectBuilder, inner: ObjectBuilder|
                start@ == Map::<Key, JsonView>::empty() && f.ensures((start,), inner) && builder@
                    == self@.insert(key@, JsonView::Object(inner@)),
    {
        let start = ObjectBuilder::new();
        let inner = f(start);
        let ghost done = inner;
        let builder = self.insert(key.to_string(), inner.unwrap());
        assert(start@ == Map::<Key, JsonView>::empty() && f.ensures((start,), done) && builder@
            == self@.insert(key@, JsonView::Object(done@)));
        builder
    }
}

} // verus!
