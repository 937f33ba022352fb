//! The value tree that the library works on, with typed accessors.

use crate::tree::{
    distinct_keys, lemma_position_first, lemma_position_none, lemma_put_distinct, lookup,
    position, put, Fields, Tree,
};
use vstd::prelude::*;

verus! {

/// Assumed of `serde_json::Number::clone`, not proved here: the copy is the
/// same number.
#[verifier::external_body]
fn clone_number(number: &serde_json::Number) -> (r: serde_json::Number)
    ensures
        r == *number,
{
    number.clone()
}

/// What each value of `values` denotes.
pub open spec fn trees(values: Seq<Value>) -> Seq<Tree> {
    Seq::new(values.len(), |i: int| values[i]@)
}

/// What stored entries denote, entry by entry.
pub open spec fn pairs(entries: Seq<(String, Value)>) -> Fields {
    Seq::new(entries.len(), |i: int| (entries[i].0@, entries[i].1@))
}

/// An object: fields with distinct keys, kept in the order in which the keys
/// first came in. That order is the order of iteration; it has no part in
/// what a key holds. `==` compares the fields in order.
#[derive(Debug, PartialEq)]
pub struct Object {
    entries: Vec<(String, Value)>,
}

/// A structured value: the document, a fragment, a render scope. A number is
/// held as the document's reader made it and is never looked into.
#[derive(Debug, PartialEq)]
pub enum Value {
    Null,
    Bool(bool),
    Number(serde_json::Number),
    String(String),
    Array(Vec<Value>),
    Object(Object),
}

impl Object {
    /// The fields, in iteration order.
    pub closed spec fn view(&self) -> Fields
        decreases self,
    {
        Seq::new(
            self.entries@.len(),
            |i: int|
                if 0 <= i < self.entries@.len() {
                    (self.entries@[i].0@, self.entries@[i].1.view())
                } else {
                    (Seq::empty(), Tree::Null)
                },
        )
    }

    /// No key occurs twice. This holds of every object at all times.
    #[verifier::type_invariant]
    pub open spec fn well_formed(&self) -> bool {
        distinct_keys(self@)
    }

    /// The view, field by field.
    proof fn lemma_view(&self)
        ensures
            self@.len() == self.entries@.len(),
            forall|i: int|
                0 <= i < self.entries@.len() ==> #[trigger] self@[i] == (
                    self.entries@[i].0@,
                    self.entries@[i].1@,
                ),
    {
    }

    /// The object without fields.
    pub fn new() -> (r: Object)
        ensures
            r@ == Fields::empty(),
    {
        Object { entries: Vec::new() }
    }

    /// The number of fields.
    pub fn len(&self) -> (n: usize)
        ensures
            n == self@.len(),
    {
        self.entries.len()
    }

    /// The fields as they are stored, in iteration order.
    pub fn entries(&self) -> (r: &Vec<(String, Value)>)
        ensures
            pairs(r@) == self@,
    {
        proof {
            self.lemma_view();
        }
        &self.entries
    }

    /// Puts `value` in the place of the field at `index` and hands back what
    /// that field held. The key stays.
    pub fn replace_at(&mut self, index: usize, value: Value) -> (previous: Value)
        requires
            index < old(self)@.len(),
        ensures
            final(self)@ == old(self)@.update(
                index as int,
                (old(self)@[index as int].0, value@),
            ),
            previous@ == old(self)@[index as int].1,
    {
        proof {
            use_type_invariant(&*self);
            self.lemma_view();
        }
        let ghost before = self@;
        let mut held = value;
        let mut entries: Vec<(String, Value)> = Vec::new();
        std::mem::swap(&mut entries, &mut self.entries);
        std::mem::swap(&mut entries[index].1, &mut held);
        assert(Object { entries }@ =~= before.update(index as int, (before[index as int].0, value@)));
        self.entries = entries;
        held
    }

    /// The index of the field named `key`.
    pub fn find(&self, key: &str) -> (r: Option<usize>)
        ensures
            match r {
                Some(i) => i < self@.len() && position(self@, key@) == Some(i as int),
                None => position(self@, key@) is None,
            },
    {
        proof {
            self.lemma_view();
        }
        let mut i: usize = 0;
        while i < self.entries.len()
            invariant
                i <= self.entries.len(),
                self@.len() == self.entries@.len(),
                forall|j: int| 0 <= j < self.entries@.len() ==> self@[j].0 == self.entries@[j].0@,
                forall|j: int| 0 <= j < i ==> self@[j].0 != key@,
            decreases self.entries.len() - i,
        {
            if *self.entries[i].0.as_str() == *key {
                proof {
                    lemma_position_first(self@, key@, i as int);
                }
                return Some(i);
            }
            i += 1;
        }
        proof {
            lemma_position_none(self@, key@);
        }
        None
    }

    /// The value of the field named `key`.
    pub fn get(&self, key: &str) -> (r: Option<&Value>)
        ensures
            match r {
                Some(value) => lookup(self@, key@) == Some(value@),
                None => lookup(self@, key@) is None,
            },
    {
        proof {
            self.lemma_view();
        }
        match self.find(key) {
            Some(i) => Some(&self.entries[i].1),
            None => None,
        }
    }

    /// Sets the field `key` to `value` and hands back what it held before.
    pub fn insert(&mut self, key: String, value: Value) -> (previous: Option<Value>)
        ensures
            final(self)@ == put(old(self)@, key@, value@),
            match previous {
                Some(before) => lookup(old(self)@, key@) == Some(before@),
                None => lookup(old(self)@, key@) is None,
            },
    {
        proof {
            use_type_invariant(&*self);
            lemma_put_distinct(self@, key@, value@);
        }
        let found = self.find(key.as_str());
        proof {
            self.lemma_view();
        }
        let ghost before = self@;
        let ghost after = put(before, key@, value@);
        let mut entries: Vec<(String, Value)> = Vec::new();
        std::mem::swap(&mut entries, &mut self.entries);
        let previous = match found {
            Some(i) => {
                let mut entry = (key, value);
                std::mem::swap(&mut entries[i], &mut entry);
                Some(entry.1)
            },
            None => {
                entries.push((key, value));
                None
            },
        };
        assert(Object { entries }@ =~= after);
        self.entries = entries;
        previous
    }
}

impl Value {
    /// The object that this value is, if it is one.
    pub fn as_object(&self) -> (r: Option<&Object>)
        ensures
            match r {
                Some(object) => self@ == Tree::Object(object@),
                None => !(self@ is Object),
            },
    {
        match self {
            Value::Object(object) => Some(object),
            _ => None,
        }
    }

    /// The items of the array that this value is, if it is one.
    pub fn as_array(&self) -> (r: Option<&Vec<Value>>)
        ensures
            match r {
                Some(items) => self@ == Tree::Array(trees(items@)),
                None => !(self@ is Array),
            },
    {
        match self {
            Value::Array(items) => {
                assert(self@->Array_0 =~= trees(items@));
                Some(items)
            },
            _ => None,
        }
    }

    /// The text of the string that this value is, if it is one.
    pub fn as_str(&self) -> (r: Option<&str>)
        ensures
            match r {
                Some(text) => self@ == Tree::String(text@),
                None => !(self@ is String),
            },
    {
        match self {
            Value::String(text) => Some(text.as_str()),
            _ => None,
        }
    }

    /// The field `key` of the object that this value is. `None` for a key that
    /// the object does not have, and for a value that is no object.
    pub fn get(&self, key: &str) -> (r: Option<&Value>)
        ensures
            match r {
                Some(value) => self@.field(key@) == Some(value@),
                None => self@.field(key@) is None,
            },
    {
        match self {
            Value::Object(object) => object.get(key),
            _ => None,
        }
    }

    /// The tree that this value denotes.
    pub open spec fn view(&self) -> Tree
        decreases self,
    {
        match self {
            Value::Null => Tree::Null,
            Value::Bool(b) => Tree::Bool(*b),
            Value::Number(n) => Tree::Number(*n),
            Value::String(s) => Tree::String(s@),
            Value::Array(items) => Tree::Array(
                Seq::new(
                    items@.len(),
                    |i: int|
                        if 0 <= i < items@.len() {
                            items@[i].view()
                        } else {
                            Tree::Null
                        },
                ),
            ),
            Value::Object(object) => Tree::Object(object.view()),
        }
    }
}

impl Clone for Object {
    /// A deep copy: the same fields in the same order.
    fn clone(&self) -> (r: Self)
        ensures
            r@ == self@,
        decreases self,
    {
        proof {
            use_type_invariant(self);
            self.lemma_view();
        }
        let mut entries: Vec<(String, Value)> = Vec::new();
        let mut i: usize = 0;
        while i < self.entries.len()
            invariant
                i <= self.entries.len(),
                entries@.len() == i,
                forall|j: int|
                    0 <= j < i ==> (#[trigger] entries@[j]).0@ == self.entries@[j].0@
                        && entries@[j].1@ == self.entries@[j].1@,
            decreases self.entries.len() - i,
        {
            let key = self.entries[i].0.clone();
            let value = self.entries[i].1.clone();
            entries.push((key, value));
            i += 1;
        }
        assert(Object { entries }@ =~= self@);
        Object { entries }
    }
}

impl Clone for Value {
    /// A deep copy: it denotes the same tree.
    fn clone(&self) -> (r: Self)
        ensures
            r@ == self@,
        decreases self,
    {
        match self {
            Value::Null => Value::Null,
            Value::Bool(b) => Value::Bool(*b),
            Value::Number(n) => Value::Number(clone_number(n)),
            Value::String(s) => Value::String(s.clone()),
            Value::Array(items) => {
                let mut copies: Vec<Value> = Vec::new();
                let mut i: usize = 0;
                while i < items.len()
                    invariant
                        *self == Value::Array(*items),
                        i <= items.len(),
                        copies@.len() == i,
                        forall|j: int| 0 <= j < i ==> (#[trigger] copies@[j])@ == items@[j]@,
                    decreases items.len() - i,
                {
                    assert(self->Array_0 == *items);
                    let copy = items[i].clone();
                    copies.push(copy);
                    i += 1;
                }
                assert(Value::Array(copies)@->Array_0 =~= self@->Array_0);
                Value::Array(copies)
            },
            Value::Object(object) => Value::Object(object.clone()),
        }
    }
}

} // verus!
