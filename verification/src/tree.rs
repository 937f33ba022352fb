//! The mathematical model: a value as a tree, and the fields of an object as
//! a sequence with lookup by key.

use vstd::prelude::*;

verus! {

/// `serde_json::Number`, the number of a document, declared so that a value
/// can hold one. It stays opaque: nothing here looks inside a number, it is
/// carried from the document to the template engine as it came.
#[verifier::external_type_specification]
#[verifier::external_body]
pub struct ExNumber(serde_json::Number);

/// A structured value as a mathematical tree: what a [`crate::value::Value`] denotes.
///
/// An object is the sequence of its fields in iteration order. Looking a key up
/// takes the first field of that name; the objects that executable code
/// builds never hold a key twice (`distinct_keys`).
pub enum Tree {
    Null,
    Bool(bool),
    Number(serde_json::Number),
    String(Seq<char>),
    Array(Seq<Tree>),
    Object(Seq<(Seq<char>, Tree)>),
}

/// The fields of an object, in iteration order.
pub type Fields = Seq<(Seq<char>, Tree)>;

/// No key occurs twice.
pub open spec fn distinct_keys(fields: Fields) -> bool {
    forall|i: int, j: int| 0 <= i < j < fields.len() ==> fields[i].0 != fields[j].0
}

/// The index of the first field named `key`.
pub open spec fn position(fields: Fields, key: Seq<char>) -> Option<int>
    decreases fields.len(),
{
    if fields.len() == 0 {
        None
    } else {
        match position(fields.drop_last(), key) {
            Some(i) => Some(i),
            None => if fields.last().0 == key {
                Some(fields.len() - 1)
            } else {
                None
            },
        }
    }
}

/// The value of the field named `key`.
pub open spec fn lookup(fields: Fields, key: Seq<char>) -> Option<Tree> {
    match position(fields, key) {
        Some(i) => Some(fields[i].1),
        None => None,
    }
}

/// `fields` with `key` set to `value`: an existing field keeps its place, a
/// new one goes to the end.
pub open spec fn put(fields: Fields, key: Seq<char>, value: Tree) -> Fields {
    match position(fields, key) {
        Some(i) => fields.update(i, (key, value)),
        None => fields.push((key, value)),
    }
}

impl Tree {
    /// The field `key` of an object; `None` for a missing field and for
    /// anything that is not an object.
    pub open spec fn field(self, key: Seq<char>) -> Option<Tree> {
        match self {
            Tree::Object(fields) => lookup(fields, key),
            _ => None,
        }
    }
}

/// `position` finds the first field of the name, and finds none only if there is none.
pub proof fn lemma_position(fields: Fields, key: Seq<char>)
    ensures
        match position(fields, key) {
            Some(i) => {
                &&& 0 <= i < fields.len()
                &&& fields[i].0 == key
                &&& forall|j: int| 0 <= j < i ==> fields[j].0 != key
            },
            None => forall|j: int| 0 <= j < fields.len() ==> fields[j].0 != key,
        },
    decreases fields.len(),
{
    if fields.len() > 0 {
        let init = fields.drop_last();
        lemma_position(init, key);
        assert(forall|j: int| 0 <= j < init.len() ==> init[j] == fields[j]);
    }
}

/// A field of the name with none of that name before it is what `position` finds.
pub proof fn lemma_position_first(fields: Fields, key: Seq<char>, i: int)
    requires
        0 <= i < fields.len(),
        fields[i].0 == key,
        forall|j: int| 0 <= j < i ==> fields[j].0 != key,
    ensures
        position(fields, key) == Some(i),
{
    lemma_position(fields, key);
}

/// Where no field has the name, `position` finds none.
pub proof fn lemma_position_none(fields: Fields, key: Seq<char>)
    requires
        forall|j: int| 0 <= j < fields.len() ==> fields[j].0 != key,
    ensures
        position(fields, key) is None,
{
    lemma_position(fields, key);
}

/// After `put`, the key holds the new value and every other key what it held.
pub proof fn lemma_lookup_put(fields: Fields, key: Seq<char>, value: Tree, other: Seq<char>)
    ensures
        lookup(put(fields, key, value), other) == if other == key {
            Some(value)
        } else {
            lookup(fields, other)
        },
{
    let after = put(fields, key, value);
    lemma_position(fields, key);
    lemma_position(fields, other);
    lemma_position(after, other);
    match position(fields, key) {
        Some(i) => {
            if other == key {
                lemma_position_first(after, other, i);
            } else {
                match position(fields, other) {
                    Some(k) => {
                        lemma_position_first(after, other, k);
                    },
                    None => {
                        lemma_position_none(after, other);
                    },
                }
            }
        },
        None => {
            if other == key {
                lemma_position_first(after, other, fields.len() as int);
            } else {
                match position(fields, other) {
                    Some(k) => {
                        lemma_position_first(after, other, k);
                    },
                    None => {
                        lemma_position_none(after, other);
                    },
                }
            }
        },
    }
}

/// `put` keeps the keys distinct.
pub proof fn lemma_put_distinct(fields: Fields, key: Seq<char>, value: Tree)
    requires
        distinct_keys(fields),
    ensures
        distinct_keys(put(fields, key, value)),
{
    lemma_position(fields, key);
}

} // verus!
