//! Merging the fields of fragments into the fields of a scope.
//!
//! A field that the scope lacks is taken as it comes. A field that the scope
//! has is merged one level deep if both values are objects, and is a type
//! mismatch otherwise. Fragments are merged in the order asked for, so of two
//! fragments that set the same field the later wins.

use crate::error::{Error, Failure};
use crate::text::texts;
use crate::tree::{
    distinct_keys, lemma_lookup_put, lemma_position, lookup, position, put, Fields, Tree,
};
use crate::value::{pairs, Object, Value};
use vstd::prelude::*;

verus! {

/// The key `include`. At the top level of the document it names the registry
/// of fragments, an object from fragment names to fragments. Anywhere else it
/// names the list of fragments that a scope asks for, an array of names.
pub open spec fn include_key() -> Seq<char> {
    "include"@
}

/// `existing` with every field of `incoming` set in it, in the order of
/// `incoming`: one level deep, so a field of both takes the incoming value
/// whole.
pub open spec fn overlay(existing: Fields, incoming: Fields) -> Fields
    decreases incoming.len(),
{
    if incoming.len() == 0 {
        existing
    } else {
        put(overlay(existing, incoming.drop_last()), incoming.last().0, incoming.last().1)
    }
}

/// Merging one field of a fragment into the fields of a scope. A new key takes
/// the value as it is. A key that the scope has is merged one level deep where
/// both values are objects, and is a type mismatch where one of them is not.
pub open spec fn merged_entry(fields: Fields, key: Seq<char>, value: Tree) -> Result<
    Fields,
    Failure,
> {
    if clashes(fields, key, value) {
        Err(Failure::MergeTypeMismatch(key))
    } else {
        Ok(put(fields, key, combined(lookup(fields, key), value)))
    }
}

/// How far a merge came: the fields as it left them, and the failure that
/// stopped it, if one did.
pub struct Merge {
    pub fields: Fields,
    pub failure: Option<Failure>,
}

/// Merging the fields of a fragment into the fields of a scope, in the
/// fragment's order, up to the first failure.
pub open spec fn merged_fragment(fields: Fields, fragment: Fields) -> Merge
    decreases fragment.len(),
{
    if fragment.len() == 0 {
        Merge { fields, failure: None }
    } else {
        let before = merged_fragment(fields, fragment.drop_last());
        if before.failure is Some {
            before
        } else {
            match merged_entry(before.fields, fragment.last().0, fragment.last().1) {
                Ok(next) => Merge { fields: next, failure: None },
                Err(failure) => Merge { fields: before.fields, failure: Some(failure) },
            }
        }
    }
}

/// Merging one named fragment of `registry` into the fields of a scope.
pub open spec fn merged_named(fields: Fields, registry: Fields, name: Seq<char>) -> Merge {
    match lookup(registry, name) {
        None => Merge { fields, failure: Some(Failure::FragmentNotFound(name)) },
        Some(Tree::Object(fragment)) => merged_fragment(fields, fragment),
        Some(_) => Merge { fields, failure: Some(Failure::FragmentNotAnObject(name)) },
    }
}

/// Merging the named fragments of `registry` into the fields of a scope, in
/// the order of `names`, up to the first failure.
pub open spec fn merged_all(fields: Fields, registry: Fields, names: Seq<Seq<char>>) -> Merge
    decreases names.len(),
{
    if names.len() == 0 {
        Merge { fields, failure: None }
    } else {
        let before = merged_all(fields, registry, names.drop_last());
        if before.failure is Some {
            before
        } else {
            merged_named(before.fields, registry, names.last())
        }
    }
}

/// Whether the field `key` of a fragment, with the value `value`, cannot be
/// merged into `fields`: the key is there already, and the value that it has
/// or the value that comes in is not an object.
pub open spec fn clashes(fields: Fields, key: Seq<char>, value: Tree) -> bool {
    lookup(fields, key) matches Some(existing) && !(existing is Object && value is Object)
}

/// What a key holds after a field of a fragment has been merged into it:
/// where both the value that it had and the value that came in are objects,
/// the first overlaid with the second; else the value that came in.
pub open spec fn combined(existing: Option<Tree>, incoming: Tree) -> Tree {
    match existing {
        Some(Tree::Object(fields)) => match incoming {
            Tree::Object(over) => Tree::Object(overlay(fields, over)),
            _ => incoming,
        },
        _ => incoming,
    }
}

/// An overlay holds under each key what came in for it, and what was there
/// before where nothing came in: fields of both are overwritten, all others
/// are preserved.
pub proof fn lemma_overlay(existing: Fields, incoming: Fields, key: Seq<char>)
    requires
        distinct_keys(incoming),
    ensures
        lookup(overlay(existing, incoming), key) == match lookup(incoming, key) {
            Some(value) => Some(value),
            None => lookup(existing, key),
        },
    decreases incoming.len(),
{
    if incoming.len() > 0 {
        let init = incoming.drop_last();
        let last = incoming.last();
        lemma_overlay(existing, init, key);
        lemma_lookup_put(overlay(existing, init), last.0, last.1, key);
        lemma_position(init, key);
    }
}

/// Merging a field under a key that the scope does not have puts the value
/// there as it is and leaves every other key alone.
pub proof fn lemma_new_key_takes_value(fields: Fields, key: Seq<char>, value: Tree, other: Seq<char>)
    requires
        lookup(fields, key) is None,
    ensures
        merged_entry(fields, key, value) == Ok::<Fields, Failure>(fields.push((key, value))),
        lookup(fields.push((key, value)), key) == Some(value),
        other != key ==> lookup(fields.push((key, value)), other) == lookup(fields, other),
{
    lemma_lookup_put(fields, key, value, key);
    lemma_lookup_put(fields, key, value, other);
}

/// Merging an object into a key that holds an object overwrites the fields
/// that the two share, adds the fields that are new, and preserves the fields
/// that only the scope had. Every other key of the scope is left alone.
pub proof fn lemma_objects_merge_one_level(
    fields: Fields,
    key: Seq<char>,
    existing: Fields,
    incoming: Fields,
    sub: Seq<char>,
    other: Seq<char>,
)
    requires
        lookup(fields, key) == Some(Tree::Object(existing)),
        distinct_keys(incoming),
    ensures
        merged_entry(fields, key, Tree::Object(incoming)) matches Ok(after) && {
            &&& lookup(after, key) == Some(Tree::Object(overlay(existing, incoming)))
            &&& other != key ==> lookup(after, other) == lookup(fields, other)
        },
        lookup(overlay(existing, incoming), sub) == match lookup(incoming, sub) {
            Some(value) => Some(value),
            None => lookup(existing, sub),
        },
{
    let merged = Tree::Object(overlay(existing, incoming));
    lemma_lookup_put(fields, key, merged, key);
    lemma_lookup_put(fields, key, merged, other);
    lemma_overlay(existing, incoming, sub);
}

/// Merging into a key whose value is not an object fails with a type
/// mismatch that names the key, whatever comes in; and so does merging
/// anything but an object into a key that is there.
pub proof fn lemma_mismatch_fails(fields: Fields, key: Seq<char>, value: Tree)
    requires
        lookup(fields, key) matches Some(existing) && !(existing is Object && value is Object),
    ensures
        merged_entry(fields, key, value) == Err::<Fields, Failure>(
            Failure::MergeTypeMismatch(key),
        ),
{
}

/// A fragment merges exactly when none of its fields clashes with the scope
/// as it was. Then every key holds what the fragment brought for it, combined
/// with what it had, and keys that the fragment does not name hold what they
/// held. Otherwise the failure names the first field that clashes.
pub proof fn lemma_merged_fragment(fields: Fields, fragment: Fields)
    requires
        distinct_keys(fragment),
    ensures
        match merged_fragment(fields, fragment).failure {
            None => {
                &&& forall|i: int|
                    0 <= i < fragment.len() ==> !clashes(
                        fields,
                        (#[trigger] fragment[i]).0,
                        fragment[i].1,
                    )
                &&& forall|key: Seq<char>| #[trigger]
                    lookup(merged_fragment(fields, fragment).fields, key) == match lookup(
                        fragment,
                        key,
                    ) {
                        Some(value) => Some(combined(lookup(fields, key), value)),
                        None => lookup(fields, key),
                    }
            },
            Some(failure) => exists|i: int|
                {
                    &&& 0 <= i < fragment.len()
                    &&& failure == Failure::MergeTypeMismatch((#[trigger] fragment[i]).0)
                    &&& clashes(fields, fragment[i].0, fragment[i].1)
                    &&& forall|j: int|
                        0 <= j < i ==> !clashes(fields, (#[trigger] fragment[j]).0, fragment[j].1)
                },
        },
    decreases fragment.len(),
{
    if fragment.len() > 0 {
        let init = fragment.drop_last();
        let last = fragment.last();
        let before = merged_fragment(fields, init);
        let whole = merged_fragment(fields, fragment);
        lemma_merged_fragment(fields, init);
        assert(forall|j: int| 0 <= j < init.len() ==> init[j] == fragment[j]);
        match before.failure {
            Some(failure) => {
                let i = choose|i: int|
                    {
                        &&& 0 <= i < init.len()
                        &&& failure == Failure::MergeTypeMismatch((#[trigger] init[i]).0)
                        &&& clashes(fields, init[i].0, init[i].1)
                        &&& forall|j: int|
                            0 <= j < i ==> !clashes(fields, (#[trigger] init[j]).0, init[j].1)
                    };
                assert(fragment[i] == init[i]);
            },
            None => {
                lemma_position(init, last.0);
                assert(lookup(init, last.0) is None);
                assert(lookup(before.fields, last.0) == lookup(fields, last.0));
                if clashes(fields, last.0, last.1) {
                    assert(whole.failure == Some(Failure::MergeTypeMismatch(last.0)));
                    assert(fragment[fragment.len() - 1] == last);
                } else {
                    let value = combined(lookup(fields, last.0), last.1);
                    assert(whole.fields == put(before.fields, last.0, value));
                    assert forall|key: Seq<char>| #[trigger]
                        lookup(whole.fields, key) == match lookup(fragment, key) {
                            Some(value) => Some(combined(lookup(fields, key), value)),
                            None => lookup(fields, key),
                        } by {
                        lemma_lookup_put(before.fields, last.0, value, key);
                        lemma_position(init, key);
                        assert(lookup(before.fields, key) == match lookup(init, key) {
                            Some(value) => Some(combined(lookup(fields, key), value)),
                            None => lookup(fields, key),
                        });
                    }
                }
            },
        }
    }
}

/// Of two fragments merged one after the other, the later wins field by
/// field. Where both hold an object under `key`, that key ends up with an
/// object in which each field comes from the later fragment if it has the
/// field, else from the earlier one if it has it, else from what the scope
/// held under `key` before.
pub proof fn lemma_later_fragment_wins(
    fields: Fields,
    registry: Fields,
    first: Seq<char>,
    second: Seq<char>,
    earlier: Fields,
    later: Fields,
    key: Seq<char>,
    earlier_fields: Fields,
    later_fields: Fields,
    sub: Seq<char>,
)
    requires
        lookup(registry, first) == Some(Tree::Object(earlier)),
        lookup(registry, second) == Some(Tree::Object(later)),
        lookup(earlier, key) == Some(Tree::Object(earlier_fields)),
        lookup(later, key) == Some(Tree::Object(later_fields)),
        distinct_keys(earlier),
        distinct_keys(later),
        distinct_keys(earlier_fields),
        distinct_keys(later_fields),
        merged_all(fields, registry, seq![first, second]).failure is None,
    ensures
        lookup(merged_all(fields, registry, seq![first, second]).fields, key) matches Some(
            Tree::Object(merged),
        ) && lookup(merged, sub) == match lookup(later_fields, sub) {
            Some(value) => Some(value),
            None => match lookup(earlier_fields, sub) {
                Some(value) => Some(value),
                None => match lookup(fields, key) {
                    Some(Tree::Object(held)) => lookup(held, sub),
                    _ => None,
                },
            },
        },
{
    let names = seq![first, second];
    assert(names.drop_last() =~= seq![first]);
    assert(seq![first].drop_last() =~= Seq::<Seq<char>>::empty());
    let none = merged_all(fields, registry, Seq::empty());
    assert(none == Merge { fields, failure: None });
    let one = merged_all(fields, registry, seq![first]);
    assert(one == merged_fragment(fields, earlier));
    let both = merged_all(fields, registry, names);
    assert(both == merged_fragment(one.fields, later));
    lemma_merged_fragment(fields, earlier);
    lemma_merged_fragment(one.fields, later);
    lemma_position(earlier, key);
    lemma_position(later, key);
    let after_first = lookup(one.fields, key);
    assert(after_first == Some(combined(lookup(fields, key), Tree::Object(earlier_fields))));
    assert(lookup(both.fields, key) == Some(combined(after_first, Tree::Object(later_fields))));
    match lookup(fields, key) {
        Some(Tree::Object(held)) => {
            lemma_overlay(held, earlier_fields, sub);
            lemma_overlay(overlay(held, earlier_fields), later_fields, sub);
        },
        Some(_) => {
            let i = position(earlier, key)->0;
            assert(clashes(fields, earlier[i].0, earlier[i].1));
        },
        None => {
            lemma_overlay(earlier_fields, later_fields, sub);
        },
    }
}

/// Merges one field of a fragment into `target`.
pub fn insert_data(target: &mut Object, key: &str, value: &Value) -> (r: Result<(), Error>)
    ensures
        match merged_entry(old(target)@, key@, value@) {
            Ok(fields) => r is Ok && final(target)@ == fields,
            Err(failure) => r matches Err(error) && error@ == failure && final(target)@ == old(
                target,
            )@,
        },
{
    let ghost before = target@;
    proof {
        lemma_position(before, key@);
    }
    match target.find(key) {
        None => {
            target.insert(key.to_owned(), value.clone());
            Ok(())
        },
        Some(index) => {
            let incoming = match value {
                Value::Object(incoming) => incoming,
                _ => {
                    return Err(Error::MergeTypeMismatch(key.to_owned()));
                },
            };
            match target.replace_at(index, Value::Null) {
                Value::Object(mut existing) => {
                    let ghost started = existing@;
                    let fields = incoming.entries();
                    let mut i: usize = 0;
                    while i < fields.len()
                        invariant
                            i <= fields.len(),
                            pairs(fields@) == incoming@,
                            existing@ == overlay(started, incoming@.take(i as int)),
                        decreases fields.len() - i,
                    {
                        assert(incoming@.take(i + 1).drop_last() =~= incoming@.take(i as int));
                        existing.insert(fields[i].0.clone(), fields[i].1.clone());
                        i += 1;
                    }
                    assert(incoming@.take(fields.len() as int) =~= incoming@);
                    target.replace_at(index, Value::Object(existing));
                    Ok(())
                },
                other => {
                    target.replace_at(index, other);
                    Err(Error::MergeTypeMismatch(key.to_owned()))
                },
            }
        },
    }
}

/// Whether `result` reports `failure`: success where there is none.
pub open spec fn reports(result: Result<(), Error>, failure: Option<Failure>) -> bool {
    match failure {
        None => result is Ok,
        Some(failure) => result matches Err(error) && error@ == failure,
    }
}

/// Merges the fields of `fragment` into `target`, in the fragment's order, and
/// stops at the first field that cannot be merged.
pub fn merge_fragment(target: &mut Object, fragment: &Object) -> (r: Result<(), Error>)
    ensures
        final(target)@ == merged_fragment(old(target)@, fragment@).fields,
        reports(r, merged_fragment(old(target)@, fragment@).failure),
{
    let ghost started = target@;
    let fields = fragment.entries();
    let mut i: usize = 0;
    while i < fields.len()
        invariant
            i <= fields.len(),
            pairs(fields@) == fragment@,
            started == old(target)@,
            merged_fragment(started, fragment@.take(i as int)) == (Merge {
                fields: target@,
                failure: None,
            }),
        decreases fields.len() - i,
    {
        let ghost upto = fragment@.take(i + 1);
        assert(upto.drop_last() =~= fragment@.take(i as int));
        match insert_data(target, fields[i].0.as_str(), &fields[i].1) {
            Ok(()) => {},
            Err(error) => {
                proof {
                    lemma_failure_stays(started, fragment@, i + 1);
                }
                return Err(error);
            },
        }
        i += 1;
    }
    assert(fragment@.take(fields.len() as int) =~= fragment@);
    Ok(())
}

/// A merge that has failed on the first `k` fields of a fragment ends there,
/// whatever fields follow.
proof fn lemma_failure_stays(fields: Fields, fragment: Fields, k: int)
    requires
        0 <= k <= fragment.len(),
        merged_fragment(fields, fragment.take(k)).failure is Some,
    ensures
        merged_fragment(fields, fragment) == merged_fragment(fields, fragment.take(k)),
    decreases fragment.len() - k,
{
    if k < fragment.len() {
        assert(fragment.take(k + 1).drop_last() =~= fragment.take(k));
        lemma_failure_stays(fields, fragment, k + 1);
    } else {
        assert(fragment.take(k) =~= fragment);
    }
}

/// A merge of named fragments that has failed on the first `k` names ends
/// there, whatever names follow.
proof fn lemma_failure_stays_all(fields: Fields, registry: Fields, names: Seq<Seq<char>>, k: int)
    requires
        0 <= k <= names.len(),
        merged_all(fields, registry, names.take(k)).failure is Some,
    ensures
        merged_all(fields, registry, names) == merged_all(fields, registry, names.take(k)),
    decreases names.len() - k,
{
    if k < names.len() {
        assert(names.take(k + 1).drop_last() =~= names.take(k));
        lemma_failure_stays_all(fields, registry, names, k + 1);
    } else {
        assert(names.take(k) =~= names);
    }
}

/// Merges the fragments that `names` lists, in that order, from `registry`
/// into `target`, and stops at the first failure.
pub fn merge_named(target: &mut Object, registry: &Object, names: &Vec<String>) -> (r: Result<
    (),
    Error,
>)
    ensures
        final(target)@ == merged_all(old(target)@, registry@, texts(names@)).fields,
        reports(r, merged_all(old(target)@, registry@, texts(names@)).failure),
{
    let ghost started = target@;
    let ghost wanted = texts(names@);
    let mut i: usize = 0;
    while i < names.len()
        invariant
            i <= names.len(),
            wanted == texts(names@),
            started == old(target)@,
            merged_all(started, registry@, wanted.take(i as int)) == (Merge {
                fields: target@,
                failure: None,
            }),
        decreases names.len() - i,
    {
        let ghost upto = wanted.take(i + 1);
        assert(upto.drop_last() =~= wanted.take(i as int));
        let name = names[i].as_str();
        let outcome = match registry.get(name) {
            None => Err(Error::FragmentNotFound(name.to_owned())),
            Some(Value::Object(fragment)) => merge_fragment(target, fragment),
            Some(_) => Err(Error::FragmentNotAnObject(name.to_owned())),
        };
        match outcome {
            Ok(()) => {},
            Err(error) => {
                proof {
                    lemma_failure_stays_all(started, registry@, wanted, i + 1);
                }
                return Err(error);
            },
        }
        i += 1;
    }
    assert(wanted.take(names.len() as int) =~= wanted);
    Ok(())
}

} // verus!
