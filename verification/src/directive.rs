//! The directive `includes`: what the template engine is to render the rest
//! of a node with.

use crate::error::{Error, Failure};
use crate::apply::{applied, apply_includes};
use crate::merge::include_key;
use crate::path::{transform_path_to_pointer, translate};
use crate::text::texts;
use crate::tree::Tree;
use crate::value::Value;
use vstd::prelude::*;

verus! {

/// The names that the parameter of a directive lists: the items of its
/// top-level array of the key `include`, where there is one and each of its
/// items is a string. In every other case none.
pub open spec fn requested_names(parameter: Tree) -> Seq<Seq<char>> {
    match parameter.field(include_key()) {
        Some(Tree::Array(items)) => if forall|i: int|
            0 <= i < items.len() ==> #[trigger] items[i] is String {
            Seq::new(items.len(), |i: int| items[i]->String_0)
        } else {
            Seq::empty()
        },
        _ => Seq::empty(),
    }
}

/// What the directive makes of the render context `context` at the scope path
/// `path`: no new context where its parameter lists no names; otherwise the
/// context with the named fragments merged into the node at that path.
pub open spec fn overridden(path: Seq<char>, parameter: Tree, context: Tree) -> Result<
    Option<Tree>,
    Failure,
> {
    let names = requested_names(parameter);
    if names.len() == 0 {
        Ok(None)
    } else {
        let outcome = applied(context, context, translate(path), names);
        match outcome.failure {
            None => Ok(Some(outcome.tree)),
            Some(failure) => Err(failure),
        }
    }
}

/// A scope that asks for no fragments is rendered with the context as it is,
/// whatever the context holds: a registry at its root, or none, makes no
/// difference.
pub proof fn lemma_no_request_no_change(
    path: Seq<char>,
    parameter: Tree,
    context: Tree,
    other: Tree,
)
    requires
        !(parameter.field(include_key()) matches Some(Tree::Array(_))),
    ensures
        requested_names(parameter).len() == 0,
        overridden(path, parameter, context) == Ok::<Option<Tree>, Failure>(None),
        overridden(path, parameter, other) == Ok::<Option<Tree>, Failure>(None),
{
}

/// The names of the fragments that the parameter of a directive asks for.
pub fn find_includes(parameter: &Value) -> (names: Vec<String>)
    ensures
        texts(names@) == requested_names(parameter@),
{
    let mut names: Vec<String> = Vec::new();
    let items = match parameter.get("include") {
        Some(Value::Array(items)) => items,
        _ => {
            return names;
        },
    };
    let ghost listed = parameter@.field(include_key())->0->Array_0;
    let mut i: usize = 0;
    while i < items.len()
        invariant
            i <= items.len(),
            parameter@.field(include_key()) == Some(Tree::Array(listed)),
            listed.len() == items.len(),
            forall|j: int| 0 <= j < items.len() ==> #[trigger] listed[j] == items@[j]@,
            names.len() == i,
            forall|j: int| 0 <= j < i ==> #[trigger] listed[j] == Tree::String(names@[j]@),
        decreases items.len() - i,
    {
        assert(listed[i as int] == items@[i as int]@);
        match &items[i] {
            Value::String(name) => {
                names.push(name.clone());
            },
            _ => {
                return Vec::new();
            },
        }
        i += 1;
    }
    names
}

/// The directive: given the scope path at which the template engine stands,
/// the directive's parameter and the render context, says which context the
/// rest of the node is to be rendered with. `None` leaves the context as it
/// is; `Some` holds a copy of it with the requested fragments merged into the
/// scope. The context itself is never changed.
pub fn includes(path: &str, parameter: &Value, context: &Value) -> (r: Result<Option<Value>, Error>)
    ensures
        match overridden(path@, parameter@, context@) {
            Ok(None) => r matches Ok(None),
            Ok(Some(tree)) => r matches Ok(Some(value)) && value@ == tree,
            Err(failure) => r matches Err(error) && error@ == failure,
        },
{
    let pointer = transform_path_to_pointer(path);
    let names = find_includes(parameter);
    if names.len() == 0 {
        return Ok(None);
    }
    let mut copy = context.clone();
    match apply_includes(context, &mut copy, pointer.as_str(), &names) {
        Ok(()) => Ok(Some(copy)),
        Err(error) => Err(error),
    }
}

} // verus!
