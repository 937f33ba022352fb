//! Merging named fragments into the scope that a pointer addresses inside a
//! render context.

use crate::error::{Error, Failure};
use crate::merge::{include_key, merge_named, merged_all, reports};
use crate::pointer::{graft, lemma_graft, locate, parse_index, pointer_tokens, resolve, tokens_of};
use crate::text::texts;
use crate::tree::{lemma_position, Fields, Tree};
use crate::value::{Object, Value};
use vstd::prelude::*;

verus! {

/// The registry of fragments of the document `root`: its top-level field of
/// the registry's key, where that field is an object.
pub open spec fn registry_of(root: Tree) -> Option<Fields> {
    match root.field(include_key()) {
        Some(Tree::Object(fragments)) => Some(fragments),
        _ => None,
    }
}

/// What became of a render context: the tree as it was left, and the failure
/// that stopped the merge, if one did.
pub struct Applied {
    pub tree: Tree,
    pub failure: Option<Failure>,
}

/// Merging named fragments into the node of `target` that `tokens` lead to.
/// The node has to be there, it has to be an object, and there has to be a
/// registry, in this order; then the fragments are merged into that node, and
/// the rest of `target` stays as it is.
pub open spec fn applied_at(
    target: Tree,
    tokens: Seq<Seq<char>>,
    registry: Option<Fields>,
    names: Seq<Seq<char>>,
) -> Applied {
    match resolve(target, tokens) {
        None => Applied { tree: target, failure: Some(Failure::PointerNotFound) },
        Some(Tree::Object(fields)) => match registry {
            None => Applied { tree: target, failure: Some(Failure::RegistryMissing) },
            Some(fragments) => {
                let merge = merged_all(fields, fragments, names);
                Applied {
                    tree: graft(target, tokens, Tree::Object(merge.fields)),
                    failure: merge.failure,
                }
            },
        },
        Some(_) => Applied { tree: target, failure: Some(Failure::NotAnObject) },
    }
}

/// Merging the fragments that `names` lists from the registry of `root` into
/// the node of `target` that `pointer` addresses. With no names nothing is
/// looked at and nothing changes.
pub open spec fn applied(root: Tree, target: Tree, pointer: Seq<char>, names: Seq<Seq<char>>) -> Applied {
    if names.len() == 0 {
        Applied { tree: target, failure: None }
    } else {
        match tokens_of(pointer) {
            None => Applied { tree: target, failure: Some(Failure::PointerNotFound) },
            Some(tokens) => applied_at(target, tokens, registry_of(root), names),
        }
    }
}

/// Where the merge goes through, the pointer led to an object, the document
/// had a registry, and the pointer now leads to that object with the
/// fragments merged into it.
pub proof fn lemma_applied_scope(root: Tree, target: Tree, pointer: Seq<char>, names: Seq<Seq<char>>)
    requires
        names.len() > 0,
        applied(root, target, pointer, names).failure is None,
    ensures
        locate(target, pointer) matches Some(Tree::Object(fields)) && registry_of(
            root,
        ) matches Some(fragments) && locate(applied(root, target, pointer, names).tree, pointer)
            == Some(Tree::Object(merged_all(fields, fragments, names).fields)),
{
    let tokens = tokens_of(pointer)->0;
    let fields = resolve(target, tokens)->0->Object_0;
    let fragments = registry_of(root)->0;
    lemma_graft(target, tokens, Tree::Object(merged_all(fields, fragments, names).fields));
}

/// The registry of fragments of `root`.
fn registry(root: &Value) -> (r: Option<&Object>)
    ensures
        match r {
            Some(fragments) => registry_of(root@) == Some(fragments@),
            None => registry_of(root@) is None,
        },
{
    match root.get("include") {
        Some(Value::Object(fragments)) => Some(fragments),
        _ => None,
    }
}

/// What a registry that may be missing holds.
spec fn fragments_of(registry: Option<&Object>) -> Option<Fields> {
    match registry {
        Some(fragments) => Some(fragments@),
        None => None,
    }
}

/// Follows the tokens from `depth` on and merges into the node they lead to.
fn merge_at(
    target: &mut Value,
    tokens: &Vec<String>,
    depth: usize,
    registry: Option<&Object>,
    names: &Vec<String>,
) -> (r: Result<(), Error>)
    requires
        depth <= tokens.len(),
    ensures
        final(target)@ == applied_at(
            old(target)@,
            texts(tokens@).skip(depth as int),
            fragments_of(registry),
            texts(names@),
        ).tree,
        reports(
            r,
            applied_at(
                old(target)@,
                texts(tokens@).skip(depth as int),
                fragments_of(registry),
                texts(names@),
            ).failure,
        ),
    decreases tokens.len() - depth,
{
    let ghost rest = texts(tokens@).skip(depth as int);
    let ghost before = target@;
    if depth == tokens.len() {
        return match target {
            Value::Object(fields) => match registry {
                Some(fragments) => merge_named(fields, fragments, names),
                None => Err(Error::RegistryMissing),
            },
            _ => Err(Error::NotAnObject),
        };
    }
    let token = tokens[depth].as_str();
    proof {
        assert(rest.skip(1) =~= texts(tokens@).skip(depth + 1));
    }
    match target {
        Value::Object(fields) => match fields.find(token) {
            Some(index) => {
                proof {
                    lemma_position(fields@, token@);
                }
                let mut next = fields.replace_at(index, Value::Null);
                let ghost was = next@;
                let r = merge_at(&mut next, tokens, depth + 1, registry, names);
                fields.replace_at(index, next);
                proof {
                    let fs = before->Object_0;
                    assert(fields@ =~= fs.update(index as int, (fs[index as int].0, next@)));
                    assert(next@ == was ==> fields@ =~= fs);
                }
                r
            },
            None => Err(Error::PointerNotFound),
        },
        Value::Array(items) => match parse_index(token, items.len()) {
            Some(index) => {
                let mut next = Value::Null;
                std::mem::swap(&mut items[index], &mut next);
                let ghost was = next@;
                let r = merge_at(&mut next, tokens, depth + 1, registry, names);
                std::mem::swap(&mut items[index], &mut next);
                proof {
                    let is = before->Array_0;
                    assert(Value::Array(*items)@->Array_0 =~= is.update(index as int, items[index as int]@));
                    assert(items[index as int]@ == was ==> Value::Array(*items)@->Array_0 =~= is);
                }
                r
            },
            None => Err(Error::PointerNotFound),
        },
        _ => Err(Error::PointerNotFound),
    }
}

/// Merges the fragments that `names` lists, in that order, into the node of
/// `target` that `pointer` addresses. The fragments are those of the registry
/// of `root`, the document. A failure leaves in `target` what was merged
/// before it; with no names nothing is looked at and nothing changes.
pub fn apply_includes(root: &Value, target: &mut Value, pointer: &str, names: &Vec<String>) -> (r:
    Result<(), Error>)
    ensures
        final(target)@ == applied(root@, old(target)@, pointer@, texts(names@)).tree,
        reports(r, applied(root@, old(target)@, pointer@, texts(names@)).failure),
{
    if names.len() == 0 {
        return Ok(());
    }
    match pointer_tokens(pointer) {
        None => Err(Error::PointerNotFound),
        Some(tokens) => {
            assert(texts(tokens@).skip(0) =~= texts(tokens@));
            merge_at(target, &tokens, 0, registry(root), names)
        },
    }
}

} // verus!
