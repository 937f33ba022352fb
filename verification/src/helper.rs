//! The casing helper of the templates.

use crate::tree::Tree;
use crate::value::Value;
use vstd::prelude::*;

verus! {

/// The upper case of `text`, as `str::to_uppercase` gives it.
pub uninterp spec fn uppercase_of(text: Seq<char>) -> Seq<char>;

/// Assumed of `str::to_uppercase` of the standard library, not proved here:
/// the string that it returns depends on the characters of the slice alone.
/// Which string that is, is left to the standard library.
#[verifier::external_body]
fn to_uppercase(text: &str) -> (r: String)
    ensures
        r@ == uppercase_of(text@),
{
    text.to_uppercase()
}

/// What the casing helper writes for its first parameter: the upper case of a
/// string; nothing where the parameter is missing or is no string.
pub open spec fn shouted(parameter: Option<Tree>) -> Seq<char> {
    match parameter {
        Some(Tree::String(text)) => uppercase_of(text),
        _ => Seq::empty(),
    }
}

/// What each value that may be missing denotes.
pub open spec fn tree_of(value: Option<&Value>) -> Option<Tree> {
    match value {
        Some(value) => Some(value@),
        None => None,
    }
}

/// The text that the casing helper writes for its first parameter.
pub fn upper(parameter: Option<&Value>) -> (r: String)
    ensures
        r@ == shouted(tree_of(parameter)),
{
    match parameter {
        Some(Value::String(text)) => to_uppercase(text.as_str()),
        _ => String::new(),
    }
}

} // verus!
