//! The failures of composing a render scope.

use vstd::prelude::*;
use vstd::string::StringExecFns;

verus! {

/// Why composing a render scope failed, as a mathematical value.
pub enum Failure {
    SectionNotFound(Seq<char>),
    RootNotAnObject,
    PointerNotFound,
    NotAnObject,
    RegistryMissing,
    FragmentNotFound(Seq<char>),
    FragmentNotAnObject(Seq<char>),
    MergeTypeMismatch(Seq<char>),
}

/// Why composing a render scope failed.
#[derive(Debug, PartialEq, Eq)]
pub enum Error {
    /// The document has no section of this name.
    SectionNotFound(String),
    /// The document root is not an object, so it has no sections.
    RootNotAnObject,
    /// The pointer leads to no node of the render context.
    PointerNotFound,
    /// The node that requests fragments is not an object.
    NotAnObject,
    /// The document has no registry of fragments, or it is not an object.
    RegistryMissing,
    /// The registry has no fragment of this name.
    FragmentNotFound(String),
    /// The fragment of this name is not an object.
    FragmentNotAnObject(String),
    /// The field of this key is in the scope and in the fragment, and one of
    /// the two values is not an object.
    MergeTypeMismatch(String),
}

/// The text that reports `failure`.
pub open spec fn describe(failure: Failure) -> Seq<char> {
    match failure {
        Failure::SectionNotFound(name) => "section \""@ + name + "\" is not in the document"@,
        Failure::RootNotAnObject => "the document root is not a table"@,
        Failure::PointerNotFound => "the scope of the directive is not in the render context"@,
        Failure::NotAnObject => "the scope of the directive is not a table"@,
        Failure::RegistryMissing => "the document has no table of fragments"@,
        Failure::FragmentNotFound(name) => "fragment \""@ + name
            + "\" is not among the fragments"@,
        Failure::FragmentNotAnObject(name) => "fragment \""@ + name + "\" is not a table"@,
        Failure::MergeTypeMismatch(key) => "field \""@ + key
            + "\" cannot be merged: one side is not a table"@,
    }
}

/// `name` between `before` and `after`.
fn framed(before: &str, name: &str, after: &str) -> (r: String)
    ensures
        r@ == before@ + name@ + after@,
{
    let mut text = before.to_owned();
    text.append(name);
    text.append(after);
    text
}

impl Error {
    /// The failure that this error reports.
    pub open spec fn view(&self) -> Failure {
        match self {
            Error::SectionNotFound(name) => Failure::SectionNotFound(name@),
            Error::RootNotAnObject => Failure::RootNotAnObject,
            Error::PointerNotFound => Failure::PointerNotFound,
            Error::NotAnObject => Failure::NotAnObject,
            Error::RegistryMissing => Failure::RegistryMissing,
            Error::FragmentNotFound(name) => Failure::FragmentNotFound(name@),
            Error::FragmentNotAnObject(name) => Failure::FragmentNotAnObject(name@),
            Error::MergeTypeMismatch(key) => Failure::MergeTypeMismatch(key@),
        }
    }

    /// A sentence for the user that names what failed.
    pub fn message(&self) -> (text: String)
        ensures
            text@ == describe(self@),
    {
        match self {
            Error::SectionNotFound(name) => framed(
                "section \"",
                name.as_str(),
                "\" is not in the document",
            ),
            Error::RootNotAnObject => "the document root is not a table".to_owned(),
            Error::PointerNotFound => "the scope of the directive is not in the render context".to_owned(),
            Error::NotAnObject => "the scope of the directive is not a table".to_owned(),
            Error::RegistryMissing => "the document has no table of fragments".to_owned(),
            Error::FragmentNotFound(name) => framed(
                "fragment \"",
                name.as_str(),
                "\" is not among the fragments",
            ),
            Error::FragmentNotAnObject(name) => framed(
                "fragment \"",
                name.as_str(),
                "\" is not a table",
            ),
            Error::MergeTypeMismatch(key) => framed(
                "field \"",
                key.as_str(),
                "\" cannot be merged: one side is not a table",
            ),
        }
    }
}

} // verus!
