//! The render driver: which scopes of the document are rendered, with which
//! bindings, and where the rendered text goes.

use crate::error::{Error, Failure};
use crate::tree::{lemma_lookup_put, put, Fields, Tree};
use crate::value::{pairs, Value};
use vstd::prelude::*;

verus! {

/// The key under which a section is told its own name.
pub open spec fn name_key() -> Seq<char> {
    "name"@
}

/// `scope` with its name bound: an object gets the field `name`, in place of
/// one that it may have; anything else stays as it is.
pub open spec fn named(scope: Tree, name: Seq<char>) -> Tree {
    match scope {
        Tree::Object(fields) => Tree::Object(put(fields, name_key(), Tree::String(name))),
        _ => scope,
    }
}

/// Which part of the document is rendered.
#[derive(Debug, PartialEq, Eq)]
pub enum Mode {
    /// The whole document, as it is.
    Whole,
    /// The section of this name.
    Section(String),
    /// Every top-level section, each into a file of its own.
    Batch,
}

/// Where rendered text goes, as a mathematical value.
pub enum Place {
    Console,
    File { section: Seq<char>, file: Seq<char> },
}

/// One call of the template engine, as a mathematical value.
pub struct Task {
    pub scope: Tree,
    pub place: Place,
}

/// Where rendered text goes.
#[derive(Debug, PartialEq, Eq)]
pub enum Target {
    /// Standard output.
    Console,
    /// The file named `file` in the directory named `section`, below the
    /// directory that the caller generates into.
    File { section: String, file: String },
}

/// One call of the template engine: the scope to render, and where the
/// rendered text goes.
#[derive(Debug, PartialEq)]
pub struct Job {
    pub scope: Value,
    pub target: Target,
}

impl Target {
    /// The place that this target denotes.
    pub open spec fn view(&self) -> Place {
        match self {
            Target::Console => Place::Console,
            Target::File { section, file } => Place::File { section: section@, file: file@ },
        }
    }
}

impl Job {
    /// The task that this job denotes.
    pub open spec fn view(&self) -> Task {
        Task { scope: self.scope@, place: self.target@ }
    }
}

/// What each job of `jobs` denotes.
pub open spec fn tasks(jobs: Seq<Job>) -> Seq<Task> {
    Seq::new(jobs.len(), |i: int| jobs[i]@)
}

/// The scope of the section `section` of the document `root`, with its name bound.
pub open spec fn section_of(root: Tree, section: Seq<char>) -> Result<Tree, Failure> {
    match root.field(section) {
        Some(scope) => Ok(named(scope, section)),
        None => Err(Failure::SectionNotFound(section)),
    }
}

/// One task for each field of the document, in the document's order: the
/// field's value with its name bound, for the file `file` in the directory
/// named by the field's key.
pub open spec fn batch_of(sections: Fields, file: Seq<char>) -> Seq<Task> {
    Seq::new(
        sections.len(),
        |i: int|
            Task {
                scope: named(sections[i].1, sections[i].0),
                place: Place::File { section: sections[i].0, file },
            },
    )
}

/// The calls of the template engine that rendering `root` in `mode` takes, in
/// order, where `file` is the base name of the template's file.
pub open spec fn plan_of(root: Tree, mode: Mode, file: Seq<char>) -> Result<Seq<Task>, Failure> {
    match mode {
        Mode::Whole => Ok(seq![Task { scope: root, place: Place::Console }]),
        Mode::Section(section) => match section_of(root, section@) {
            Ok(scope) => Ok(seq![Task { scope, place: Place::Console }]),
            Err(failure) => Err(failure),
        },
        Mode::Batch => match root {
            Tree::Object(sections) => Ok(batch_of(sections, file)),
            _ => Err(Failure::RootNotAnObject),
        },
    }
}

/// A scope with its name bound holds the name under the key `name` if it is
/// an object, whatever it held there before, and every other field as it was;
/// a scope that is no object is as it was.
pub proof fn lemma_named(scope: Tree, name: Seq<char>, other: Seq<char>)
    ensures
        scope is Object ==> named(scope, name).field(name_key()) == Some(Tree::String(name)),
        scope is Object && other != name_key() ==> named(scope, name).field(other) == scope.field(
            other,
        ),
        !(scope is Object) ==> named(scope, name) == scope,
{
    if let Tree::Object(fields) = scope {
        lemma_lookup_put(fields, name_key(), Tree::String(name), name_key());
        lemma_lookup_put(fields, name_key(), Tree::String(name), other);
    }
}

/// A section that the document does not have is a failure that names it, and
/// nothing is rendered.
pub proof fn lemma_missing_section(root: Tree, section: String, file: Seq<char>)
    requires
        root.field(section@) is None,
    ensures
        plan_of(root, Mode::Section(section), file) == Err::<Seq<Task>, Failure>(
            Failure::SectionNotFound(section@),
        ),
{
}

/// Batch mode renders each section of the document once, in the document's
/// order, into the file named after the template in the directory named
/// after the section. A section that is an object is told its name; any
/// other section is rendered as it is.
pub proof fn lemma_batch(sections: Fields, file: Seq<char>, i: int)
    requires
        0 <= i < sections.len(),
    ensures
        plan_of(Tree::Object(sections), Mode::Batch, file) == Ok::<Seq<Task>, Failure>(
            batch_of(sections, file),
        ),
        batch_of(sections, file).len() == sections.len(),
        batch_of(sections, file)[i].place == (Place::File { section: sections[i].0, file }),
        sections[i].1 is Object ==> batch_of(sections, file)[i].scope.field(name_key()) == Some(
            Tree::String(sections[i].0),
        ),
        !(sections[i].1 is Object) ==> batch_of(sections, file)[i].scope == sections[i].1,
{
    lemma_named(sections[i].1, sections[i].0, name_key());
}

/// Binds the name of `scope`, if it is an object.
pub fn inject_name(scope: &mut Value, name: &str)
    ensures
        final(scope)@ == named(old(scope)@, name@),
{
    match scope {
        Value::Object(fields) => {
            fields.insert("name".to_owned(), Value::String(name.to_owned()));
        },
        _ => {},
    }
}

/// The scope to render for the section `section` of the document `root`.
pub fn select_section(root: &Value, section: &str) -> (r: Result<Value, Error>)
    ensures
        match section_of(root@, section@) {
            Ok(tree) => r matches Ok(scope) && scope@ == tree,
            Err(failure) => r matches Err(error) && error@ == failure,
        },
{
    match root.get(section) {
        Some(value) => {
            let mut scope = value.clone();
            inject_name(&mut scope, section);
            Ok(scope)
        },
        None => Err(Error::SectionNotFound(section.to_owned())),
    }
}

/// One job for each top-level section of the document `root`, in the
/// document's order, for the template whose file has the base name `file`.
pub fn batch_sections(root: &Value, file: &str) -> (r: Result<Vec<Job>, Error>)
    ensures
        match root@ {
            Tree::Object(sections) => r matches Ok(jobs) && tasks(jobs@) == batch_of(
                sections,
                file@,
            ),
            _ => r matches Err(error) && error@ == Failure::RootNotAnObject,
        },
{
    let sections = match root {
        Value::Object(sections) => sections,
        _ => {
            return Err(Error::RootNotAnObject);
        },
    };
    let entries = sections.entries();
    let mut jobs: Vec<Job> = Vec::new();
    let mut i: usize = 0;
    while i < entries.len()
        invariant
            i <= entries.len(),
            pairs(entries@) == sections@,
            jobs.len() == i,
            forall|j: int| 0 <= j < i ==> (#[trigger] jobs@[j])@ == batch_of(sections@, file@)[j],
        decreases entries.len() - i,
    {
        let mut scope = entries[i].1.clone();
        inject_name(&mut scope, entries[i].0.as_str());
        let target = Target::File { section: entries[i].0.clone(), file: file.to_owned() };
        jobs.push(Job { scope, target });
        i += 1;
    }
    Ok(jobs)
}

/// The calls of the template engine that rendering the document `root` in
/// `mode` takes, in order. `file` is the base name of the template's file;
/// only batch mode reads it.
pub fn plan(root: &Value, mode: &Mode, file: &str) -> (r: Result<Vec<Job>, Error>)
    ensures
        match plan_of(root@, *mode, file@) {
            Ok(wanted) => r matches Ok(jobs) && tasks(jobs@) == wanted,
            Err(failure) => r matches Err(error) && error@ == failure,
        },
{
    match mode {
        Mode::Whole => {
            let jobs = vec![Job { scope: root.clone(), target: Target::Console }];
            Ok(jobs)
        },
        Mode::Section(section) => match select_section(root, section.as_str()) {
            Ok(scope) => {
                let jobs = vec![Job { scope, target: Target::Console }];
                Ok(jobs)
            },
            Err(error) => Err(error),
        },
        Mode::Batch => batch_sections(root, file),
    }
}

} // verus!
