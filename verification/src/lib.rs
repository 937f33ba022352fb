//! Composes the contexts that a template is rendered with.
//!
//! A document of values is a tree ([`Value`]). A template engine walks a
//! template against it and, where the template carries the directive
//! `includes`, asks this library for the context of the scope it stands in:
//! the scope path is translated into a pointer ([`path`], [`pointer`]), the
//! fragments that the scope asks for are looked up in the document's registry
//! and merged into a copy of the context ([`merge`], [`apply`],
//! [`directive`]). Which scopes are rendered at all, and with which bindings,
//! is decided in [`driver`].
//!
//! Every function states what it computes over [`tree::Tree`], the
//! mathematical value that a [`Value`] denotes.

pub mod address;
pub mod apply;
pub mod directive;
pub mod driver;
pub mod error;
pub mod helper;
pub mod merge;
pub mod path;
pub mod pointer;
pub mod text;
pub mod tree;
pub mod value;

pub use apply::apply_includes;
pub use directive::{find_includes, includes};
pub use driver::{batch_sections, inject_name, plan, select_section, Job, Mode, Target};
pub use error::Error;
pub use helper::upper;
pub use merge::{insert_data, merge_fragment, merge_named};
pub use path::transform_path_to_pointer;
pub use value::{Object, Value};
