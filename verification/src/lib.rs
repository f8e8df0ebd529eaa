//! The verified core of a small vocabulary-trainer backend: a preference
//! store with notification events, typed profile and progress records on top
//! of it, a reader for vocabulary card files, directory listings in display
//! order, and a document format for carrying the whole preference mapping to
//! disk and back.

use vstd::prelude::*;

verus! {

/// The error taxonomy of this library: invalid caller input, a missing path or
/// key, a malformed frontmatter layout, a malformed structured document, and a
/// directory with no files to pick from.
#[derive(Clone, Copy, Debug, PartialEq, Eq, Structural)]
pub enum AppError {
    Validation,
    NotFound,
    Format,
    Parse,
    EmptyDirectory,
}

} // verus!

pub mod text;
pub mod numtext;
pub mod value;
pub mod store;
pub mod clock;
pub mod profile;
pub mod vocab;
pub mod listing;
pub mod json;
