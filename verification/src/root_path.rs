//! The folder the slide documents are read from.

use vstd::prelude::*;

verus! {

/// The root folder under which the application looks for documents.
#[derive(Debug, PartialEq, Eq)]
pub struct RootPath {
    pub path: String,
}

impl RootPath {
    /// Wraps the given path text.
    pub fn from(path: &str) -> (r: Self)
        ensures
            r.path@ == path@,
    {
        Self { path: path.to_owned() }
    }
}

} // verus!
