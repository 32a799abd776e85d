//! The location of the local JSON memory file.
use vstd::prelude::*;
use std::path::PathBuf;

verus! {

/// A filesystem path (`std::path::PathBuf`), carried as an opaque value.
#[verifier::external_type_specification]
#[verifier::external_body]
pub struct ExPathBuf(PathBuf);

/// Persists one versioned snapshot at an application-owned path. Reading and writing
/// the file happen in the application around the library.
#[derive(Debug)]
pub struct JsonMemoryStore {
    path: PathBuf,
}

impl JsonMemoryStore {
    /// Creates a store without touching the filesystem.
    pub fn new(path: PathBuf) -> (r: Self)
        ensures
            r.location() == path,
    {
        JsonMemoryStore { path }
    }

    /// The configured snapshot path.
    pub closed spec fn location(&self) -> PathBuf {
        self.path
    }

    /// Returns the configured snapshot path.
    pub fn path(&self) -> (r: &PathBuf)
        ensures
            *r == self.location(),
    {
        &self.path
    }
}

} // verus!
