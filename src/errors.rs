use vstd::prelude::*;

verus! {

/// Everything that can go wrong while handling one package reference.
#[derive(Debug, PartialEq, Eq)]
pub enum Error {
    /// A local file could not be read or written.
    Io(String),
    /// A manifest document did not match the manifest schema.
    Toml(String),
    /// A transport-level failure of an HTTP request.
    Reqwest(String),
    /// Any other failure reported by a collaborator.
    Failure(String),
    /// The remote origin answered 404 for this file.
    FileNotFound(String),
    /// The remote origin answered with a status that is neither 2xx nor 404.
    InvalidResponse,
    /// A manifest whose name or version breaks the manifest rules (its name is given).
    InvalidManifest(String),
    /// A reference line that names no usable origin.
    InvalidReference(String),
}

} // verus!
