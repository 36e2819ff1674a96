//! What the command line asks for, and which storage that means.

use crate::failure::Failure;
use vstd::prelude::*;

verus! {

/// The port on which the server listens unless told otherwise.
pub const DEFAULT_PORT: u16 = 7608;

/// A simple, self-hosted, high-performance remote configuration service.
#[derive(Debug)]
pub struct Args {
    /// Port to serve on.
    pub port: u16,
    /// Secret to verify clients against.
    pub secret: String,
    /// Bucket to use for persisting template JSON files.
    pub bucket: Option<String>,
    /// Local directory to use for persisting template JSON files.
    pub local_dir: Option<String>,
    /// Sets a default templated JSON to be used for other environments to
    /// build upon. Ignored if left empty.
    pub default_template: Option<String>,
}

/// Where the templates are kept.
#[derive(Debug)]
pub enum Backend {
    /// In a bucket of the object store.
    Bucket(String),
    /// In a directory of the local file system.
    LocalDir(String),
    /// In memory only.
    Memory,
}

impl Args {
    /// The storage that the arguments ask for: the bucket or the directory
    /// where one of them is named, memory where neither is. To name both is
    /// a failure.
    pub fn backend(&self) -> (choice: Result<Backend, Failure>)
        ensures
            match (self.bucket, self.local_dir) {
                (Some(bucket), None) => choice matches Ok(Backend::Bucket(name)) && name@
                    == bucket@,
                (None, Some(dir)) => choice matches Ok(Backend::LocalDir(name)) && name@ == dir@,
                (None, None) => choice matches Ok(Backend::Memory),
                (Some(_), Some(_)) => choice matches Err(Failure::AmbiguousStorage),
            },
    {
        match (&self.bucket, &self.local_dir) {
            (Some(bucket), None) => Ok(Backend::Bucket(bucket.clone())),
            (None, Some(dir)) => Ok(Backend::LocalDir(dir.clone())),
            (None, None) => Ok(Backend::Memory),
            (Some(_), Some(_)) => Err(Failure::AmbiguousStorage),
        }
    }
}

} // verus!
