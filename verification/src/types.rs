//! Application-level type definitions.

use vstd::prelude::*;

verus! {

/// The kind of storage failure that the pipeline can report.
#[derive(Debug, Clone, Copy, PartialEq, Eq, Structural)]
pub enum IoErrorKind {
    /// Fewer bytes were available than a declared length demanded.
    UnexpectedEof,
    /// Any other underlying storage failure.
    Other,
}

/// An error during a backup or extraction.
#[derive(Debug)]
pub enum BackupError {
    /// An I/O error.
    IoError(IoErrorKind),
    /// A cryptographic error: a tag that does not verify or a malformed blob.
    CryptoError,
    /// A duplicate include path name was encountered.
    DuplicateIncludeName(String),
    /// The specified path already exists.
    PathAlreadyExists(String),
}

/// An application-level backup-related `Result`.
pub type BackupResult<T> = Result<T, BackupError>;

/// A type of path.
#[derive(Debug, Clone, Copy)]
pub enum PathType {
    /// A file.
    File,
    /// A directory.
    Directory,
    /// Either a file or a directory.
    Any,
}

impl PathType {
    /// A human-readable description of the path type.
    pub fn describe(&self) -> (r: &'static str)
        ensures
            *self is File ==> r@ == "file"@,
            *self is Directory ==> r@ == "directory"@,
            *self is Any ==> r@ == "file or directory"@,
    {
        match self {
            Self::File => "file",
            Self::Directory => "directory",
            Self::Any => "file or directory",
        }
    }
}

} // verus!
