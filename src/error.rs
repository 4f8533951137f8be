//! Errors about the files a pipeline reads.
use vstd::prelude::*;

verus! {

/// Why a file could not be used.
#[derive(Debug, Clone, Copy, PartialEq, Eq)]
pub enum FsError {
    /// No file exists at the path.
    FileNotFound,
    /// The path has no file name.
    InvalidFileName,
    /// No file could serve as the base of a pattern.
    InvalidBaseFile,
    /// A path is not valid UTF-8.
    OsStringNotUtf8,
}

impl FsError {
    /// The message shown for the error.
    pub fn message(&self) -> (r: &'static str)
        ensures
            *self == FsError::FileNotFound ==> r@ == "File not found"@,
            *self == FsError::InvalidFileName ==> r@ == "Not a valid file name"@,
            *self == FsError::InvalidBaseFile ==> r@ == "No valid base file"@,
            *self == FsError::OsStringNotUtf8 ==> r@ == "An OS string is not valid utf-8"@,
    {
        match self {
            FsError::FileNotFound => "File not found",
            FsError::InvalidFileName => "Not a valid file name",
            FsError::InvalidBaseFile => "No valid base file",
            FsError::OsStringNotUtf8 => "An OS string is not valid utf-8",
        }
    }
}

} // verus!
