//! The library's error type.

use vstd::prelude::*;

verus! {

/// Everything that can go wrong in the library's decisions. Errors raised by
/// the operating system or by the JSON codec are carried as their message.
#[derive(Debug, Clone, PartialEq, Eq)]
pub enum Error {
    /// An I/O operation on `path` failed with `message`.
    Io { path: String, message: String },
    /// An I/O operation failed with `message`, with no path attached.
    Bare(String),
    /// The configuration could not be (de)serialized.
    Json(String),
    /// The stored schema version is newer than this build understands.
    UnsupportedSchema { found: u32, supported: u32 },
    /// No drawer with this id was found.
    DrawerNotFound(String),
    /// The command line (or a forwarded command) was malformed.
    BadCommandLine(String),
    /// A drawer's grid has no free cell left.
    GridFull,
    /// A Windows API call failed with this HRESULT.
    Win32(i32),
    /// Anything else.
    Other(String),
}

impl Error {
    /// Attach a path to an I/O failure.
    pub fn io(path: String, message: String) -> (e: Error)
        ensures
            e == (Error::Io { path, message }),
    {
        Error::Io { path, message }
    }
}

} // verus!
