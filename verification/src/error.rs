//! The error taxonomy of the window system.

use vstd::prelude::*;

verus! {

/// What a window operation can fail with.
#[derive(Clone, Copy, Debug, PartialEq, Eq, Structural)]
pub enum Error {
    /// The foreign runtime refused the native call; carries its error code.
    /// Recoverable, returned to the caller.
    Windows(u32),
    /// The operation was attempted past the live phase.  Recoverable and
    /// expected during teardown races.
    Destroyed,
    /// A queried native resource does not match the assumed pixel layout.
    UnsupportedBitmapFormat,
    /// The dispatch entry counter would overflow, or nesting exceeded the
    /// configured budget.  Deliberately unrecoverable: an embedder must
    /// abort on it rather than continue, since going on risks worse
    /// memory-safety violations.
    Fatal,
}

impl Error {
    /// A short description, in place of a `Display` implementation.
    pub fn describe(&self) -> String {
        match self {
            Error::Windows(_) => "native call failed".to_string(),
            Error::Destroyed => "window has been destroyed".to_string(),
            Error::UnsupportedBitmapFormat => "unsupported bitmap format".to_string(),
            Error::Fatal => "fatal dispatch condition".to_string(),
        }
    }
}

} // verus!
