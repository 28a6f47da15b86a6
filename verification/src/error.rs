//! Errors of the embedded browser engine's startup.

use vstd::prelude::*;

verus! {

/// Error type.
#[derive(Debug, Clone, PartialEq, Eq, Structural)]
pub enum Error {
    /// Failed to load the browser framework library.
    LoadLibrary,
    /// Failed to initialize the browser process.
    InitializeBrowserProcess,
}

impl Error {
    /// The human-readable description of the error.
    pub fn message(&self) -> (r: String)
        ensures
            self is LoadLibrary ==> r@ == "failed to load CEF library"@,
            self is InitializeBrowserProcess ==> r@
                == "failed to initialize the CEF browser process"@,
    {
        match self {
            Error::LoadLibrary => "failed to load CEF library".to_owned(),
            Error::InitializeBrowserProcess => "failed to initialize the CEF browser process".to_owned(),
        }
    }
}

} // verus!
