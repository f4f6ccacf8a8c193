//! The error taxonomy of the library.
//!
//! Engine failures are data, never connection-terminating events: the
//! dispatch layer converts them to `Response::Err` carrying the error's
//! message. Client-side failures (a server-reported error, a response of
//! the wrong tag, a missing response) are surfaced to the caller.

use vstd::prelude::*;

verus! {

/// An error of the key/value store.
#[derive(Debug)]
pub enum KvsError {
    /// A key asked to be removed was not present.
    KeyNotFound,
    /// A failure described only by its message: a server-reported error, an
    /// unexpected response tag, or a missing response.
    StringError(String),
}

impl KvsError {
    /// The human-readable description this error carries.
    pub open spec fn message_view(&self) -> Seq<char> {
        match self {
            KvsError::KeyNotFound => "Key not found"@,
            KvsError::StringError(msg) => msg@,
        }
    }

    /// The human-readable description, as an owned string.
    pub fn message(&self) -> (r: String)
        ensures
            r@ == self.message_view(),
    {
        match self {
            KvsError::KeyNotFound => "Key not found".to_owned(),
            KvsError::StringError(msg) => msg.clone(),
        }
    }
}

} // verus!
