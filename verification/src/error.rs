//! The kinds of failure that the store reports.

use vstd::prelude::*;

verus! {

/// Why an operation did not succeed.
#[derive(Clone, Copy, Debug, PartialEq, Eq, Structural)]
pub enum Error {
    /// The authorization header is absent or does not follow the grammar.
    MalformedAuth,
    /// The caller is unknown or the signature does not verify.
    AuthFailed,
    /// A user, bucket, object or blob is missing.
    NotFound,
    /// A user id or a bucket name is already taken.
    Conflict,
    /// The blob layer failed.
    Io,
    /// The record store failed.
    Backend,
}

impl Error {
    /// The HTTP status under which a failure is reported.
    pub open spec fn status(self) -> u16 {
        match self {
            Error::MalformedAuth => 400,
            Error::AuthFailed => 401,
            Error::NotFound => 404,
            Error::Conflict => 409,
            Error::Io => 500,
            Error::Backend => 500,
        }
    }

    /// The HTTP status under which this failure is reported.
    pub fn to_status(&self) -> (status: u16)
        ensures
            status == self.status(),
    {
        match self {
            Error::MalformedAuth => 400,
            Error::AuthFailed => 401,
            Error::NotFound => 404,
            Error::Conflict => 409,
            Error::Io => 500,
            Error::Backend => 500,
        }
    }
}

/// Why a step of the blob layer did not succeed.
#[derive(Clone, Copy, Debug, PartialEq, Eq, Structural)]
pub enum BlobError {
    /// The file or directory is absent.
    NotFound,
    /// Any other failure of the file system.
    Io,
}

impl BlobError {
    /// The kind under which the store reports a blob failure.
    pub open spec fn kind(self) -> Error {
        match self {
            BlobError::NotFound => Error::NotFound,
            BlobError::Io => Error::Io,
        }
    }

    /// The kind under which the store reports this failure.
    pub fn to_error(&self) -> (error: Error)
        ensures
            error == self.kind(),
    {
        match self {
            BlobError::NotFound => Error::NotFound,
            BlobError::Io => Error::Io,
        }
    }
}

} // verus!
