use vstd::prelude::*;

verus! {

/// Every failure that the library reports.
#[derive(Clone, Copy, Debug, PartialEq, Eq, Structural)]
pub enum Error {
    /// A data operation was attempted before a credential was obtained.
    NotAuthenticated,
    /// The login endpoint answered with a non-success status.
    AuthenticationFailed(u16),
    /// The store answered with a status that the operation does not tolerate.
    ApiError(u16),
    /// A project slug or a time-entry timestamp is absent.
    NotFound,
    /// A project with the same slug already exists.
    DuplicateSlug,
    /// A value did not have the shape that was required.
    DeserializationError,
    /// The request never got an answer (connection, protocol or timeout).
    Transport,
}

impl Error {
    /// A human-readable description of the failure.
    pub fn message(&self) -> (r: String) {
        match self {
            Error::NotAuthenticated => String::from_str("not authenticated"),
            Error::AuthenticationFailed(_) => String::from_str("authentication failed"),
            Error::ApiError(_) => String::from_str("the store rejected the request"),
            Error::NotFound => String::from_str("not found"),
            Error::DuplicateSlug => String::from_str("a project with this slug already exists"),
            Error::DeserializationError => String::from_str("malformed value"),
            Error::Transport => String::from_str("the request did not complete"),
        }
    }

    /// The HTTP status that came with the failure, where there was one.
    pub fn status(&self) -> (r: Option<u16>)
        ensures
            r == match self {
                Error::AuthenticationFailed(s) => Some(*s),
                Error::ApiError(s) => Some(*s),
                _ => None::<u16>,
            },
    {
        match self {
            Error::AuthenticationFailed(s) => Some(*s),
            Error::ApiError(s) => Some(*s),
            _ => None,
        }
    }
}

} // verus!
