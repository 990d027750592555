//! Errors of the protocol and of the registry.
use vstd::prelude::*;

verus! {

/// What can go wrong while serving a connection.
#[derive(Debug)]
pub enum QuipError {
    /// The peer closed the connection or asked to leave.
    Disconnect,
    /// A line or a token could not be read as a frame.
    Parse(String),
    /// A password did not match, or a verb is not allowed in this phase.
    Unauthorized(String),
    /// The name is already held by a live session.
    Duplicate(String),
    /// No such user.
    NotFound(String),
    /// Anything else.
    Unknown(String),
}

pub type QuipResult<T> = Result<T, QuipError>;

} // verus!
