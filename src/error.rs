//! The failures that the server reports to its peer as HTTP responses.

use vstd::prelude::*;
use vstd::string::*;

verus! {

/// A failure with a defined HTTP status mapping.
#[derive(Debug, Clone, Copy, PartialEq, Eq, Structural)]
pub enum ServerError {
    NotFound,
    NotImplemented,
}

/// The name by which an error describes itself.
pub open spec fn server_error_text(e: ServerError) -> Seq<char> {
    match e {
        ServerError::NotFound => "NotFound"@,
        ServerError::NotImplemented => "NotImplemented"@,
    }
}

impl ServerError {
    /// The error's description: the name of its variant.
    pub fn to_string(&self) -> (r: String)
        ensures
            r@ == server_error_text(*self),
    {
        match self {
            ServerError::NotFound => String::from_str("NotFound"),
            ServerError::NotImplemented => String::from_str("NotImplemented"),
        }
    }
}

} // verus!
