//! What can go wrong when a token is issued, verified or used to reach a
//! resource.
use vstd::prelude::*;

verus! {

#[derive(Clone, Copy, Debug, PartialEq, Eq, Structural)]
pub enum AuthError {
    /// The request carried no credential.
    MissingCredential,
    /// The token is not three segments, or its payload is not claims.
    MalformedToken,
    /// The token's tag is not the one its secret gives.
    InvalidSignature,
    /// The token is genuine but its expiry has passed.
    Expired,
    /// A secret is missing or the clock cannot be read.
    ConfigurationError,
    /// The resource whose owner was asked for does not exist.
    ResourceNotFound,
    /// The store that records owners could not be reached.
    PersistenceError,
}

pub open spec fn status_of(e: AuthError) -> u16 {
    match e {
        AuthError::MissingCredential => 401,
        AuthError::MalformedToken => 401,
        AuthError::InvalidSignature => 401,
        AuthError::Expired => 401,
        AuthError::ConfigurationError => 500,
        AuthError::ResourceNotFound => 404,
        AuthError::PersistenceError => 500,
    }
}

impl AuthError {
    /// The HTTP status that the surrounding layer answers with.
    pub fn status_code(&self) -> (r: u16)
        ensures
            r == status_of(*self),
    {
        match self {
            AuthError::MissingCredential => 401,
            AuthError::MalformedToken => 401,
            AuthError::InvalidSignature => 401,
            AuthError::Expired => 401,
            AuthError::ConfigurationError => 500,
            AuthError::ResourceNotFound => 404,
            AuthError::PersistenceError => 500,
        }
    }
}

} // verus!
