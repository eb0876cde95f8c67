//! Whether an authenticated subject may change a resource: only its owner
//! may.
use crate::error::AuthError;
use vstd::prelude::*;

verus! {

/// What the resource store answered when asked for a resource's owner.
pub enum OwnerLookup {
    /// The subject recorded as the resource's creator.
    Found(String),
    /// No such resource.
    NotFound,
    /// The store could not be reached.
    Failed,
}

/// Decides whether `subject` owns the resource the lookup was made for. The
/// owner must equal the subject exactly; a missing resource and a failed
/// lookup are errors of their own, never a grant or a refusal.
pub fn authorize(subject: &str, lookup: &OwnerLookup) -> (r: Result<bool, AuthError>)
    ensures
        match lookup {
            OwnerLookup::Found(owner) => r == Ok::<bool, AuthError>(owner@ == subject@),
            OwnerLookup::NotFound => r == Err::<bool, AuthError>(AuthError::ResourceNotFound),
            OwnerLookup::Failed => r == Err::<bool, AuthError>(AuthError::PersistenceError),
        },
{
    match lookup {
        OwnerLookup::Found(owner) => Ok(*owner == subject.to_owned()),
        OwnerLookup::NotFound => Err(AuthError::ResourceNotFound),
        OwnerLookup::Failed => Err(AuthError::PersistenceError),
    }
}

} // verus!
