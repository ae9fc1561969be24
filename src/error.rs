use vstd::prelude::*;

verus! {

/// The store engine's error type, carried through unchanged.
#[verifier::external_type_specification]
#[verifier::external_body]
pub struct ExHeedError(heed::Error);

/// Error type for scoped store operations.
#[derive(Debug)]
pub enum ScopedDbError {
    /// An error of the store engine.
    Heed(heed::Error),
    /// An empty string was used as a scope name.
    EmptyScopeDisallowed,
    /// An input was rejected (a missing container name, or an id collision).
    InvalidInput(String),
    /// A composite key could not be decoded.
    Encoding(String),
}

impl From<heed::Error> for ScopedDbError {
    fn from(error: heed::Error) -> ScopedDbError {
        ScopedDbError::Heed(error)
    }
}

impl vstd::std_specs::convert::FromSpecImpl<heed::Error> for ScopedDbError {
    open spec fn obeys_from_spec() -> bool {
        true
    }

    open spec fn from_spec(v: heed::Error) -> ScopedDbError {
        ScopedDbError::Heed(v)
    }
}

} // verus!
