//! Verified core of a roster-management CSV ingestion pipeline: a validator
//! that checks an uploaded file for structural and semantic correctness, a
//! transformer that turns raw rows into typed account-creation requests, and
//! a reconciler that applies them to an account store under an
//! "activate what is present, deactivate the rest" policy.
pub mod chars;
pub mod import;
pub mod store;
pub mod transform;
pub mod validation;

use vstd::prelude::*;

verus! {

/// The semester reference an import run stamps on every touched account is a
/// UUID of the `uuid` crate; the library carries such values opaquely.
#[verifier::external_type_specification]
#[verifier::external_body]
pub struct ExUuid(uuid::Uuid);

/// Locates the roster database for the surrounding shell; the verified
/// components themselves never open it.
pub struct DatabaseAccessor {
    pub db_path: String,
}

impl DatabaseAccessor {
    pub fn new(db_path: String) -> (r: Self)
        ensures
            r.db_path@ == db_path@,
    {
        DatabaseAccessor { db_path }
    }
}

} // verus!
