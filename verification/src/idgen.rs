use vstd::prelude::*;

verus! {

/// Relies on uuid::Uuid::new_v4: a version-4 identifier drawn from the
/// process's random source, handed over as its 128-bit value. Nothing is
/// promised of the value — it is random.
#[verifier::external_body]
pub(crate) fn fresh_id() -> u128 {
    uuid::Uuid::new_v4().as_u128()
}

} // verus!
