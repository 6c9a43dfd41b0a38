use vstd::prelude::*;

verus! {

/// Order identifiers are `uuid::Uuid` values; the engine only copies and
/// compares them, so the type is carried through as an opaque value.
#[verifier::external_type_specification]
#[verifier::external_body]
pub struct ExUuid(uuid::Uuid);

} // verus!
