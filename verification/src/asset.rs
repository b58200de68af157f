//! Identity of effect assets.
use bevy::asset::HandleId;
use vstd::prelude::*;

verus! {

/// Declares `bevy::asset::HandleId`, the identifier inside an asset handle. It is opaque here,
/// and only carried around and compared.
#[verifier::external_type_specification]
#[verifier::external_body]
pub struct ExHandleId(bevy::asset::HandleId);

/// Compares two asset identifiers with `<HandleId as PartialEq>::eq`. That comparison is derived,
/// over variants that only hold identifiers, so it says whether the two values are the same.
#[verifier::external_body]
pub(crate) fn same_asset(a: &HandleId, b: &HandleId) -> (same: bool)
    ensures
        same == (*a == *b),
{
    *a == *b
}

} // verus!
