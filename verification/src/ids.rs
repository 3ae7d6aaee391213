//! Fresh identifiers for rooms, players and secrets.

use vstd::prelude::*;

verus! {

/// A fresh random identifier: `Uuid::new_v4` of the uuid crate, taken as the
/// 128-bit number that `Uuid::as_u128` gives. The value comes from the
/// system's random source, so nothing is claimed of it.
#[verifier::external_body]
pub(crate) fn fresh_id() -> (id: u128) {
    uuid::Uuid::new_v4().as_u128()
}

} // verus!
