use vstd::prelude::*;

verus! {

/// Relies on rand::random: one byte from the thread-local generator.
/// Nothing is assumed of its value; every caller must be correct for every
/// byte that could come back.
#[verifier::external_body]
pub(crate) fn random_byte() -> u8 {
    rand::random::<u8>()
}

} // verus!
