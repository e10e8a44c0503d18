//! The BLAKE3 hash state, as far as the library uses it.
//!
//! No contract in this file is proved: each says what the `blake3` crate
//! documents of the function that the body calls. The contracts hold of
//! the states that `hasher_new` makes; the library makes no other, and
//! hands none out.

use vstd::prelude::*;

verus! {

/// `blake3::Hasher`: a hash state that takes its input piece by piece.
#[verifier::external_type_specification]
#[verifier::external_body]
pub struct ExHasher(blake3::Hasher);

/// The bytes that a hash state has been given so far, in the order in
/// which it got them.
pub uninterp spec fn hasher_input(state: blake3::Hasher) -> Seq<u8>;

/// The BLAKE3 digest of a byte string, which has 32 bytes: what
/// `blake3::Hasher::finalize` returns for a state that has been given
/// exactly these bytes.
pub uninterp spec fn blake3_digest(input: Seq<u8>) -> [u8; 32];

/// `blake3::Hasher::new`: a state for the regular hash function that has
/// been given no input yet.
#[verifier::external_body]
pub(crate) fn hasher_new() -> (state: blake3::Hasher)
    ensures
        hasher_input(state) == Seq::<u8>::empty(),
{
    blake3::Hasher::new()
}

/// `blake3::Hasher::update`: appends `data` to the input of the state.
/// Only the input as a whole counts, not how it was cut into calls.
#[verifier::external_body]
pub(crate) fn hasher_update(state: &mut blake3::Hasher, data: &[u8])
    ensures
        hasher_input(*final(state)) == hasher_input(*old(state)) + data@,
{
    state.update(data);
}

/// `blake3::Hasher::finalize`: the 32-byte digest of the input given so
/// far. The state is left as it was.
#[verifier::external_body]
pub(crate) fn hasher_finalize(state: &blake3::Hasher) -> (digest: [u8; 32])
    ensures
        digest == blake3_digest(hasher_input(*state)),
{
    *state.finalize().as_bytes()
}

} // verus!
