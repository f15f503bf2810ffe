//! SHA-256 through the `sha2` crate.
//!
//! Nothing in this module is proved. It states what the rest of the crate
//! takes on trust of the hash implementation: that a running computation
//! remembers, in effect, the bytes it was fed, and that its result is the
//! SHA-256 digest of those bytes.

use sha2::Digest;
use sha2::Sha256;
use vstd::prelude::*;

verus! {

/// The SHA-256 digest of a message: what `sha2::Sha256` returns for it. The
/// digest depends on the bytes of the message alone and is 32 bytes long.
pub uninterp spec fn sha256(message: Seq<u8>) -> [u8; 32];

/// A running SHA-256 computation, `sha2::Sha256`. The type is held behind a
/// private field because its definition is generic over traits of the
/// `digest` crate.
#[verifier::external_body]
pub struct Sha256State {
    inner: Sha256,
}

/// The bytes that a running computation has been fed since it was created,
/// in the order in which they were fed.
pub uninterp spec fn absorbed(state: Sha256State) -> Seq<u8>;

/// `Sha256::new`: a new computation has been fed nothing.
#[verifier::external_body]
pub(crate) fn sha256_new() -> (state: Sha256State)
    ensures
        absorbed(state) == Seq::<u8>::empty(),
{
    Sha256State { inner: Sha256::new() }
}

/// `Digest::update` of `Sha256`: the data is added at the end of what the
/// computation was fed before. How the bytes are spread over calls makes no
/// difference.
#[verifier::external_body]
pub(crate) fn sha256_update(state: &mut Sha256State, data: &[u8])
    ensures
        absorbed(*final(state)) == absorbed(*old(state)) + data@,
{
    state.inner.update(data)
}

/// `Digest::finalize` of `Sha256`: the result is the SHA-256 digest of all
/// that the computation was fed.
#[verifier::external_body]
pub(crate) fn sha256_finalize(state: Sha256State) -> (digest: [u8; 32])
    ensures
        digest == sha256(absorbed(state)),
{
    state.inner.finalize().into()
}

} // verus!
