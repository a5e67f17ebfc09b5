//! SHA-1, by which pieces and torrents are identified.
use sha1::{Digest, Sha1};
use vstd::prelude::*;

verus! {

/// The SHA-1 digest of a byte string.
pub uninterp spec fn sha1_digest(data: Seq<u8>) -> Seq<u8>;

/// `sha1::Sha1` over the whole of `data`: the digest is a function of the bytes alone,
/// here by the name [`sha1_digest`], and is twenty bytes long.
#[verifier::external_body]
pub(crate) fn sha1(data: &[u8]) -> (d: [u8; 20])
    ensures
        d@ == sha1_digest(data@),
{
    let mut h = Sha1::new();
    h.update(data);
    h.finalize().into()
}

} // verus!
