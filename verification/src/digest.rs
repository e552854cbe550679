//! The MD5 digest.

use vstd::prelude::*;

verus! {

/// The MD5 digest of a run of octets, as [`md5::compute`] gives it.
pub uninterp spec fn md5_digest(input: Seq<u8>) -> Seq<u8>;

/// Calls [`md5::compute`]: the sixteen octets of the digest are a function of
/// the input, named [`md5_digest`].
#[verifier::external_body]
pub(crate) fn compute_md5(input: &[u8]) -> (r: [u8; 16])
    ensures
        r@ == md5_digest(input@),
{
    md5::compute(input).0
}

} // verus!
