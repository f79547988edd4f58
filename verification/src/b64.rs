//! Trusted edge to the base64 crate, which encodes response bytes for
//! the output records.

use vstd::prelude::*;

verus! {

/// The standard base64 encoding (with padding) of `bytes`.
pub uninterp spec fn base64_of(bytes: Seq<u8>) -> Seq<char>;

/// Relies on base64::encode: the standard alphabet with `=` padding,
/// a function of the input bytes alone, four output characters per
/// started three-byte group.
#[verifier::external_body]
pub fn base64_encode(bytes: &[u8]) -> (r: String)
    ensures
        r@ == base64_of(bytes@),
        r@.len() == 4 * ((bytes@.len() + 2) / 3),
{
    base64::encode(bytes)
}

} // verus!
