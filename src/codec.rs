use vstd::prelude::*;

verus! {

/// What base64's standard encoding, with `=` padding, gives for `b`.
pub uninterp spec fn base64_of(b: Seq<u8>) -> Seq<u8>;

/// Relies on base64::encode (standard alphabet, padded), which depends on
/// the input bytes alone. It panics where the encoded length overflows
/// `usize`, which the bound on the input rules out.
#[verifier::external_body]
pub(crate) fn encode_base64(b: &[u8]) -> (r: Vec<u8>)
    requires
        b@.len() <= usize::MAX / 2,
    ensures
        r@ == base64_of(b@),
{
    base64::encode(b).into_bytes()
}

} // verus!
