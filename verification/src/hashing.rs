//! Content digests. The digest itself comes from an outside library; its
//! value is a function of the input bytes alone, named here and never
//! re-stated.

use vstd::prelude::*;

verus! {

/// The 256-bit digest of a byte string, as 64 lowercase hexadecimal bytes.
/// What the value is on given bytes is not stated; only that it depends on
/// the bytes alone.
pub uninterp spec fn blake3_hex(data: Seq<u8>) -> Seq<u8>;

/// Relies on blake3::hash and blake3::Hash::to_hex: a 256-bit digest of the
/// input bytes alone, rendered as two hexadecimal characters per digest
/// byte, 64 in all.
#[verifier::external_body]
pub(crate) fn blake3_hex_bytes(data: &Vec<u8>) -> (r: Vec<u8>)
    ensures
        r@ == blake3_hex(data@),
        r@.len() == 64,
{
    blake3::hash(data).to_hex().as_bytes().to_vec()
}

} // verus!
