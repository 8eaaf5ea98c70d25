use vstd::prelude::*;

verus! {

/// The content digest of a byte sequence, as the lowercase hexadecimal text
/// that keys the object store. The digest is a function of the bytes alone;
/// it is the store's sole deduplication key, and the possibility of two
/// distinct contents colliding under one digest is an accepted limitation of
/// a non-cryptographic digest.
pub uninterp spec fn digest_of(bytes: Seq<u8>) -> Seq<char>;

/// Relies on md5::compute together with the md5 crate's LowerHex rendering of
/// a digest: the result depends on the input bytes alone and is written as 32
/// lowercase hexadecimal characters, two per digest byte.
#[verifier::external_body]
pub(crate) fn digest_bytes(bytes: &[u8]) -> (r: String)
    ensures
        r@ == digest_of(bytes@),
        r@.len() == 32,
{
    format!("{:x}", md5::compute(bytes))
}

} // verus!
