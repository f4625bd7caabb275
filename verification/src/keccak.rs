use tiny_keccak::Hasher;
use vstd::prelude::*;

verus! {

/// The Keccak-256 digest of a byte string, as `tiny_keccak` computes it.
pub uninterp spec fn keccak256_spec(data: Seq<u8>) -> Seq<u8>;

/// Calls `tiny_keccak::Keccak::v256` (update, then finalize) on `input`.
/// Trusted: the 32-byte digest is the named function `keccak256_spec` of the
/// input bytes; nothing else is claimed of the hash.
#[verifier::external_body]
pub fn keccak256(input: &[u8]) -> (r: [u8; 32])
    ensures
        r@ == keccak256_spec(input@),
{
    let mut k = tiny_keccak::Keccak::v256();
    let mut output = [0u8; 32];
    k.update(input);
    k.finalize(&mut output);
    output
}

} // verus!
