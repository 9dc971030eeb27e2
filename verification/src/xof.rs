//! The extendable-output function behind every derivation.

use sha3::digest::ExtendableOutput;
use sha3::Shake256;
use vstd::prelude::*;

verus! {

/// The first `len` bytes of the SHAKE256 output on `input`.
pub uninterp spec fn shake256_output(input: Seq<u8>, len: nat) -> Seq<u8>;

/// SHAKE256 of `input`, read to `L` bytes.
///
/// Not proved: the body is `sha3::Shake256::digest_xof`, which absorbs the
/// whole of `input` into a fresh sponge and fills the output buffer from it.
/// The contract only names that result, as a function of the input bytes and
/// of the length asked for.
#[verifier::external_body]
pub(crate) fn shake256<const L: usize>(input: &[u8]) -> (out: [u8; L])
    ensures
        out@ == shake256_output(input@, L as nat),
{
    let mut out = [0u8; L];
    Shake256::digest_xof(input, &mut out);
    out
}

/// SHAKE256 of a one-byte domain tag followed by `data`.
pub open spec fn tagged_hash(tag: u8, data: Seq<u8>, len: nat) -> Seq<u8> {
    shake256_output(seq![tag] + data, len)
}

/// Hashes `data` under the domain `tag` to `L` bytes.
pub fn hash_tagged<const L: usize>(tag: u8, data: &[u8]) -> (out: [u8; L])
    ensures
        out@ == tagged_hash(tag, data@, L as nat),
{
    let mut input: Vec<u8> = Vec::new();
    input.push(tag);
    input.extend_from_slice(data);
    assert(input@ =~= seq![tag] + data@);
    shake256(input.as_slice())
}

} // verus!
