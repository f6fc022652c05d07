//! The randomness payload of the kitty pallet: its SCALE encoding and its
//! Blake2 digest, both computed by the outside crates.
use parity_scale_codec::Encode;
use vstd::prelude::*;

verus! {

/// The `n` low bytes of `x`, least significant first.
pub open spec fn le_bytes(x: nat, n: nat) -> Seq<u8>
    decreases n,
{
    if n == 0 {
        Seq::empty()
    } else {
        seq![(x % 256) as u8] + le_bytes(x / 256, (n - 1) as nat)
    }
}

/// SCALE encoding of a `u64`: eight little-endian bytes.
pub open spec fn scale_u64(x: u64) -> Seq<u8> {
    le_bytes(x as nat, 8)
}

/// SCALE encoding of a `u32`: four little-endian bytes.
pub open spec fn scale_u32(x: u32) -> Seq<u8> {
    le_bytes(x as nat, 4)
}

/// SCALE encoding of an `Option<u32>`: a 0 byte, or a 1 byte and the value.
pub open spec fn scale_option_u32(x: Option<u32>) -> Seq<u8> {
    match x {
        None => seq![0u8],
        Some(v) => seq![1u8] + scale_u32(v),
    }
}

/// SCALE encoding of the tuple `(seed, sender, extrinsic_index)`: the 32 seed
/// bytes as they are, then the sender, then the index.
pub open spec fn random_payload(seed: Seq<u8>, sender: u64, extrinsic_index: Option<u32>) -> Seq<
    u8,
> {
    seed + scale_u64(sender) + scale_option_u32(extrinsic_index)
}

/// The 16 bytes that Blake2b with a 128-bit output gives for `data`.
pub uninterp spec fn blake2_128_digest(data: Seq<u8>) -> Seq<u8>;

/// Calls `Encode::encode` of parity-scale-codec on the tuple
/// `([u8; 32], &u64, Option<u32>)`. Claimed: the bytes are the concatenation of
/// the fields' encodings, where a byte array is its bytes, an integer its
/// little-endian bytes, and an option a 0 byte or a 1 byte before the value.
#[verifier::external_body]
pub(crate) fn encode_random_payload(seed: [u8; 32], sender: u64, extrinsic_index: Option<u32>) -> (r:
    Vec<u8>)
    ensures
        r@ == random_payload(seed@, sender, extrinsic_index),
{
    (seed, &sender, extrinsic_index).encode()
}

/// Calls `sp_io::hashing::blake2_128`. Claimed: the result is the digest named
/// `blake2_128_digest` of the bytes handed in (nothing is claimed of its value).
#[verifier::external_body]
pub(crate) fn blake2_128(data: &[u8]) -> (r: [u8; 16])
    ensures
        r@ == blake2_128_digest(data@),
{
    sp_io::hashing::blake2_128(data)
}

} // verus!
