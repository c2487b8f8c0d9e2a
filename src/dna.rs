//! Generation of new kitty ids from the execution context and the registry counter.

use vstd::prelude::*;
use crate::types::BlockContext;
use parity_scale_codec::Encode;

verus! {

/// The BLAKE2b-256 digest of a byte string.
pub uninterp spec fn blake2_256_of(data: Seq<u8>) -> [u8; 32];

/// The `width` low bytes of `n`, least significant first.
pub open spec fn le_bytes(n: nat, width: nat) -> Seq<u8>
    decreases width,
{
    if width == 0 {
        seq![]
    } else {
        seq![(n % 256) as u8] + le_bytes(n / 256, (width - 1) as nat)
    }
}

/// The SCALE encoding of an optional `u32`: a tag byte, then the value if there is one.
pub open spec fn option_u32_bytes(v: Option<u32>) -> Seq<u8> {
    match v {
        None => seq![0u8],
        Some(x) => seq![1u8] + le_bytes(x as nat, 4),
    }
}

/// The bytes that are hashed into a new id: the SCALE encoding of the tuple
/// (parent hash, block number, extrinsic index, registry count).
pub open spec fn dna_payload(ctx: BlockContext, count: u32) -> Seq<u8> {
    ctx.parent_hash@ + le_bytes(ctx.block_number as nat, 8) + option_u32_bytes(ctx.extrinsic_index)
        + le_bytes(count as nat, 4)
}

/// The id that the registry gives its next kitty in context `ctx` with counter `count`.
pub open spec fn dna_for(ctx: BlockContext, count: u32) -> [u8; 32] {
    blake2_256_of(dna_payload(ctx, count))
}

/// Relies on parity_scale_codec's `Encode::encode` for a 4-tuple: the fields'
/// encodings back to back; a byte array as its bytes, unsigned integers as
/// little-endian bytes of their width, an `Option` as a tag 0 or 1 followed by
/// the value.
#[verifier::external_body]
fn encode_payload(ctx: &BlockContext, count: u32) -> (r: Vec<u8>)
    ensures
        r@ == dna_payload(*ctx, count),
{
    (ctx.parent_hash, ctx.block_number, ctx.extrinsic_index, count).encode()
}

/// Relies on sp_io::hashing::blake2_256: the 32-byte BLAKE2b digest of the input,
/// which depends on the input bytes alone.
#[verifier::external_body]
fn blake2_256(data: &Vec<u8>) -> (r: [u8; 32])
    ensures
        r == blake2_256_of(data@),
{
    sp_io::hashing::blake2_256(data)
}

/// Hashes the context's entropy together with the registry counter into a new id.
pub fn dna_from(ctx: &BlockContext, count: u32) -> (r: [u8; 32])
    ensures
        r == dna_for(*ctx, count),
{
    let payload = encode_payload(ctx, count);
    blake2_256(&payload)
}

} // verus!
