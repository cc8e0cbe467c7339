use vstd::prelude::*;

use crate::types::{Dna, ExecutionContext};

verus! {

/// The four little-endian bytes of `x`.
pub open spec fn le_bytes_u32(x: u32) -> Seq<u8> {
    seq![
        (x % 256) as u8,
        ((x / 256) % 256) as u8,
        ((x / 65536) % 256) as u8,
        ((x / 16777216) % 256) as u8,
    ]
}

/// An optional number as a presence byte (0 or 1) followed by its bytes.
pub open spec fn option_bytes_u32(x: Option<u32>) -> Seq<u8> {
    match x {
        None => seq![0u8],
        Some(v) => seq![1u8] + le_bytes_u32(v),
    }
}

/// The bytes hashed into a new identifier: the parent hash, the block number,
/// the call's index within the block and the number of kitties so far, each in
/// fixed-width little-endian form, concatenated.
pub open spec fn dna_payload(ctx: ExecutionContext, count: u32) -> Seq<u8> {
    ctx.parent_hash@ + le_bytes_u32(ctx.block_number) + option_bytes_u32(ctx.extrinsic_index)
        + le_bytes_u32(count)
}

/// The 256-bit BLAKE2b digest of a byte string.
pub uninterp spec fn blake2_256_of(data: Seq<u8>) -> Seq<u8>;

/// Relies on sp_crypto_hashing::blake2_256: the 32-byte BLAKE2b digest of the
/// bytes, which depends on the bytes alone.
#[verifier::external_body]
fn blake2_256(data: &Vec<u8>) -> (r: [u8; 32])
    ensures
        r@ == blake2_256_of(data@),
{
    sp_crypto_hashing::blake2_256(data.as_slice())
}

fn push_le_u32(out: &mut Vec<u8>, x: u32)
    ensures
        final(out)@ == old(out)@ + le_bytes_u32(x),
{
    out.push((x % 256) as u8);
    out.push(((x / 256) % 256) as u8);
    out.push(((x / 65536) % 256) as u8);
    out.push(((x / 16777216) % 256) as u8);
    assert(final(out)@ =~= old(out)@ + le_bytes_u32(x));
}

/// The bytes from which `derive_dna` derives an identifier.
pub fn encode_dna_payload(ctx: &ExecutionContext, count: u32) -> (r: Vec<u8>)
    ensures
        r@ == dna_payload(*ctx, count),
{
    let mut out: Vec<u8> = Vec::new();
    let mut i: usize = 0;
    while i < 32
        invariant
            0 <= i <= 32,
            out@ =~= ctx.parent_hash@.subrange(0, i as int),
        decreases 32 - i,
    {
        out.push(ctx.parent_hash[i]);
        i += 1;
    }
    assert(ctx.parent_hash@.subrange(0, 32) =~= ctx.parent_hash@);
    push_le_u32(&mut out, ctx.block_number);
    match ctx.extrinsic_index {
        None => {
            out.push(0u8);
        },
        Some(v) => {
            out.push(1u8);
            push_le_u32(&mut out, v);
        },
    }
    push_le_u32(&mut out, count);
    assert(out@ =~= dna_payload(*ctx, count));
    out
}

/// Derives an identifier from the execution context and the number of kitties
/// minted so far. Distinct inputs make a collision unlikely, not impossible:
/// minting still refuses an identifier that is already taken.
pub fn derive_dna(ctx: &ExecutionContext, count: u32) -> (r: Dna)
    ensures
        r@ == blake2_256_of(dna_payload(*ctx, count)),
{
    let payload = encode_dna_payload(ctx, count);
    blake2_256(&payload)
}

} // verus!
