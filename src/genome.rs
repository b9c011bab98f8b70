//! Genomes: generation from entropy and combination of two parents.

use vstd::bytes::{spec_u32_to_le_bytes, spec_u64_to_le_bytes, u32_to_le_bytes, u64_to_le_bytes};
use vstd::prelude::*;

verus! {

/// One byte of a child: the bits set in `mask` come from `a`, the others from `b`.
pub open spec fn mix_byte(a: u8, b: u8, mask: u8) -> u8 {
    (a & mask) | (b & !mask)
}

/// The genome that `a` and `b` give under `mask`, byte by byte.
pub open spec fn combined(a: Seq<u8>, b: Seq<u8>, mask: Seq<u8>) -> Seq<u8> {
    Seq::new(16, |i: int| mix_byte(a[i], b[i], mask[i]))
}

/// Combines two parent genomes under a selection mask.
pub fn combine(a: &[u8; 16], b: &[u8; 16], mask: &[u8; 16]) -> (r: [u8; 16])
    ensures
        r@ == combined(a@, b@, mask@),
{
    let mut out: [u8; 16] = [0u8; 16];
    let mut i: usize = 0;
    while i < 16
        invariant
            i <= 16,
            out@.len() == 16,
            forall|j: int| 0 <= j < i ==> out@[j] == mix_byte(a@[j], b@[j], mask@[j]),
        decreases 16 - i,
    {
        let byte: u8 = (a[i] & mask[i]) | (b[i] & !mask[i]);
        out[i] = byte;
        i += 1;
    }
    assert(out@ =~= combined(a@, b@, mask@));
    out
}

/// Each byte of a bred genome is the first parent's bits under the mask and
/// the second parent's elsewhere.
pub proof fn lemma_breeding_combination(a: [u8; 16], b: [u8; 16], mask: [u8; 16], i: int)
    requires
        0 <= i < 16,
    ensures
        combined(a@, b@, mask@).len() == 16,
        combined(a@, b@, mask@)[i] == (a@[i] & mask@[i]) | (b@[i] & !mask@[i]),
{
}

/// Combining is a function of its inputs: two results of `combine` on the
/// same parents and mask are the same genome.
pub proof fn lemma_combine_deterministic(a: [u8; 16], b: [u8; 16], mask: [u8; 16], r1: [u8; 16], r2: [u8; 16])
    requires
        r1@ == combined(a@, b@, mask@),
        r2@ == combined(a@, b@, mask@),
    ensures
        r1@ == r2@,
{
}

/// The SCALE encoding of an optional 32-bit integer.
pub open spec fn option_u32_encoding(v: Option<u32>) -> Seq<u8> {
    match v {
        None => seq![0u8],
        Some(x) => seq![1u8] + spec_u32_to_le_bytes(x),
    }
}

/// The bytes that are hashed to draw a genome: the SCALE encoding of the
/// tuple (entropy seed, account, extrinsic index).
pub open spec fn seed_payload(seed: Seq<u8>, who: u64, index: Option<u32>) -> Seq<u8> {
    seed + spec_u64_to_le_bytes(who) + option_u32_encoding(index)
}

/// Builds the encoded tuple (entropy seed, account, extrinsic index).
pub fn encode_payload(seed: &[u8; 32], who: u64, index: Option<u32>) -> (r: Vec<u8>)
    ensures
        r@ == seed_payload(seed@, who, index),
{
    let mut out: Vec<u8> = Vec::new();
    let mut i: usize = 0;
    while i < 32
        invariant
            i <= 32,
            seed@.len() == 32,
            out@ == seed@.subrange(0, i as int),
        decreases 32 - i,
    {
        out.push(seed[i]);
        i += 1;
        assert(out@ =~= seed@.subrange(0, i as int));
    }
    assert(seed@.subrange(0, 32) =~= seed@);
    let mut tail = u64_to_le_bytes(who);
    out.append(&mut tail);
    match index {
        None => {
            out.push(0u8);
        },
        Some(x) => {
            out.push(1u8);
            let mut bytes = u32_to_le_bytes(x);
            out.append(&mut bytes);
        },
    }
    proof {
        let s = seed_payload(seed@, who, index);
        assert(out@ =~= s);
    }
    out
}

/// The 128-bit Blake2 digest of `data`.
pub uninterp spec fn blake2_128_of(data: Seq<u8>) -> Seq<u8>;

/// Relies on sp_io::hashing::blake2_128: a 16-byte digest that depends on
/// the hashed bytes alone.
#[verifier::external_body]
fn blake2_128(data: &Vec<u8>) -> (r: [u8; 16])
    ensures
        r@ == blake2_128_of(data@),
{
    sp_io::hashing::blake2_128(data.as_slice())
}

/// Draws 16 pseudo-random bytes for `who` from the entropy seed and the
/// extrinsic index that the execution context supplies.
pub fn random_value(seed: &[u8; 32], who: u64, index: Option<u32>) -> (r: [u8; 16])
    ensures
        r@ == blake2_128_of(seed_payload(seed@, who, index)),
{
    let payload = encode_payload(seed, who, index);
    blake2_128(&payload)
}

} // verus!
