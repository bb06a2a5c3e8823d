//! Content addressing: a deterministic digest of a normalized text payload.
//!
//! Two payloads with identical bytes always hash identically; the digest is
//! used as the key of the document's content dictionary. It is a ranking /
//! storage key, not a cryptographic hash.

use vstd::prelude::*;

verus! {

/// Key type of the content dictionary: a fixed-size deterministic digest.
pub type CodeHash = u64;

/// Modulus of the rolling digest; a prime below 2^32 so one update step
/// never overflows a `u64`.
pub const HASH_MODULUS: u64 = 0xFFFF_FFFB;

/// Seed of the rolling digest.
pub const HASH_SEED: u64 = 5381;

/// One update step of the rolling digest.
pub open spec fn hash_step(h: u64, b: u8) -> u64 {
    (((h as int) * 131 + (b as int)) % (HASH_MODULUS as int)) as u64
}

/// Digest of a byte sequence, folded left to right.
pub open spec fn hash_seq(s: Seq<u8>) -> u64
    decreases s.len(),
{
    if s.len() == 0 {
        HASH_SEED
    } else {
        hash_step(hash_seq(s.drop_last()), s.last())
    }
}

/// Computes the content digest of a payload.
pub fn hash_payload(data: &Vec<u8>) -> (h: CodeHash)
    ensures
        h == hash_seq(data@),
{
    let mut h: u64 = HASH_SEED;
    let mut i: usize = 0;
    while i < data.len()
        invariant
            i <= data.len(),
            h == hash_seq(data@.take(i as int)),
            h < 0x1_0000_0000u64,
        decreases data.len() - i,
    {
        let t: u64 = h * 131 + (data[i] as u64);
        h = t % HASH_MODULUS;
        proof {
            assert(data@.take(i + 1).drop_last() =~= data@.take(i as int));
            assert(data@.take(i + 1).last() == data@[i as int]);
        }
        i = i + 1;
    }
    proof {
        assert(data@.take(data@.len() as int) =~= data@);
    }
    h
}

} // verus!
