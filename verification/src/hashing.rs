//! Content fingerprinting for duplicate detection: bytes are streamed in
//! fixed-size chunks through a BLAKE3 hasher and finalized to a hex digest.
//!
//! The digest is a function of the byte content alone, so byte-identical
//! content always fingerprints to the same digest, whatever the chunking.

use vstd::prelude::*;
use vstd::slice::slice_subrange;

verus! {

#[verifier::external_type_specification]
#[verifier::external_body]
pub struct ExHasher(blake3::Hasher);

/// The bytes a hasher has been fed so far, oldest first.
pub uninterp spec fn hasher_fed(h: blake3::Hasher) -> Seq<u8>;

/// The lowercase hex digest BLAKE3 assigns to a byte sequence; a function of
/// the bytes alone.
pub uninterp spec fn blake3_hex(bytes: Seq<u8>) -> Seq<char>;

/// Relies on `blake3::Hasher::new`: a fresh hasher has been fed nothing.
#[verifier::external_body]
fn hasher_new() -> (h: blake3::Hasher)
    ensures
        hasher_fed(h) == Seq::<u8>::empty(),
{
    blake3::Hasher::new()
}

/// Relies on `blake3::Hasher::update`: appends the input to the fed stream.
#[verifier::external_body]
fn hasher_update(h: &mut blake3::Hasher, data: &[u8])
    ensures
        hasher_fed(*final(h)) == hasher_fed(*old(h)) + data@,
{
    h.update(data);
}

/// Relies on `blake3::Hasher::finalize` and `blake3::Hash::to_hex`: 64
/// lowercase hex characters determined by the fed bytes alone.
#[verifier::external_body]
fn hasher_finalize_hex(h: &blake3::Hasher) -> (r: String)
    ensures
        r@ == blake3_hex(hasher_fed(*h)),
        r@.len() == 64,
{
    h.finalize().to_hex().as_str().to_string()
}

/// Hashing is content-addressed and deterministic: the digest is a function
/// of the byte content alone, so byte-identical content always fingerprints
/// to the same digest, on any chunking and in any call.
pub proof fn lemma_hash_content_addressed(a: Seq<u8>, b: Seq<u8>)
    requires
        a == b,
    ensures
        blake3_hex(a) == blake3_hex(b),
{
}

/// The read chunk size used when streaming content into the hasher.
pub const HASH_CHUNK_SIZE: usize = 8192;

/// The content fingerprint of `data`: its BLAKE3 digest in lowercase hex,
/// computed incrementally over fixed-size chunks.
pub fn calculate_hash(data: &[u8]) -> (r: String)
    ensures
        r@ == blake3_hex(data@),
        r@.len() == 64,
{
    let mut hasher = hasher_new();
    let n = data.len();
    let mut i: usize = 0;
    proof {
        assert(hasher_fed(hasher) =~= data@.take(0));
    }
    while i < n
        invariant
            n == data@.len(),
            i <= n,
            hasher_fed(hasher) == data@.take(i as int),
        decreases n - i,
    {
        let end = if n - i < HASH_CHUNK_SIZE {
            n
        } else {
            i + HASH_CHUNK_SIZE
        };
        let chunk = slice_subrange(data, i, end);
        hasher_update(&mut hasher, chunk);
        proof {
            assert(data@.take(i as int) + data@.subrange(i as int, end as int) =~= data@.take(
                end as int,
            ));
        }
        i = end;
    }
    proof {
        assert(data@.take(n as int) =~= data@);
    }
    hasher_finalize_hex(&hasher)
}

} // verus!
