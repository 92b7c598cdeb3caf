//! Content addressing. Every persisted record is hashed by BLAKE2b-256 over
//! its canonical encoding; the digest is framed either as a multihash or as a
//! version-1 content id with the canonical-tuple codec tag.
use vstd::prelude::*;

verus! {

/// The 32-byte BLAKE2b-256 digest of a byte string, a function of the bytes
/// alone.
pub uninterp spec fn blake2b256_of(b: Seq<u8>) -> Seq<u8>;

/// Relies on `blake2b_simd::Params::hash` with `hash_length(32)`: the
/// 32-byte BLAKE2b-256 digest of the input, depending on the input alone.
#[verifier::external_body]
fn blake2b256(input: &[u8]) -> (r: Vec<u8>)
    ensures
        r@ == blake2b256_of(input@),
        r@.len() == 32,
{
    let mut params = blake2b_simd::Params::new();
    params.hash_length(32);
    params.hash(input).as_bytes().to_vec()
}

/// A BLAKE2b-256 digest framed as a multihash: the code bytes of the hash
/// function, the digest length, then the digest.
pub open spec fn spec_multihash(digest: Seq<u8>) -> Seq<u8> {
    seq![0xa0u8, 0xe4u8, 0x02u8, 0x20u8] + digest
}

/// The multihash of a byte string under BLAKE2b-256.
pub open spec fn multihash_of(b: Seq<u8>) -> Seq<u8> {
    spec_multihash(blake2b256_of(b))
}

/// A version-1 content id over a multihash: the version byte, a codec tag,
/// then the multihash. The tag byte is the one the chain uses for its
/// canonical tuple records; the payload hashed here is this crate's own
/// canonical tuple encoding, which models that wire format rather than
/// reproducing it byte for byte.
pub open spec fn spec_cid_v1(digest: Seq<u8>) -> Seq<u8> {
    seq![0x01u8, 0x71u8] + spec_multihash(digest)
}

/// The content id bytes of a byte string.
pub open spec fn cid_of(b: Seq<u8>) -> Seq<u8> {
    spec_cid_v1(blake2b256_of(b))
}

/// The multihash bytes of `b`: hash code, digest length, digest.
pub fn multihash_bytes(b: &Vec<u8>) -> (r: Vec<u8>)
    ensures
        r@ == multihash_of(b@),
{
    let mut out: Vec<u8> = Vec::new();
    out.push(0xa0u8);
    out.push(0xe4u8);
    out.push(0x02u8);
    out.push(0x20u8);
    let mut digest = blake2b256(b.as_slice());
    out.append(&mut digest);
    proof {
        assert(out@ =~= multihash_of(b@));
    }
    out
}

/// The version-1 content id bytes of `b`.
pub fn cid_bytes(b: &Vec<u8>) -> (r: Vec<u8>)
    ensures
        r@ == cid_of(b@),
{
    let mut out: Vec<u8> = Vec::new();
    out.push(0x01u8);
    out.push(0x71u8);
    out.push(0xa0u8);
    out.push(0xe4u8);
    out.push(0x02u8);
    out.push(0x20u8);
    let mut digest = blake2b256(b.as_slice());
    out.append(&mut digest);
    proof {
        assert(out@ =~= cid_of(b@));
    }
    out
}

} // verus!
