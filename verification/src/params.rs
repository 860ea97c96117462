//! Compile-time parameters of the scheme: ring dimension, modulus, module
//! rank, and the byte sizes derived from them.

use vstd::prelude::*;

verus! {

/// Module rank: number of polynomials in a vector.
pub const KYBER_K: usize = 3;

/// Ring dimension: number of coefficients per polynomial.
pub const KYBER_N: usize = 256;

/// Prime coefficient modulus.
pub const KYBER_Q: u16 = 3329;

/// Length in bytes of seeds, hashes inputs and message payloads.
pub const KYBER_SYMBYTES: usize = 32;

/// Message length in bytes: one payload bit per polynomial coefficient.
pub const KYBER_INDCPA_MSGBYTES: usize = KYBER_N / 8;

/// Bytes of the exact codec for one polynomial: 12 bits per coefficient.
pub const KYBER_POLYBYTES: usize = 384;

/// Bytes of the exact codec for a polynomial vector.
pub const KYBER_POLYVECBYTES: usize = KYBER_K * KYBER_POLYBYTES;

/// Bytes of the lossy codec for one polynomial: 4 bits per coefficient.
pub const KYBER_POLYCOMPRESSEDBYTES: usize = KYBER_N / 2;

/// Bytes of the lossy codec for one polynomial inside a vector: 10 bits
/// per coefficient.
pub const KYBER_POLYCOMPRESSED10BYTES: usize = 320;

/// Bytes of the lossy codec for a polynomial vector: 10 bits per coefficient.
pub const KYBER_POLYVECCOMPRESSEDBYTES: usize = KYBER_K * KYBER_POLYCOMPRESSED10BYTES;

/// Serialized public key: exact vector codec output followed by the seed.
pub const KYBER_INDCPA_PUBLICKEYBYTES: usize = KYBER_POLYVECBYTES + KYBER_SYMBYTES;

/// Serialized secret key: exact vector codec output alone.
pub const KYBER_INDCPA_SECRETKEYBYTES: usize = KYBER_POLYVECBYTES;

/// Serialized ciphertext: compressed vector followed by compressed polynomial.
pub const KYBER_INDCPA_BYTES: usize = KYBER_POLYVECCOMPRESSEDBYTES + KYBER_POLYCOMPRESSEDBYTES;

/// Bytes one extendable-output-function squeeze block yields.
pub const XOF_BLOCKBYTES: usize = 168;

/// Squeeze blocks requested up front by matrix expansion, sized so the
/// expected number of accepted samples already reaches `KYBER_N`.
pub const GEN_MATRIX_NBLOCKS: usize = (530 + XOF_BLOCKBYTES) / XOF_BLOCKBYTES;

/// Raw 16-bit values below this bound are accepted by rejection sampling:
/// the largest multiple of the modulus that fits in 16 bits.
pub const REJ_BOUND: u16 = 19 * KYBER_Q;

/// Hard ceiling on the bytes squeezed for one matrix entry: 64 blocks.
/// The expected demand is under three blocks, so the ceiling is never
/// approached in practice; it only bounds the expansion loop.
pub const GEN_MATRIX_CAP_BYTES: usize = 10752;

} // verus!
