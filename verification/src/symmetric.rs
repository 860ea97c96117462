//! Symmetric primitives consumed as black boxes: the extendable-output
//! function driving matrix expansion, the pseudorandom function driving
//! noise sampling, the seed-derivation hash, and the entropy source.
//!
//! Each deterministic primitive's output is given a name (an uninterpreted
//! spec function of the absorbed inputs alone); the rest of the library is
//! verified against those names.

use vstd::prelude::*;
use sha3::digest::{ExtendableOutput, Update, XofReader};
use sha3::Digest;
use crate::params::KYBER_SYMBYTES;

verus! {

/// Byte `i` of the extendable output stream absorbed from
/// `seed` and the coordinate pair `(x, y)`.
pub uninterp spec fn xof_byte(seed: Seq<u8>, x: u8, y: u8, i: int) -> u8;

/// Byte `i` of the pseudorandom stream derived from `seed` and `nonce`.
pub uninterp spec fn prf_byte(seed: Seq<u8>, nonce: u8, i: int) -> u8;

/// Byte `i` of the fixed-length seed-derivation digest of `input`.
pub uninterp spec fn g_byte(input: Seq<u8>, i: int) -> u8;

/// Relies on sha3's SHAKE-128 (`Shake128::default`, `update`,
/// `finalize_xof`, `XofReader::read`): the squeezed stream is an
/// extendable output determined by the absorbed bytes alone, so the
/// first `nbytes` bytes after absorbing `seed || x || y` are a function
/// of `seed`, `x`, `y` and nothing else.
#[verifier::external_body]
pub(crate) fn xof_squeeze(seed: &[u8], x: u8, y: u8, nbytes: usize) -> (r: Vec<u8>)
    ensures
        r@.len() == nbytes,
        forall|i: int| 0 <= i < nbytes ==> r@[i] == xof_byte(seed@, x, y, i),
{
    let mut st = sha3::Shake128::default();
    st.update(seed);
    st.update(&[x, y]);
    let mut rd = st.finalize_xof();
    let mut out = vec![0u8; nbytes];
    rd.read(&mut out);
    out
}

/// Relies on sha3's SHAKE-256 (`Shake256::default`, `update`,
/// `finalize_xof`, `XofReader::read`): the stream squeezed after
/// absorbing `seed || nonce` is a function of `seed` and `nonce` alone.
#[verifier::external_body]
pub(crate) fn prf(seed: &[u8], nonce: u8, nbytes: usize) -> (r: Vec<u8>)
    ensures
        r@.len() == nbytes,
        forall|i: int| 0 <= i < nbytes ==> r@[i] == prf_byte(seed@, nonce, i),
{
    let mut st = sha3::Shake256::default();
    st.update(seed);
    st.update(&[nonce]);
    let mut rd = st.finalize_xof();
    let mut out = vec![0u8; nbytes];
    rd.read(&mut out);
    out
}

/// Relies on sha3's SHA3-512 (`Sha3_512::digest`): a deterministic
/// 64-byte digest of the input.
#[verifier::external_body]
pub(crate) fn hash_g(input: &[u8]) -> (r: Vec<u8>)
    ensures
        r@.len() == 2 * KYBER_SYMBYTES,
        forall|i: int| 0 <= i < 2 * KYBER_SYMBYTES ==> r@[i] == g_byte(input@, i),
{
    sha3::Sha3_512::digest(input).to_vec()
}

/// Relies on rand's `random` over a 32-byte array: fresh unpredictable
/// bytes; nothing is assumed of the value, only of its length.
#[verifier::external_body]
pub(crate) fn randombytes() -> (r: Vec<u8>)
    ensures
        r@.len() == KYBER_SYMBYTES,
{
    rand::random::<[u8; 32]>().to_vec()
}

} // verus!
