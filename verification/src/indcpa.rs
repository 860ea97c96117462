//! The IND-CPA-secure public-key encryption scheme: serialization of
//! keys and ciphertexts, and key-pair generation, encryption and
//! decryption built from matrix expansion, noise sampling and the
//! pointwise module arithmetic.

use vstd::prelude::*;
use crate::params::{KYBER_K, KYBER_N, KYBER_SYMBYTES, KYBER_POLYVECBYTES,
    KYBER_POLYVECCOMPRESSEDBYTES, KYBER_POLYCOMPRESSEDBYTES, KYBER_INDCPA_PUBLICKEYBYTES,
    KYBER_INDCPA_SECRETKEYBYTES, KYBER_INDCPA_BYTES, KYBER_INDCPA_MSGBYTES};
use crate::poly::{Poly, poly_wf, spec_poly_add, spec_poly_sub, spec_invntt,
    spec_frommsg, spec_tomsg, spec_cbd, prf_seq, spec_decompress4, spec_compress4,
    spec_decompress10, spec_compress10, spec_poly_compress, spec_poly_decompress, poly_frommsg,
    poly_tomsg, poly_add, poly_sub, poly_ntt, poly_invntt, poly_getnoise, poly_compress,
    poly_decompress, lemma_poly_compress_round_trip};
use crate::polyvec::{Polyvec, polyvec_wf, spec_polyvec_tobytes, spec_polyvec_frombytes,
    spec_polyvec_compress, spec_polyvec_decompress, spec_polyvec_ntt,
    spec_pointwise_acc, polyvec_tobytes, polyvec_frombytes, polyvec_compress, polyvec_decompress,
    polyvec_ntt, polyvec_invntt, polyvec_pointwise_acc, polyvec_add,
    spec_polyvec_tobytes_prefix, spec_polyvec_compress_prefix, lemma_polyvec_codec_round_trip,
    lemma_polyvec_compress_round_trip};
use crate::sampler::{spec_gen_matrix, mat_view, gen_a, gen_at};
use crate::symmetric::{g_byte, hash_g, randombytes};

verus! {

/// The serialized public key: the exact encoding of the vector followed
/// by the matrix seed.
pub open spec fn spec_pack_pk(v: Seq<Seq<u16>>, seed: Seq<u8>) -> Seq<u8> {
    spec_polyvec_tobytes(v) + seed
}

/// The parse of a serialized public key: defined exactly when the input
/// has the fixed public-key length.
pub open spec fn spec_unpack_pk(b: Seq<u8>) -> Option<(Seq<Seq<u16>>, Seq<u8>)> {
    if b.len() == KYBER_INDCPA_PUBLICKEYBYTES {
        Some(
            (
                spec_polyvec_frombytes(b.take(KYBER_POLYVECBYTES as int)),
                b.skip(KYBER_POLYVECBYTES as int),
            ),
        )
    } else {
        None
    }
}

/// Serializes a public key: the vector's exact encoding, then the seed.
pub fn pack_pk(pk: &Polyvec, seed: &[u8]) -> (r: Vec<u8>)
    requires
        polyvec_wf(pk@),
        seed@.len() == KYBER_SYMBYTES,
    ensures
        r@ == spec_pack_pk(pk@, seed@),
        r@.len() == KYBER_INDCPA_PUBLICKEYBYTES,
{
    let mut out = polyvec_tobytes(pk);
    let mut i: usize = 0;
    while i < KYBER_SYMBYTES
        invariant
            seed@.len() == KYBER_SYMBYTES,
            i <= KYBER_SYMBYTES,
            out@ == spec_polyvec_tobytes(pk@) + seed@.take(i as int),
        decreases KYBER_SYMBYTES - i,
    {
        out.push(seed[i]);
        proof {
            assert(out@ =~= spec_polyvec_tobytes(pk@) + seed@.take(i + 1));
        }
        i += 1;
    }
    proof {
        assert(out@ =~= spec_pack_pk(pk@, seed@));
    }
    out
}

/// Parses a serialized public key into the vector and the matrix seed.
/// An input of any other length than the fixed public-key length is
/// rejected before any arithmetic is attempted.
pub fn unpack_pk(packedpk: &[u8]) -> (r: Option<(Polyvec, Vec<u8>)>)
    ensures
        r.is_some() == (packedpk@.len() == KYBER_INDCPA_PUBLICKEYBYTES),
        r.is_some() ==> r.unwrap().0@ == spec_unpack_pk(packedpk@).unwrap().0 && r.unwrap().1@
            == spec_unpack_pk(packedpk@).unwrap().1 && polyvec_wf(r.unwrap().0@)
            && r.unwrap().1@.len() == KYBER_SYMBYTES,
{
    if packedpk.len() != KYBER_INDCPA_PUBLICKEYBYTES {
        return None;
    }
    let v = polyvec_frombytes(packedpk, 0);
    proof {
        assert(packedpk@.subrange(0, KYBER_POLYVECBYTES as int) =~= packedpk@.take(
            KYBER_POLYVECBYTES as int,
        ));
    }
    let mut seed: Vec<u8> = Vec::new();
    let mut i: usize = 0;
    while i < KYBER_SYMBYTES
        invariant
            packedpk@.len() == KYBER_INDCPA_PUBLICKEYBYTES,
            i <= KYBER_SYMBYTES,
            seed@.len() == i,
            forall|t: int| 0 <= t < i ==> seed@[t] == packedpk@[KYBER_POLYVECBYTES + t],
        decreases KYBER_SYMBYTES - i,
    {
        seed.push(packedpk[KYBER_POLYVECBYTES + i]);
        i += 1;
    }
    proof {
        assert(seed@ =~= packedpk@.skip(KYBER_POLYVECBYTES as int));
    }
    Some((v, seed))
}

/// Serializes a secret key: the vector's exact encoding alone.
pub fn pack_sk(sk: &Polyvec) -> (r: Vec<u8>)
    requires
        polyvec_wf(sk@),
    ensures
        r@ == spec_polyvec_tobytes(sk@),
        r@.len() == KYBER_INDCPA_SECRETKEYBYTES,
{
    polyvec_tobytes(sk)
}

/// Parses a serialized secret key.  An input of any other length than
/// the fixed secret-key length is rejected.
pub fn unpack_sk(packedsk: &[u8]) -> (r: Option<Polyvec>)
    ensures
        r.is_some() == (packedsk@.len() == KYBER_INDCPA_SECRETKEYBYTES),
        r.is_some() ==> r.unwrap()@ == spec_polyvec_frombytes(packedsk@) && polyvec_wf(
            r.unwrap()@,
        ),
{
    if packedsk.len() != KYBER_INDCPA_SECRETKEYBYTES {
        return None;
    }
    let v = polyvec_frombytes(packedsk, 0);
    proof {
        assert(packedsk@.subrange(0, KYBER_POLYVECBYTES as int) =~= packedsk@);
    }
    Some(v)
}

/// The serialized ciphertext: the lossy vector encoding followed by the
/// lossy polynomial encoding.
pub open spec fn spec_pack_ciphertext(b: Seq<Seq<u16>>, v: Seq<u16>) -> Seq<u8> {
    spec_polyvec_compress(b) + spec_poly_compress(v)
}

/// The parse of a serialized ciphertext: defined exactly when the input
/// has the fixed ciphertext length.
pub open spec fn spec_unpack_ciphertext(c: Seq<u8>) -> Option<(Seq<Seq<u16>>, Seq<u16>)> {
    if c.len() == KYBER_INDCPA_BYTES {
        Some(
            (
                spec_polyvec_decompress(c.take(KYBER_POLYVECCOMPRESSEDBYTES as int)),
                spec_poly_decompress(c.skip(KYBER_POLYVECCOMPRESSEDBYTES as int)),
            ),
        )
    } else {
        None
    }
}

/// Serializes a ciphertext: the compressed vector, then the compressed
/// polynomial.  The output length is always the fixed ciphertext length.
pub fn pack_ciphertext(b: &Polyvec, v: &Poly) -> (r: Vec<u8>)
    requires
        polyvec_wf(b@),
        poly_wf(v@),
    ensures
        r@ == spec_pack_ciphertext(b@, v@),
        r@.len() == KYBER_INDCPA_BYTES,
{
    let mut out = polyvec_compress(b);
    let mut tail = poly_compress(v);
    out.append(&mut tail);
    out
}

/// Parses a serialized ciphertext and reconstructs the quantized vector
/// and polynomial.  An input of any other length than the fixed
/// ciphertext length is rejected.
pub fn unpack_ciphertext(c: &[u8]) -> (r: Option<(Polyvec, Poly)>)
    ensures
        r.is_some() == (c@.len() == KYBER_INDCPA_BYTES),
        r.is_some() ==> r.unwrap().0@ == spec_unpack_ciphertext(c@).unwrap().0 && r.unwrap().1@
            == spec_unpack_ciphertext(c@).unwrap().1 && polyvec_wf(r.unwrap().0@) && poly_wf(
            r.unwrap().1@,
        ),
{
    if c.len() != KYBER_INDCPA_BYTES {
        return None;
    }
    let b = polyvec_decompress(c, 0);
    let v = poly_decompress(c, KYBER_POLYVECCOMPRESSEDBYTES);
    proof {
        assert(c@.subrange(0, KYBER_POLYVECCOMPRESSEDBYTES as int) =~= c@.take(
            KYBER_POLYVECCOMPRESSEDBYTES as int,
        ));
        assert(c@.subrange(
            KYBER_POLYVECCOMPRESSEDBYTES as int,
            KYBER_POLYVECCOMPRESSEDBYTES + KYBER_POLYCOMPRESSEDBYTES,
        ) =~= c@.skip(KYBER_POLYVECCOMPRESSEDBYTES as int));
    }
    Some((b, v))
}

/// The public-key serialization round-trips exactly: parsing the packed
/// form of any well-formed vector and seed returns that vector and seed.
pub proof fn lemma_pack_pk_round_trip(v: Seq<Seq<u16>>, seed: Seq<u8>)
    requires
        polyvec_wf(v),
        seed.len() == KYBER_SYMBYTES,
    ensures
        spec_unpack_pk(spec_pack_pk(v, seed)) == Some((v, seed)),
{
    let b = spec_pack_pk(v, seed);
    assert(spec_polyvec_tobytes(v).len() == KYBER_POLYVECBYTES) by {
        reveal_with_fuel(spec_polyvec_tobytes_prefix, 4);
    }
    assert(b.take(KYBER_POLYVECBYTES as int) =~= spec_polyvec_tobytes(v));
    assert(b.skip(KYBER_POLYVECBYTES as int) =~= seed);
    lemma_polyvec_codec_round_trip(v);
}

/// The secret-key serialization round-trips exactly.
pub proof fn lemma_pack_sk_round_trip(v: Seq<Seq<u16>>)
    requires
        polyvec_wf(v),
    ensures
        spec_polyvec_frombytes(spec_polyvec_tobytes(v)) == v,
{
    lemma_polyvec_codec_round_trip(v);
}

/// The ciphertext serialization round-trips up to quantization: parsing
/// the packed form returns exactly the quantized vector and polynomial,
/// so the only loss is the lossy codecs' quantization itself.
pub proof fn lemma_pack_ciphertext_round_trip(b: Seq<Seq<u16>>, v: Seq<u16>)
    requires
        polyvec_wf(b),
        poly_wf(v),
    ensures
        spec_unpack_ciphertext(spec_pack_ciphertext(b, v)) == Some(
            (
                Seq::new(
                    KYBER_K as nat,
                    |i: int| Seq::new(
                        KYBER_N as nat,
                        |j: int| spec_decompress10(spec_compress10(b[i][j])),
                    ),
                ),
                Seq::new(KYBER_N as nat, |j: int| spec_decompress4(spec_compress4(v[j]))),
            ),
        ),
{
    let c = spec_pack_ciphertext(b, v);
    assert(spec_polyvec_compress(b).len() == KYBER_POLYVECCOMPRESSEDBYTES) by {
        reveal_with_fuel(spec_polyvec_compress_prefix, 4);
    }
    assert(c.take(KYBER_POLYVECCOMPRESSEDBYTES as int) =~= spec_polyvec_compress(b));
    assert(c.skip(KYBER_POLYVECCOMPRESSEDBYTES as int) =~= spec_poly_compress(v));
    lemma_polyvec_compress_round_trip(b);
    lemma_poly_compress_round_trip(v);
}

/// The seed-derivation digest of the key-generation seed.
pub open spec fn g_seq(seed: Seq<u8>) -> Seq<u8> {
    Seq::new((2 * KYBER_SYMBYTES) as nat, |i: int| g_byte(seed, i))
}

/// The public (matrix) seed: the first half of the derivation digest.
pub open spec fn spec_pubseed(seed: Seq<u8>) -> Seq<u8> {
    g_seq(seed).take(KYBER_SYMBYTES as int)
}

/// The noise seed: the second half of the derivation digest.
pub open spec fn spec_noiseseed(seed: Seq<u8>) -> Seq<u8> {
    g_seq(seed).skip(KYBER_SYMBYTES as int)
}

/// A rank's worth of noise polynomials drawn from one seed, with the
/// nonce counter running from `base`: entry `j` uses nonce `base + j`.
pub open spec fn spec_noisevec(seed: Seq<u8>, base: int) -> Seq<Seq<u16>> {
    Seq::new(KYBER_K as nat, |j: int| spec_cbd(prf_seq(seed, (base + j) as u8)))
}

/// The secret vector of a key pair, in the evaluation domain: noise
/// drawn from the noise seed at nonces `0 .. KYBER_K`, transformed.
pub open spec fn spec_keypair_skvec(seed: Seq<u8>) -> Seq<Seq<u16>> {
    spec_polyvec_ntt(spec_noisevec(spec_noiseseed(seed), 0))
}

/// The public vector of a key pair: row `i` is the module-LWE sample
/// `A[i] . s + e[i]`, with the error vector drawn at the continued
/// nonces `KYBER_K .. 2 * KYBER_K`.
pub open spec fn spec_keypair_pkvec(seed: Seq<u8>) -> Seq<Seq<u16>> {
    let a = spec_gen_matrix(spec_pubseed(seed), false);
    let s_hat = spec_keypair_skvec(seed);
    let e_hat = spec_polyvec_ntt(spec_noisevec(spec_noiseseed(seed), KYBER_K as int));
    Seq::new(KYBER_K as nat, |i: int| spec_poly_add(spec_pointwise_acc(a[i], s_hat), e_hat[i]))
}

/// The serialized public key generated from a seed.
pub open spec fn spec_keypair_pk(seed: Seq<u8>) -> Seq<u8> {
    spec_pack_pk(spec_keypair_pkvec(seed), spec_pubseed(seed))
}

/// The serialized secret key generated from a seed.
pub open spec fn spec_keypair_sk(seed: Seq<u8>) -> Seq<u8> {
    spec_polyvec_tobytes(spec_keypair_skvec(seed))
}

/// The "b" vector of a ciphertext: row `i` is
/// `invntt(A^T[i] . r) + e1[i]`, with `r` drawn from the coins at
/// nonces `0 .. KYBER_K` and `e1` at the continued nonces.
pub open spec fn spec_enc_bvec(pk_seed: Seq<u8>, coins: Seq<u8>) -> Seq<Seq<u16>> {
    let at = spec_gen_matrix(pk_seed, true);
    let sp_hat = spec_polyvec_ntt(spec_noisevec(coins, 0));
    let e1 = spec_noisevec(coins, KYBER_K as int);
    Seq::new(
        KYBER_K as nat,
        |i: int| spec_poly_add(spec_invntt(spec_pointwise_acc(at[i], sp_hat)), e1[i]),
    )
}

/// The "v" polynomial of a ciphertext:
/// `invntt(pk . r) + e2 + encode(m)`, with `e2` drawn at nonce
/// `2 * KYBER_K`.
pub open spec fn spec_enc_v(m: Seq<u8>, pkvec: Seq<Seq<u16>>, coins: Seq<u8>) -> Seq<u16> {
    let sp_hat = spec_polyvec_ntt(spec_noisevec(coins, 0));
    let e2 = spec_cbd(prf_seq(coins, (2 * KYBER_K) as u8));
    spec_poly_add(
        spec_poly_add(spec_invntt(spec_pointwise_acc(pkvec, sp_hat)), e2),
        spec_frommsg(m),
    )
}

/// The ciphertext of a message under a public key and coins.
pub open spec fn spec_enc(m: Seq<u8>, pk: Seq<u8>, coins: Seq<u8>) -> Seq<u8> {
    let pkvec = spec_polyvec_frombytes(pk.take(KYBER_POLYVECBYTES as int));
    let seed = pk.skip(KYBER_POLYVECBYTES as int);
    spec_pack_ciphertext(spec_enc_bvec(seed, coins), spec_enc_v(m, pkvec, coins))
}

/// The message decrypted from a ciphertext under a secret key.
pub open spec fn spec_dec(c: Seq<u8>, sk: Seq<u8>) -> Seq<u8> {
    let b = spec_polyvec_decompress(c.take(KYBER_POLYVECCOMPRESSEDBYTES as int));
    let v = spec_poly_decompress(c.skip(KYBER_POLYVECCOMPRESSEDBYTES as int));
    let s = spec_polyvec_frombytes(sk);
    let mp = spec_invntt(spec_pointwise_acc(s, spec_polyvec_ntt(b)));
    spec_tomsg(spec_poly_sub(v, mp))
}

/// Draws a rank's worth of noise polynomials, one nonce per entry,
/// continuing the nonce counter from `base`.
fn getnoise_vec(seed: &[u8], base: u8) -> (r: Polyvec)
    requires
        base <= 200,
    ensures
        r@ == spec_noisevec(seed@, base as int),
        polyvec_wf(r@),
{
    let mut out: Vec<Poly> = Vec::new();
    let mut j: usize = 0;
    while j < KYBER_K
        invariant
            base <= 200,
            j <= KYBER_K,
            out@.len() == j,
            forall|t: int| 0 <= t < j ==> (#[trigger] out@[t])@ == spec_noisevec(
                seed@,
                base as int,
            )[t] && poly_wf(out@[t]@),
        decreases KYBER_K - j,
    {
        let p = poly_getnoise(seed, base + (j as u8));
        out.push(p);
        j += 1;
    }
    let r = Polyvec { vec: out };
    proof {
        assert(r@ =~= spec_noisevec(seed@, base as int));
    }
    r
}

/// Generates a key pair deterministically from a seed: derives the
/// public and noise seeds, expands the matrix, draws the secret and
/// error vectors with one continuing nonce counter, forms the module-LWE
/// samples, and serializes both keys.
pub fn indcpa_keypair_derand(seed: &[u8]) -> (r: (Vec<u8>, Vec<u8>))
    requires
        seed@.len() == KYBER_SYMBYTES,
    ensures
        r.0@ == spec_keypair_pk(seed@),
        r.1@ == spec_keypair_sk(seed@),
        r.0@.len() == KYBER_INDCPA_PUBLICKEYBYTES,
        r.1@.len() == KYBER_INDCPA_SECRETKEYBYTES,
{
    let buf = hash_g(seed);
    let ps = vstd::slice::slice_subrange(buf.as_slice(), 0, KYBER_SYMBYTES);
    let ns = vstd::slice::slice_subrange(buf.as_slice(), KYBER_SYMBYTES, 2 * KYBER_SYMBYTES);
    proof {
        assert(ps@ =~= spec_pubseed(seed@));
        assert(ns@ =~= spec_noiseseed(seed@));
    }
    let a = gen_a(ps);
    let skpv = getnoise_vec(ns, 0);
    let e = getnoise_vec(ns, KYBER_K as u8);
    let skpv_hat = polyvec_ntt(&skpv);
    let e_hat = polyvec_ntt(&e);
    let mut acc_vec: Vec<Poly> = Vec::new();
    let mut i: usize = 0;
    while i < KYBER_K
        invariant
            seed@.len() == KYBER_SYMBYTES,
            a@.len() == KYBER_K,
            mat_view(a@) == spec_gen_matrix(spec_pubseed(seed@), false),
            forall|t: int| 0 <= t < KYBER_K ==> polyvec_wf(#[trigger] a@[t]@),
            skpv_hat@ == spec_keypair_skvec(seed@),
            polyvec_wf(skpv_hat@),
            i <= KYBER_K,
            acc_vec@.len() == i,
            forall|t: int| 0 <= t < i ==> (#[trigger] acc_vec@[t])@ == spec_pointwise_acc(
                spec_gen_matrix(spec_pubseed(seed@), false)[t],
                spec_keypair_skvec(seed@),
            ) && poly_wf(acc_vec@[t]@),
        decreases KYBER_K - i,
    {
        proof {
            assert(mat_view(a@)[i as int] == a@[i as int]@);
        }
        let acc = polyvec_pointwise_acc(&a[i], &skpv_hat);
        acc_vec.push(acc);
        i += 1;
    }
    let acc_pv = Polyvec { vec: acc_vec };
    let pkpv = polyvec_add(&acc_pv, &e_hat);
    proof {
        assert(pkpv@ =~= spec_keypair_pkvec(seed@));
    }
    let sk = pack_sk(&skpv_hat);
    let pk = pack_pk(&pkpv, ps);
    (pk, sk)
}

/// Generates a key pair: draws one fresh random seed and derives
/// everything else deterministically from it.
pub fn indcpa_keypair() -> (r: (Vec<u8>, Vec<u8>))
    ensures
        r.0@.len() == KYBER_INDCPA_PUBLICKEYBYTES,
        r.1@.len() == KYBER_INDCPA_SECRETKEYBYTES,
        exists|s: Seq<u8>|
            s.len() == KYBER_SYMBYTES && r.0@ == #[trigger] spec_keypair_pk(s) && r.1@
                == spec_keypair_sk(s),
{
    let seed = randombytes();
    let kp = indcpa_keypair_derand(seed.as_slice());
    proof {
        assert(seed@.len() == KYBER_SYMBYTES && kp.0@ == spec_keypair_pk(seed@) && kp.1@
            == spec_keypair_sk(seed@));
    }
    kp
}

/// Encrypts a fixed-length message under a public key, all randomness
/// drawn deterministically from the coins: expands the transposed
/// matrix from the key's seed, draws `r`, `e1` and `e2` with one
/// continuing nonce counter, forms the LWE terms, and serializes the
/// compressed ciphertext.
pub fn indcpa_enc(m: &[u8], pk: &[u8], coins: &[u8]) -> (c: Vec<u8>)
    requires
        m@.len() == KYBER_INDCPA_MSGBYTES,
        pk@.len() == KYBER_INDCPA_PUBLICKEYBYTES,
        coins@.len() == KYBER_SYMBYTES,
    ensures
        c@ == spec_enc(m@, pk@, coins@),
        c@.len() == KYBER_INDCPA_BYTES,
{
    let pkpv = polyvec_frombytes(pk, 0);
    let seed = vstd::slice::slice_subrange(pk, KYBER_POLYVECBYTES, KYBER_INDCPA_PUBLICKEYBYTES);
    proof {
        assert(pk@.subrange(0, KYBER_POLYVECBYTES as int) =~= pk@.take(KYBER_POLYVECBYTES as int));
        assert(seed@ =~= pk@.skip(KYBER_POLYVECBYTES as int));
    }
    let k_poly = poly_frommsg(m);
    let at = gen_at(seed);
    let sp = getnoise_vec(coins, 0);
    let e1 = getnoise_vec(coins, KYBER_K as u8);
    let epp = poly_getnoise(coins, (2 * KYBER_K) as u8);
    let sp_hat = polyvec_ntt(&sp);
    let mut acc_vec: Vec<Poly> = Vec::new();
    let mut i: usize = 0;
    while i < KYBER_K
        invariant
            coins@.len() == KYBER_SYMBYTES,
            at@.len() == KYBER_K,
            mat_view(at@) == spec_gen_matrix(pk@.skip(KYBER_POLYVECBYTES as int), true),
            forall|t: int| 0 <= t < KYBER_K ==> polyvec_wf(#[trigger] at@[t]@),
            sp_hat@ == spec_polyvec_ntt(spec_noisevec(coins@, 0)),
            polyvec_wf(sp_hat@),
            i <= KYBER_K,
            acc_vec@.len() == i,
            forall|t: int| 0 <= t < i ==> (#[trigger] acc_vec@[t])@ == spec_pointwise_acc(
                spec_gen_matrix(pk@.skip(KYBER_POLYVECBYTES as int), true)[t],
                spec_polyvec_ntt(spec_noisevec(coins@, 0)),
            ) && poly_wf(acc_vec@[t]@),
        decreases KYBER_K - i,
    {
        proof {
            assert(mat_view(at@)[i as int] == at@[i as int]@);
        }
        let acc = polyvec_pointwise_acc(&at[i], &sp_hat);
        acc_vec.push(acc);
        i += 1;
    }
    let acc_pv = Polyvec { vec: acc_vec };
    let b_std = polyvec_invntt(&acc_pv);
    let bp = polyvec_add(&b_std, &e1);
    proof {
        assert(bp@ =~= spec_enc_bvec(pk@.skip(KYBER_POLYVECBYTES as int), coins@));
    }
    let accv = polyvec_pointwise_acc(&pkpv, &sp_hat);
    let vtmp = poly_invntt(&accv);
    let v1 = poly_add(&vtmp, &epp);
    let v2 = poly_add(&v1, &k_poly);
    proof {
        assert(v2@ == spec_enc_v(
            m@,
            spec_polyvec_frombytes(pk@.take(KYBER_POLYVECBYTES as int)),
            coins@,
        ));
    }
    pack_ciphertext(&bp, &v2)
}

/// Decrypts a ciphertext with a secret key: reconstructs the quantized
/// `b` and `v`, forms `v - invntt(s . ntt(b))`, and decodes the result
/// into the message.  Decryption always returns a message; for
/// ciphertexts produced by encryption it recovers the encrypted message
/// up to the scheme's quantization-and-noise margin.
pub fn indcpa_dec(c: &[u8], sk: &[u8]) -> (m: Vec<u8>)
    requires
        c@.len() == KYBER_INDCPA_BYTES,
        sk@.len() == KYBER_INDCPA_SECRETKEYBYTES,
    ensures
        m@ == spec_dec(c@, sk@),
        m@.len() == KYBER_INDCPA_MSGBYTES,
{
    let bp = polyvec_decompress(c, 0);
    let v = poly_decompress(c, KYBER_POLYVECCOMPRESSEDBYTES);
    let skpv = polyvec_frombytes(sk, 0);
    proof {
        assert(c@.subrange(0, KYBER_POLYVECCOMPRESSEDBYTES as int) =~= c@.take(
            KYBER_POLYVECCOMPRESSEDBYTES as int,
        ));
        assert(c@.subrange(
            KYBER_POLYVECCOMPRESSEDBYTES as int,
            KYBER_POLYVECCOMPRESSEDBYTES + KYBER_POLYCOMPRESSEDBYTES,
        ) =~= c@.skip(KYBER_POLYVECCOMPRESSEDBYTES as int));
        assert(sk@.subrange(0, KYBER_POLYVECBYTES as int) =~= sk@);
    }
    let bp_hat = polyvec_ntt(&bp);
    let mp = polyvec_pointwise_acc(&skpv, &bp_hat);
    let mp2 = poly_invntt(&mp);
    let d = poly_sub(&v, &mp2);
    poly_tomsg(&d)
}

/// Key-pair derivation from a seed is deterministic: any two key pairs
/// derived from the same seed are bit-identical.
pub proof fn lemma_keypair_deterministic(
    seed: Seq<u8>,
    pk1: Seq<u8>,
    sk1: Seq<u8>,
    pk2: Seq<u8>,
    sk2: Seq<u8>,
)
    requires
        pk1 == spec_keypair_pk(seed),
        sk1 == spec_keypair_sk(seed),
        pk2 == spec_keypair_pk(seed),
        sk2 == spec_keypair_sk(seed),
    ensures
        pk1 == pk2,
        sk1 == sk2,
{
}

/// Encryption is deterministic in its inputs: any two ciphertexts of
/// the same message under the same public key and coins are
/// bit-identical.
pub proof fn lemma_enc_deterministic(
    m: Seq<u8>,
    pk: Seq<u8>,
    coins: Seq<u8>,
    c1: Seq<u8>,
    c2: Seq<u8>,
)
    requires
        c1 == spec_enc(m, pk, coins),
        c2 == spec_enc(m, pk, coins),
    ensures
        c1 == c2,
{
}

} // verus!
