//! Vectors of exactly `KYBER_K` polynomials: coefficient-wise arithmetic,
//! the domain transform applied entry-wise, the pointwise
//! multiply-accumulate that forms module-LWE inner products, and the exact
//! and lossy vector byte codecs.

use vstd::prelude::*;
use crate::params::{KYBER_K, KYBER_N, KYBER_Q, KYBER_POLYBYTES, KYBER_POLYVECBYTES,
    KYBER_POLYVECCOMPRESSEDBYTES, KYBER_POLYCOMPRESSED10BYTES};
use crate::poly::{Poly, poly_wf, poly_add, spec_poly_add, poly_ntt, poly_invntt, spec_ntt,
    spec_invntt, poly_tobytes, poly_frombytes, spec_poly_tobytes, spec_poly_frombytes,
    lemma_poly_codec_round_trip, compress10, decompress10, spec_compress10, spec_decompress10};

verus! {

/// A vector of exactly `KYBER_K` polynomials.
pub struct Polyvec {
    pub vec: Vec<Poly>,
}

impl View for Polyvec {
    type V = Seq<Seq<u16>>;

    open spec fn view(&self) -> Seq<Seq<u16>> {
        self.vec@.map_values(|p: Poly| p@)
    }
}

/// Well-formedness: full rank, every entry a well-formed polynomial.
pub open spec fn polyvec_wf(v: Seq<Seq<u16>>) -> bool {
    &&& v.len() == KYBER_K
    &&& forall|i: int| 0 <= i < v.len() ==> poly_wf(#[trigger] v[i])
}

/// Entry-wise sum of two vectors.
pub open spec fn spec_polyvec_add(a: Seq<Seq<u16>>, b: Seq<Seq<u16>>) -> Seq<Seq<u16>> {
    Seq::new(KYBER_K as nat, |i: int| spec_poly_add(a[i], b[i]))
}

/// Adds two vectors entry-wise and reduces.
pub fn polyvec_add(a: &Polyvec, b: &Polyvec) -> (r: Polyvec)
    requires
        polyvec_wf(a@),
        polyvec_wf(b@),
    ensures
        r@ == spec_polyvec_add(a@, b@),
        polyvec_wf(r@),
{
    let mut out: Vec<Poly> = Vec::new();
    let mut i: usize = 0;
    while i < KYBER_K
        invariant
            polyvec_wf(a@),
            polyvec_wf(b@),
            i <= KYBER_K,
            out@.len() == i,
            forall|k: int| 0 <= k < i ==> (#[trigger] out@[k])@ == spec_polyvec_add(a@, b@)[k]
                && poly_wf(out@[k]@),
        decreases KYBER_K - i,
    {
        proof {
            assert(a@.len() == a.vec@.len() && b@.len() == b.vec@.len());
            assert(a@[i as int] == a.vec@[i as int]@ && b@[i as int] == b.vec@[i as int]@);
        }
        let s = poly_add(&a.vec[i], &b.vec[i]);
        out.push(s);
        i += 1;
    }
    let r = Polyvec { vec: out };
    proof {
        assert(r@ =~= spec_polyvec_add(a@, b@));
    }
    r
}

/// The domain transform applied to every entry.
pub open spec fn spec_polyvec_ntt(v: Seq<Seq<u16>>) -> Seq<Seq<u16>> {
    Seq::new(KYBER_K as nat, |i: int| spec_ntt(v[i]))
}

/// The inverse domain transform applied to every entry.
pub open spec fn spec_polyvec_invntt(v: Seq<Seq<u16>>) -> Seq<Seq<u16>> {
    Seq::new(KYBER_K as nat, |i: int| spec_invntt(v[i]))
}

/// Transforms every entry into the evaluation domain.
pub fn polyvec_ntt(v: &Polyvec) -> (r: Polyvec)
    requires
        polyvec_wf(v@),
    ensures
        r@ == spec_polyvec_ntt(v@),
        polyvec_wf(r@),
{
    let mut out: Vec<Poly> = Vec::new();
    let mut i: usize = 0;
    while i < KYBER_K
        invariant
            polyvec_wf(v@),
            i <= KYBER_K,
            out@.len() == i,
            forall|k: int| 0 <= k < i ==> (#[trigger] out@[k])@ == spec_polyvec_ntt(v@)[k]
                && poly_wf(out@[k]@),
        decreases KYBER_K - i,
    {
        proof {
            assert(v@.len() == v.vec@.len());
            assert(v@[i as int] == v.vec@[i as int]@);
        }
        let t = poly_ntt(&v.vec[i]);
        out.push(t);
        i += 1;
    }
    let r = Polyvec { vec: out };
    proof {
        assert(r@ =~= spec_polyvec_ntt(v@));
    }
    r
}

/// Transforms every entry back into the standard domain.
pub fn polyvec_invntt(v: &Polyvec) -> (r: Polyvec)
    requires
        polyvec_wf(v@),
    ensures
        r@ == spec_polyvec_invntt(v@),
        polyvec_wf(r@),
{
    let mut out: Vec<Poly> = Vec::new();
    let mut i: usize = 0;
    while i < KYBER_K
        invariant
            polyvec_wf(v@),
            i <= KYBER_K,
            out@.len() == i,
            forall|k: int| 0 <= k < i ==> (#[trigger] out@[k])@ == spec_polyvec_invntt(v@)[k]
                && poly_wf(out@[k]@),
        decreases KYBER_K - i,
    {
        proof {
            assert(v@.len() == v.vec@.len());
            assert(v@[i as int] == v.vec@[i as int]@);
        }
        let t = poly_invntt(&v.vec[i]);
        out.push(t);
        i += 1;
    }
    let r = Polyvec { vec: out };
    proof {
        assert(r@ =~= spec_polyvec_invntt(v@));
    }
    r
}

/// The inner-product accumulator at coefficient `c`, over the first `k`
/// entries of the two vectors.
pub open spec fn spec_dot(a: Seq<Seq<u16>>, b: Seq<Seq<u16>>, c: int, k: nat) -> int
    decreases k,
{
    if k == 0 {
        0
    } else {
        spec_dot(a, b, c, (k - 1) as nat) + a[k - 1][c] * b[k - 1][c]
    }
}

/// The pointwise multiply-accumulate of two vectors in the evaluation
/// domain: coefficient `c` of the result is the reduced sum over the rank
/// of the products of the entries' coefficients `c`.
pub open spec fn spec_pointwise_acc(a: Seq<Seq<u16>>, b: Seq<Seq<u16>>) -> Seq<u16> {
    Seq::new(
        KYBER_N as nat,
        |c: int| (spec_dot(a, b, c, KYBER_K as nat) % (KYBER_Q as int)) as u16,
    )
}

/// Computes the pointwise multiply-accumulate of two vectors in the
/// evaluation domain.
pub fn polyvec_pointwise_acc(a: &Polyvec, b: &Polyvec) -> (r: Poly)
    requires
        polyvec_wf(a@),
        polyvec_wf(b@),
    ensures
        r@ == spec_pointwise_acc(a@, b@),
        poly_wf(r@),
{
    let mut out: Vec<u16> = Vec::new();
    let mut c: usize = 0;
    while c < KYBER_N
        invariant
            polyvec_wf(a@),
            polyvec_wf(b@),
            c <= KYBER_N,
            out@.len() == c,
            forall|t: int| 0 <= t < c ==> out@[t] == spec_pointwise_acc(a@, b@)[t],
        decreases KYBER_N - c,
    {
        let mut acc: u32 = 0;
        let mut j: usize = 0;
        while j < KYBER_K
            invariant
                polyvec_wf(a@),
                polyvec_wf(b@),
                c < KYBER_N,
                j <= KYBER_K,
                acc == spec_dot(a@, b@, c as int, j as nat),
                acc <= j * 11075584,
            decreases KYBER_K - j,
        {
            proof {
                assert(a@.len() == a.vec@.len() && b@.len() == b.vec@.len());
                assert(a@[j as int] == a.vec@[j as int]@ && b@[j as int] == b.vec@[j as int]@);
            }
            let x = a.vec[j].coeffs[c];
            let y = b.vec[j].coeffs[c];
            proof {
                assert((x as u32) * (y as u32) <= 11075584) by (nonlinear_arith)
                    requires
                        x < 3329,
                        y < 3329,
                ;
            }
            acc = acc + (x as u32) * (y as u32);
            j += 1;
        }
        out.push((acc % (KYBER_Q as u32)) as u16);
        c += 1;
    }
    let r = Poly { coeffs: out };
    proof {
        assert(r@ =~= spec_pointwise_acc(a@, b@));
    }
    r
}

/// The first `j` entries of a vector serialized by the exact codec, in
/// order.
pub open spec fn spec_polyvec_tobytes_prefix(v: Seq<Seq<u16>>, j: nat) -> Seq<u8>
    decreases j,
{
    if j == 0 {
        Seq::empty()
    } else {
        spec_polyvec_tobytes_prefix(v, (j - 1) as nat) + spec_poly_tobytes(v[j - 1])
    }
}

/// The exact byte encoding of a vector: the entries' encodings
/// concatenated in order.
pub open spec fn spec_polyvec_tobytes(v: Seq<Seq<u16>>) -> Seq<u8> {
    spec_polyvec_tobytes_prefix(v, KYBER_K as nat)
}

/// Serializes a vector by the exact codec.
pub fn polyvec_tobytes(v: &Polyvec) -> (r: Vec<u8>)
    requires
        polyvec_wf(v@),
    ensures
        r@ == spec_polyvec_tobytes(v@),
        r@.len() == KYBER_POLYVECBYTES,
{
    let mut out: Vec<u8> = Vec::new();
    let mut j: usize = 0;
    while j < KYBER_K
        invariant
            polyvec_wf(v@),
            j <= KYBER_K,
            out@.len() == j * KYBER_POLYBYTES,
            out@ == spec_polyvec_tobytes_prefix(v@, j as nat),
        decreases KYBER_K - j,
    {
        proof {
            assert(v@.len() == v.vec@.len());
            assert(v@[j as int] == v.vec@[j as int]@);
        }
        let mut b = poly_tobytes(&v.vec[j]);
        out.append(&mut b);
        j += 1;
    }
    out
}

/// The vector read back from the exact codec: entry `j` decoded from its
/// own window of the input.
pub open spec fn spec_polyvec_frombytes(b: Seq<u8>) -> Seq<Seq<u16>> {
    Seq::new(
        KYBER_K as nat,
        |j: int| spec_poly_frombytes(b.subrange(j * KYBER_POLYBYTES, (j + 1) * KYBER_POLYBYTES)),
    )
}

/// Reads a vector back from the exact codec, starting at `off`.
pub fn polyvec_frombytes(bytes: &[u8], off: usize) -> (r: Polyvec)
    requires
        off + KYBER_POLYVECBYTES <= bytes@.len(),
    ensures
        r@ == spec_polyvec_frombytes(bytes@.subrange(off as int, off + KYBER_POLYVECBYTES)),
        polyvec_wf(r@),
{
    let ghost window = bytes@.subrange(off as int, off + KYBER_POLYVECBYTES);
    let n = bytes.len();
    let mut out: Vec<Poly> = Vec::new();
    let mut j: usize = 0;
    while j < KYBER_K
        invariant
            n == bytes@.len(),
            off + KYBER_POLYVECBYTES <= bytes@.len(),
            window == bytes@.subrange(off as int, off + KYBER_POLYVECBYTES),
            j <= KYBER_K,
            out@.len() == j,
            forall|t: int| 0 <= t < j ==> (#[trigger] out@[t])@ == spec_polyvec_frombytes(
                window,
            )[t] && poly_wf(out@[t]@),
        decreases KYBER_K - j,
    {
        let p = poly_frombytes(bytes, off + j * KYBER_POLYBYTES);
        proof {
            assert(bytes@.subrange(
                off + j * KYBER_POLYBYTES,
                off + j * KYBER_POLYBYTES + KYBER_POLYBYTES,
            ) =~= window.subrange((j as int) * KYBER_POLYBYTES, (j + 1) * KYBER_POLYBYTES));
        }
        out.push(p);
        j += 1;
    }
    let r = Polyvec { vec: out };
    proof {
        assert(r@ =~= spec_polyvec_frombytes(window));
    }
    r
}

/// The exact vector codec round-trips on well-formed vectors.
pub proof fn lemma_polyvec_codec_round_trip(v: Seq<Seq<u16>>)
    requires
        polyvec_wf(v),
    ensures
        spec_polyvec_frombytes(spec_polyvec_tobytes(v)) == v,
{
    let b = spec_polyvec_tobytes(v);
    assert(b.len() == KYBER_POLYVECBYTES) by {
        reveal_with_fuel(spec_polyvec_tobytes_prefix, 4);
    }
    assert forall|j: int| 0 <= j < KYBER_K implies spec_polyvec_frombytes(b)[j] == v[j] by {
        assert(b.subrange(j * KYBER_POLYBYTES, (j + 1) * KYBER_POLYBYTES) =~= spec_poly_tobytes(
            v[j],
        )) by {
            reveal_with_fuel(spec_polyvec_tobytes_prefix, 4);
        }
        lemma_poly_codec_round_trip(v[j]);
    }
    assert(spec_polyvec_frombytes(b) =~= v);
}

/// Byte `k` of the ten-bit lossy codec of one polynomial: the four
/// quantized coefficients of group `k / 5` laid out little-endian across
/// five bytes.
pub open spec fn pack10_byte(p: Seq<u16>, k: int) -> u8 {
    let g = k / 5;
    let t0 = spec_compress10(p[4 * g]);
    let t1 = spec_compress10(p[4 * g + 1]);
    let t2 = spec_compress10(p[4 * g + 2]);
    let t3 = spec_compress10(p[4 * g + 3]);
    if k % 5 == 0 {
        (t0 & 0xff) as u8
    } else if k % 5 == 1 {
        ((t0 >> 8) | ((t1 & 0x3f) << 2)) as u8
    } else if k % 5 == 2 {
        ((t1 >> 6) | ((t2 & 0xf) << 4)) as u8
    } else if k % 5 == 3 {
        ((t2 >> 4) | ((t3 & 3) << 6)) as u8
    } else {
        (t3 >> 2) as u8
    }
}

/// The lossy byte encoding of one polynomial at ten bits per coefficient.
pub open spec fn spec_poly_compress10(p: Seq<u16>) -> Seq<u8> {
    Seq::new((KYBER_POLYCOMPRESSED10BYTES) as nat, |k: int| pack10_byte(p, k))
}

/// The first `j` entries of a vector under the ten-bit lossy codec, in
/// order.
pub open spec fn spec_polyvec_compress_prefix(v: Seq<Seq<u16>>, j: nat) -> Seq<u8>
    decreases j,
{
    if j == 0 {
        Seq::empty()
    } else {
        spec_polyvec_compress_prefix(v, (j - 1) as nat) + spec_poly_compress10(v[j - 1])
    }
}

/// The lossy byte encoding of a vector: the entries' encodings
/// concatenated in order.
pub open spec fn spec_polyvec_compress(v: Seq<Seq<u16>>) -> Seq<u8> {
    spec_polyvec_compress_prefix(v, KYBER_K as nat)
}

/// Quantizes one polynomial to ten bits per coefficient and packs it.
fn poly_compress10(p: &Poly) -> (r: Vec<u8>)
    requires
        poly_wf(p@),
    ensures
        r@ == spec_poly_compress10(p@),
        r@.len() == KYBER_POLYCOMPRESSED10BYTES,
{
    let mut out: Vec<u8> = Vec::new();
    let mut g: usize = 0;
    while g < KYBER_N / 4
        invariant
            poly_wf(p@),
            g <= KYBER_N / 4,
            out@.len() == 5 * g,
            forall|k: int| 0 <= k < 5 * g ==> out@[k] == pack10_byte(p@, k),
        decreases KYBER_N / 4 - g,
    {
        let t0 = compress10(p.coeffs[4 * g]);
        let t1 = compress10(p.coeffs[4 * g + 1]);
        let t2 = compress10(p.coeffs[4 * g + 2]);
        let t3 = compress10(p.coeffs[4 * g + 3]);
        proof {
            assert(t0 & 0xff < 256 && (t0 >> 8) | ((t1 & 0x3f) << 2) < 256 && (t1 >> 6) | ((t2
                & 0xf) << 4) < 256 && (t2 >> 4) | ((t3 & 3) << 6) < 256 && t3 >> 2 < 256)
                by (bit_vector)
                requires
                    t0 < 1024,
                    t1 < 1024,
                    t2 < 1024,
                    t3 < 1024,
            ;
            vstd::arithmetic::div_mod::lemma_fundamental_div_mod_converse(5 * g, 5, g as int, 0);
            vstd::arithmetic::div_mod::lemma_fundamental_div_mod_converse(
                5 * g + 1,
                5,
                g as int,
                1,
            );
            vstd::arithmetic::div_mod::lemma_fundamental_div_mod_converse(
                5 * g + 2,
                5,
                g as int,
                2,
            );
            vstd::arithmetic::div_mod::lemma_fundamental_div_mod_converse(
                5 * g + 3,
                5,
                g as int,
                3,
            );
            vstd::arithmetic::div_mod::lemma_fundamental_div_mod_converse(
                5 * g + 4,
                5,
                g as int,
                4,
            );
        }
        out.push((t0 & 0xff) as u8);
        out.push(((t0 >> 8) | ((t1 & 0x3f) << 2)) as u8);
        out.push(((t1 >> 6) | ((t2 & 0xf) << 4)) as u8);
        out.push(((t2 >> 4) | ((t3 & 3) << 6)) as u8);
        out.push((t3 >> 2) as u8);
        g += 1;
    }
    proof {
        assert(out@ =~= spec_poly_compress10(p@));
    }
    out
}

/// Quantizes a vector to ten bits per coefficient and packs it.
pub fn polyvec_compress(v: &Polyvec) -> (r: Vec<u8>)
    requires
        polyvec_wf(v@),
    ensures
        r@ == spec_polyvec_compress(v@),
        r@.len() == KYBER_POLYVECCOMPRESSEDBYTES,
{
    let mut out: Vec<u8> = Vec::new();
    let mut j: usize = 0;
    while j < KYBER_K
        invariant
            polyvec_wf(v@),
            j <= KYBER_K,
            out@.len() == j * (KYBER_POLYCOMPRESSED10BYTES),
            out@ == spec_polyvec_compress_prefix(v@, j as nat),
        decreases KYBER_K - j,
    {
        proof {
            assert(v@.len() == v.vec@.len());
            assert(v@[j as int] == v.vec@[j as int]@);
        }
        let mut b = poly_compress10(&v.vec[j]);
        out.append(&mut b);
        j += 1;
    }
    out
}

/// Coefficient `j` reconstructed from the ten-bit lossy codec of one
/// polynomial.
pub open spec fn unpack10_coeff(b: Seq<u8>, j: int) -> u16 {
    let g = j / 4;
    let b0 = b[5 * g] as u16;
    let b1 = b[5 * g + 1] as u16;
    let b2 = b[5 * g + 2] as u16;
    let b3 = b[5 * g + 3] as u16;
    let b4 = b[5 * g + 4] as u16;
    let t = if j % 4 == 0 {
        (b0 | (b1 << 8)) & 0x3ff
    } else if j % 4 == 1 {
        ((b1 >> 2) | (b2 << 6)) & 0x3ff
    } else if j % 4 == 2 {
        ((b2 >> 4) | (b3 << 4)) & 0x3ff
    } else {
        ((b3 >> 6) | (b4 << 2)) & 0x3ff
    };
    spec_decompress10(t)
}

/// One polynomial reconstructed from the ten-bit lossy codec.
pub open spec fn spec_poly_decompress10(b: Seq<u8>) -> Seq<u16> {
    Seq::new(KYBER_N as nat, |j: int| unpack10_coeff(b, j))
}

/// The vector reconstructed from the ten-bit lossy codec: entry `j`
/// decoded from its own window of the input.
pub open spec fn spec_polyvec_decompress(b: Seq<u8>) -> Seq<Seq<u16>> {
    Seq::new(
        KYBER_K as nat,
        |j: int| spec_poly_decompress10(
            b.subrange(j * (KYBER_POLYCOMPRESSED10BYTES), (j + 1) * (KYBER_POLYCOMPRESSED10BYTES)),
        ),
    )
}

/// Unpacks one polynomial of a ten-bit lossy encoding, starting at `off`,
/// and reconstructs each coefficient.
fn poly_decompress10(bytes: &[u8], off: usize) -> (r: Poly)
    requires
        off + KYBER_POLYCOMPRESSED10BYTES <= bytes@.len(),
    ensures
        r@ == spec_poly_decompress10(bytes@.subrange(off as int, off + KYBER_POLYCOMPRESSED10BYTES)),
        poly_wf(r@),
{
    let ghost window = bytes@.subrange(off as int, off + KYBER_POLYCOMPRESSED10BYTES);
    let n = bytes.len();
    let mut out: Vec<u16> = Vec::new();
    let mut g: usize = 0;
    while g < KYBER_N / 4
        invariant
            n == bytes@.len(),
            off + KYBER_POLYCOMPRESSED10BYTES <= bytes@.len(),
            window == bytes@.subrange(off as int, off + KYBER_POLYCOMPRESSED10BYTES),
            g <= KYBER_N / 4,
            out@.len() == 4 * g,
            forall|j: int| 0 <= j < 4 * g ==> out@[j] == unpack10_coeff(window, j),
            forall|j: int| 0 <= j < 4 * g ==> out@[j] < KYBER_Q,
        decreases KYBER_N / 4 - g,
    {
        let b0 = bytes[off + 5 * g] as u16;
        let b1 = bytes[off + 5 * g + 1] as u16;
        let b2 = bytes[off + 5 * g + 2] as u16;
        let b3 = bytes[off + 5 * g + 3] as u16;
        let b4 = bytes[off + 5 * g + 4] as u16;
        proof {
            assert((b0 | (b1 << 8)) & 0x3ff < 1024 && ((b1 >> 2) | (b2 << 6)) & 0x3ff < 1024 && ((
            b2 >> 4) | (b3 << 4)) & 0x3ff < 1024 && ((b3 >> 6) | (b4 << 2)) & 0x3ff < 1024)
                by (bit_vector);
            vstd::arithmetic::div_mod::lemma_fundamental_div_mod_converse(4 * g, 4, g as int, 0);
            vstd::arithmetic::div_mod::lemma_fundamental_div_mod_converse(
                4 * g + 1,
                4,
                g as int,
                1,
            );
            vstd::arithmetic::div_mod::lemma_fundamental_div_mod_converse(
                4 * g + 2,
                4,
                g as int,
                2,
            );
            vstd::arithmetic::div_mod::lemma_fundamental_div_mod_converse(
                4 * g + 3,
                4,
                g as int,
                3,
            );
            assert(window[5 * g] == bytes@[off + 5 * g] && window[5 * g + 1] == bytes@[off + 5 * g
                + 1] && window[5 * g + 2] == bytes@[off + 5 * g + 2] && window[5 * g + 3]
                == bytes@[off + 5 * g + 3] && window[5 * g + 4] == bytes@[off + 5 * g + 4]);
        }
        let c0 = decompress10((b0 | (b1 << 8)) & 0x3ff);
        let c1 = decompress10(((b1 >> 2) | (b2 << 6)) & 0x3ff);
        let c2 = decompress10(((b2 >> 4) | (b3 << 4)) & 0x3ff);
        let c3 = decompress10(((b3 >> 6) | (b4 << 2)) & 0x3ff);
        out.push(c0);
        out.push(c1);
        out.push(c2);
        out.push(c3);
        g += 1;
    }
    let r = Poly { coeffs: out };
    proof {
        assert(r@ =~= spec_poly_decompress10(window));
    }
    r
}

/// Unpacks a ten-bit lossy vector encoding, starting at `off`.
pub fn polyvec_decompress(bytes: &[u8], off: usize) -> (r: Polyvec)
    requires
        off + KYBER_POLYVECCOMPRESSEDBYTES <= bytes@.len(),
    ensures
        r@ == spec_polyvec_decompress(
            bytes@.subrange(off as int, off + KYBER_POLYVECCOMPRESSEDBYTES),
        ),
        polyvec_wf(r@),
{
    let ghost window = bytes@.subrange(off as int, off + KYBER_POLYVECCOMPRESSEDBYTES);
    let n = bytes.len();
    let mut out: Vec<Poly> = Vec::new();
    let mut j: usize = 0;
    while j < KYBER_K
        invariant
            n == bytes@.len(),
            off + KYBER_POLYVECCOMPRESSEDBYTES <= bytes@.len(),
            window == bytes@.subrange(off as int, off + KYBER_POLYVECCOMPRESSEDBYTES),
            j <= KYBER_K,
            out@.len() == j,
            forall|t: int| 0 <= t < j ==> (#[trigger] out@[t])@ == spec_polyvec_decompress(
                window,
            )[t] && poly_wf(out@[t]@),
        decreases KYBER_K - j,
    {
        let p = poly_decompress10(bytes, off + j * (KYBER_POLYCOMPRESSED10BYTES));
        proof {
            assert(bytes@.subrange(
                off + j * (KYBER_POLYCOMPRESSED10BYTES),
                off + j * (KYBER_POLYCOMPRESSED10BYTES) + KYBER_POLYCOMPRESSED10BYTES,
            ) =~= window.subrange(
                (j as int) * (KYBER_POLYCOMPRESSED10BYTES),
                (j + 1) * (KYBER_POLYCOMPRESSED10BYTES),
            ));
        }
        out.push(p);
        j += 1;
    }
    let r = Polyvec { vec: out };
    proof {
        assert(r@ =~= spec_polyvec_decompress(window));
    }
    r
}

/// Decoding a ten-bit lossy vector encoding reconstructs exactly the
/// quantized coefficients: the only loss is the quantization itself.
#[verifier::rlimit(100)]
pub proof fn lemma_polyvec_compress_round_trip(v: Seq<Seq<u16>>)
    requires
        polyvec_wf(v),
    ensures
        spec_polyvec_decompress(spec_polyvec_compress(v)) == Seq::new(
            KYBER_K as nat,
            |i: int| Seq::new(KYBER_N as nat, |j: int| spec_decompress10(spec_compress10(v[i][j]))),
        ),
{
    let b = spec_polyvec_compress(v);
    let rhs = Seq::new(
        KYBER_K as nat,
        |i: int| Seq::new(KYBER_N as nat, |j: int| spec_decompress10(spec_compress10(v[i][j]))),
    );
    assert(b.len() == KYBER_POLYVECCOMPRESSEDBYTES) by {
        reveal_with_fuel(spec_polyvec_compress_prefix, 4);
    }
    assert forall|i: int| 0 <= i < KYBER_K implies spec_polyvec_decompress(b)[i] == rhs[i] by {
        assert(b.subrange(i * (KYBER_POLYCOMPRESSED10BYTES), (i + 1) * (KYBER_POLYCOMPRESSED10BYTES))
            =~= spec_poly_compress10(v[i])) by {
            reveal_with_fuel(spec_polyvec_compress_prefix, 4);
        }
        lemma_poly_decompress10_of_compress10(v[i]);
    }
    assert(spec_polyvec_decompress(b) =~= rhs);
}

/// Decoding the ten-bit lossy codec of one polynomial reconstructs
/// exactly its quantized coefficients.
#[verifier::rlimit(100)]
proof fn lemma_poly_decompress10_of_compress10(p: Seq<u16>)
    requires
        poly_wf(p),
    ensures
        spec_poly_decompress10(spec_poly_compress10(p)) == Seq::new(
            KYBER_N as nat,
            |j: int| spec_decompress10(spec_compress10(p[j])),
        ),
{
    let b = spec_poly_compress10(p);
    let rhs = Seq::new(KYBER_N as nat, |j: int| spec_decompress10(spec_compress10(p[j])));
    assert forall|j: int| 0 <= j < KYBER_N implies spec_poly_decompress10(b)[j] == rhs[j] by {
        let g = j / 4;
        vstd::arithmetic::div_mod::lemma_fundamental_div_mod(j, 4);
        vstd::arithmetic::div_mod::lemma_fundamental_div_mod_converse(5 * g, 5, g, 0);
        vstd::arithmetic::div_mod::lemma_fundamental_div_mod_converse(5 * g + 1, 5, g, 1);
        vstd::arithmetic::div_mod::lemma_fundamental_div_mod_converse(5 * g + 2, 5, g, 2);
        vstd::arithmetic::div_mod::lemma_fundamental_div_mod_converse(5 * g + 3, 5, g, 3);
        vstd::arithmetic::div_mod::lemma_fundamental_div_mod_converse(5 * g + 4, 5, g, 4);
        let t0 = spec_compress10(p[4 * g]);
        let t1 = spec_compress10(p[4 * g + 1]);
        let t2 = spec_compress10(p[4 * g + 2]);
        let t3 = spec_compress10(p[4 * g + 3]);
        let y0 = (t0 & 0xff) as u8;
        let y1 = ((t0 >> 8) | ((t1 & 0x3f) << 2)) as u8;
        let y2 = ((t1 >> 6) | ((t2 & 0xf) << 4)) as u8;
        let y3 = ((t2 >> 4) | ((t3 & 3) << 6)) as u8;
        let y4 = (t3 >> 2) as u8;
        assert((((y0 as u16) | ((y1 as u16) << 8)) & 0x3ff) == t0 && ((((y1 as u16) >> 2) | ((
        y2 as u16) << 6)) & 0x3ff) == t1 && ((((y2 as u16) >> 4) | ((y3 as u16) << 4)) & 0x3ff)
            == t2 && ((((y3 as u16) >> 6) | ((y4 as u16) << 2)) & 0x3ff) == t3) by (bit_vector)
            requires
                t0 < 1024,
                t1 < 1024,
                t2 < 1024,
                t3 < 1024,
                y0 == (t0 & 0xff) as u8,
                y1 == ((t0 >> 8) | ((t1 & 0x3f) << 2)) as u8,
                y2 == ((t1 >> 6) | ((t2 & 0xf) << 4)) as u8,
                y3 == ((t2 >> 4) | ((t3 & 3) << 6)) as u8,
                y4 == (t3 >> 2) as u8,
        ;
    }
    assert(spec_poly_decompress10(b) =~= rhs);
}

} // verus!
