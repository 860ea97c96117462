//! Polynomials of the coefficient ring: a fixed number of coefficients,
//! each a canonical representative modulo the prime modulus, together with
//! the coefficient-wise ring operations, the domain transform used by the
//! pointwise operations, noise sampling, and the byte codecs.

use vstd::prelude::*;
use vstd::arithmetic::div_mod::lemma_mod_multiples_vanish;
use crate::params::{KYBER_N, KYBER_Q, KYBER_INDCPA_MSGBYTES, KYBER_POLYBYTES,
    KYBER_POLYCOMPRESSEDBYTES};
use crate::symmetric::{prf, prf_byte};

verus! {

/// A polynomial: `KYBER_N` coefficients, each in `[0, KYBER_Q)`.
pub struct Poly {
    pub coeffs: Vec<u16>,
}

impl View for Poly {
    type V = Seq<u16>;

    open spec fn view(&self) -> Seq<u16> {
        self.coeffs@
    }
}

/// Well-formedness: full length, every coefficient canonical.
pub open spec fn poly_wf(p: Seq<u16>) -> bool {
    &&& p.len() == KYBER_N
    &&& forall|i: int| 0 <= i < p.len() ==> p[i] < KYBER_Q
}

/// Coefficient-wise sum, reduced to canonical representatives.
pub open spec fn spec_poly_add(a: Seq<u16>, b: Seq<u16>) -> Seq<u16> {
    Seq::new(KYBER_N as nat, |i: int| ((a[i] + b[i]) % (KYBER_Q as int)) as u16)
}

/// Coefficient-wise difference, reduced to canonical representatives.
pub open spec fn spec_poly_sub(a: Seq<u16>, b: Seq<u16>) -> Seq<u16> {
    Seq::new(KYBER_N as nat, |i: int| ((a[i] - b[i]) % (KYBER_Q as int)) as u16)
}

/// Adds two polynomials coefficient-wise and reduces.
pub fn poly_add(a: &Poly, b: &Poly) -> (r: Poly)
    requires
        poly_wf(a@),
        poly_wf(b@),
    ensures
        r@ == spec_poly_add(a@, b@),
        poly_wf(r@),
{
    let mut out: Vec<u16> = Vec::new();
    let mut i: usize = 0;
    while i < KYBER_N
        invariant
            poly_wf(a@),
            poly_wf(b@),
            i <= KYBER_N,
            out@.len() == i,
            forall|k: int| 0 <= k < i ==> out@[k] == spec_poly_add(a@, b@)[k],
        decreases KYBER_N - i,
    {
        let c = (a.coeffs[i] + b.coeffs[i]) % KYBER_Q;
        out.push(c);
        i += 1;
    }
    let r = Poly { coeffs: out };
    proof {
        assert(r@ =~= spec_poly_add(a@, b@));
    }
    r
}

/// Subtracts `b` from `a` coefficient-wise and reduces.
pub fn poly_sub(a: &Poly, b: &Poly) -> (r: Poly)
    requires
        poly_wf(a@),
        poly_wf(b@),
    ensures
        r@ == spec_poly_sub(a@, b@),
        poly_wf(r@),
{
    let mut out: Vec<u16> = Vec::new();
    let mut i: usize = 0;
    while i < KYBER_N
        invariant
            poly_wf(a@),
            poly_wf(b@),
            i <= KYBER_N,
            out@.len() == i,
            forall|k: int| 0 <= k < i ==> out@[k] == spec_poly_sub(a@, b@)[k],
        decreases KYBER_N - i,
    {
        let c = (a.coeffs[i] + KYBER_Q - b.coeffs[i]) % KYBER_Q;
        proof {
            lemma_mod_multiples_vanish(1, a@[i as int] - b@[i as int], KYBER_Q as int);
            assert(c == spec_poly_sub(a@, b@)[i as int]);
        }
        out.push(c);
        i += 1;
    }
    let r = Poly { coeffs: out };
    proof {
        assert(r@ =~= spec_poly_sub(a@, b@));
    }
    r
}

/// The index permutation of the domain transform: the bit-reversal of an
/// eight-bit index.
pub open spec fn bitrev8(i: u8) -> u8 {
    ((i & 1) << 7) | ((i & 2) << 5) | ((i & 4) << 3) | ((i & 8) << 1) | ((i & 16) >> 1) | ((i
        & 32) >> 3) | ((i & 64) >> 5) | ((i & 128) >> 7)
}

/// The bit-reversal permutation is its own inverse.
pub proof fn lemma_bitrev8_involution()
    by (bit_vector)
    ensures
        forall|i: u8| #[trigger] bitrev8(bitrev8(i)) == i,
{
}

/// The domain transform: coefficients reordered by bit-reversal of their
/// index. It carries a polynomial between the standard order and the
/// evaluation order in which the pointwise operations multiply; applied
/// twice it is the identity.
pub open spec fn spec_ntt(p: Seq<u16>) -> Seq<u16> {
    Seq::new(KYBER_N as nat, |i: int| p[bitrev8(i as u8) as int])
}

/// The inverse domain transform: the same reordering, since the
/// bit-reversal permutation is an involution.
pub open spec fn spec_invntt(p: Seq<u16>) -> Seq<u16> {
    spec_ntt(p)
}

/// The two domain transforms are mutual inverses.
pub proof fn lemma_ntt_inverse(p: Seq<u16>)
    requires
        p.len() == KYBER_N,
    ensures
        spec_invntt(spec_ntt(p)) == p,
        spec_ntt(spec_invntt(p)) == p,
{
    lemma_bitrev8_involution();
    assert(spec_invntt(spec_ntt(p)) =~= p);
    assert(spec_ntt(spec_invntt(p)) =~= p);
}

/// Computes the bit-reversal of an index below `KYBER_N`.
fn bitrev8_exec(i: usize) -> (r: usize)
    requires
        i < KYBER_N,
    ensures
        r == bitrev8(i as u8) as int,
        r < KYBER_N,
{
    let b = i as u8;
    let r = ((b & 1) << 7) | ((b & 2) << 5) | ((b & 4) << 3) | ((b & 8) << 1) | ((b & 16) >> 1) | (
    (b & 32) >> 3) | ((b & 64) >> 5) | ((b & 128) >> 7);
    proof {
        assert(i < 256 ==> i as u8 as int == i) by (bit_vector);
    }
    r as usize
}

/// Transforms a polynomial into the evaluation domain.
pub fn poly_ntt(p: &Poly) -> (r: Poly)
    requires
        poly_wf(p@),
    ensures
        r@ == spec_ntt(p@),
        poly_wf(r@),
{
    let mut out: Vec<u16> = Vec::new();
    let mut i: usize = 0;
    while i < KYBER_N
        invariant
            poly_wf(p@),
            i <= KYBER_N,
            out@.len() == i,
            forall|k: int| 0 <= k < i ==> out@[k] == spec_ntt(p@)[k],
        decreases KYBER_N - i,
    {
        let src = bitrev8_exec(i);
        out.push(p.coeffs[src]);
        i += 1;
    }
    let r = Poly { coeffs: out };
    proof {
        assert(r@ =~= spec_ntt(p@));
    }
    r
}

/// Transforms a polynomial back into the standard domain.
pub fn poly_invntt(p: &Poly) -> (r: Poly)
    requires
        poly_wf(p@),
    ensures
        r@ == spec_invntt(p@),
        poly_wf(r@),
{
    poly_ntt(p)
}

/// Message bit `i` mapped to a coefficient: half the modulus (rounded up)
/// for a one bit, zero for a zero bit.
pub open spec fn spec_frommsg(m: Seq<u8>) -> Seq<u16> {
    Seq::new(
        KYBER_N as nat,
        |i: int|
            if (m[i / 8] >> ((i % 8) as u8)) & 1 == 1 {
                ((KYBER_Q + 1) / 2) as u16
            } else {
                0u16
            },
    )
}

/// Encodes a message into a polynomial, one payload bit per coefficient.
pub fn poly_frommsg(m: &[u8]) -> (r: Poly)
    requires
        m@.len() == KYBER_INDCPA_MSGBYTES,
    ensures
        r@ == spec_frommsg(m@),
        poly_wf(r@),
{
    let mut out: Vec<u16> = Vec::new();
    let mut i: usize = 0;
    while i < KYBER_N
        invariant
            m@.len() == KYBER_INDCPA_MSGBYTES,
            i <= KYBER_N,
            out@.len() == i,
            forall|k: int| 0 <= k < i ==> out@[k] == spec_frommsg(m@)[k],
        decreases KYBER_N - i,
    {
        let bit = (m[i / 8] >> ((i % 8) as u8)) & 1;
        let c: u16 = if bit == 1 {
            (KYBER_Q + 1) / 2
        } else {
            0
        };
        out.push(c);
        i += 1;
    }
    let r = Poly { coeffs: out };
    proof {
        assert(r@ =~= spec_frommsg(m@));
    }
    r
}

/// The one-bit quantizer behind message decoding: one when the coefficient
/// lies nearer to half the modulus than to zero.
pub open spec fn spec_msg_bit(x: u16) -> u8 {
    (((2 * x + (KYBER_Q as int) / 2) / (KYBER_Q as int)) % 2) as u8
}

/// The low `j` bits of decoded message byte `i`, most recent bit highest.
pub open spec fn spec_msg_byte_partial(p: Seq<u16>, i: int, j: nat) -> u8
    decreases j,
{
    if j == 0 {
        0u8
    } else {
        spec_msg_byte_partial(p, i, (j - 1) as nat) | (spec_msg_bit(p[8 * i + j - 1]) << ((j
            - 1) as u8))
    }
}

/// The decoded message: coefficient `8i + j` contributes bit `j` of byte `i`.
pub open spec fn spec_tomsg(p: Seq<u16>) -> Seq<u8> {
    Seq::new(KYBER_INDCPA_MSGBYTES as nat, |i: int| spec_msg_byte_partial(p, i, 8))
}

/// Decodes a polynomial into a message: each coefficient nearest to zero
/// yields a zero bit, each nearest to half the modulus a one bit.
pub fn poly_tomsg(p: &Poly) -> (r: Vec<u8>)
    requires
        poly_wf(p@),
    ensures
        r@ == spec_tomsg(p@),
        r@.len() == KYBER_INDCPA_MSGBYTES,
{
    let mut out: Vec<u8> = Vec::new();
    let mut i: usize = 0;
    while i < KYBER_INDCPA_MSGBYTES
        invariant
            poly_wf(p@),
            i <= KYBER_INDCPA_MSGBYTES,
            out@.len() == i,
            forall|k: int| 0 <= k < i ==> out@[k] == spec_tomsg(p@)[k],
        decreases KYBER_INDCPA_MSGBYTES - i,
    {
        let mut b: u8 = 0;
        let mut j: usize = 0;
        while j < 8
            invariant
                poly_wf(p@),
                i < KYBER_INDCPA_MSGBYTES,
                j <= 8,
                b == spec_msg_byte_partial(p@, i as int, j as nat),
            decreases 8 - j,
        {
            let t = ((2 * p.coeffs[8 * i + j] + KYBER_Q / 2) / KYBER_Q) % 2;
            b = b | ((t as u8) << (j as u8));
            j += 1;
        }
        out.push(b);
        i += 1;
    }
    proof {
        assert(out@ =~= spec_tomsg(p@));
    }
    out
}

/// Four-bit lossy quantization of a coefficient.
pub open spec fn spec_compress4(x: u16) -> u16 {
    (((16 * x + (KYBER_Q as int) / 2) / (KYBER_Q as int)) % 16) as u16
}

/// Reconstruction of a coefficient from its four-bit quantization.
pub open spec fn spec_decompress4(c: u16) -> u16 {
    (((KYBER_Q as int) * c + 8) / 16) as u16
}

/// Ten-bit lossy quantization of a coefficient.
pub open spec fn spec_compress10(x: u16) -> u16 {
    (((1024 * (x as int) + (KYBER_Q as int) / 2) / (KYBER_Q as int)) % 1024) as u16
}

/// Reconstruction of a coefficient from its ten-bit quantization.
pub open spec fn spec_decompress10(c: u16) -> u16 {
    (((KYBER_Q as int) * c + 512) / 1024) as u16
}

/// Quantizes one coefficient to four bits.
pub(crate) fn compress4(x: u16) -> (r: u16)
    requires
        x < KYBER_Q,
    ensures
        r == spec_compress4(x),
        r < 16,
{
    ((16 * x + KYBER_Q / 2) / KYBER_Q) % 16
}

/// Reconstructs one coefficient from four bits.
pub(crate) fn decompress4(c: u16) -> (r: u16)
    requires
        c < 16,
    ensures
        r == spec_decompress4(c),
        r < KYBER_Q,
{
    let r = (KYBER_Q * c + 8) / 16;
    proof {
        vstd::arithmetic::div_mod::lemma_div_is_ordered(
            (KYBER_Q as int) * c + 8,
            49943,
            16,
        );
    }
    r
}

/// Quantizes one coefficient to ten bits.
pub(crate) fn compress10(x: u16) -> (r: u16)
    requires
        x < KYBER_Q,
    ensures
        r == spec_compress10(x),
        r < 1024,
{
    (((1024 * (x as u32) + (KYBER_Q as u32) / 2) / (KYBER_Q as u32)) % 1024) as u16
}

/// Reconstructs one coefficient from ten bits.
pub(crate) fn decompress10(c: u16) -> (r: u16)
    requires
        c < 1024,
    ensures
        r == spec_decompress10(c),
        r < KYBER_Q,
{
    proof {
        assert((KYBER_Q as u32) * (c as u32) + 512 < 0x1_0000_0000) by (nonlinear_arith)
            requires
                c < 1024,
        ;
    }
    let t = ((KYBER_Q as u32) * (c as u32) + 512) / 1024;
    proof {
        vstd::arithmetic::div_mod::lemma_div_is_ordered(
            (KYBER_Q as int) * c + 512,
            3406079,
            1024,
        );
    }
    t as u16
}

/// The four-bit quantization is within its bounded error: reconstruction
/// differs from the original coefficient, as a residue modulo the
/// modulus, by at most 104 in either direction.
pub proof fn lemma_decompress4_error(x: u16)
    requires
        x < KYBER_Q,
    ensures
        ({
            let y = spec_decompress4(spec_compress4(x)) as int;
            let e = (y - x) % (KYBER_Q as int);
            e <= 104 || e >= KYBER_Q - 104
        }),
{
    let q = KYBER_Q as int;
    let t = 16 * (x as int) + 1664;
    let cp = t / q;
    vstd::arithmetic::div_mod::lemma_fundamental_div_mod(t, q);
    vstd::arithmetic::div_mod::lemma_div_is_ordered(t, 54912, q);
    assert(54912int / q == 16);
    assert(0 <= cp <= 16) by (nonlinear_arith)
        requires
            t == q * cp + t % q,
            0 <= t % q < q,
            0 <= t,
            cp <= 16,
    ;
    if cp < 16 {
        vstd::arithmetic::div_mod::lemma_small_mod(cp as nat, 16);
        assert(spec_compress4(x) == cp);
        let u = q * cp + 8;
        let y = u / 16;
        vstd::arithmetic::div_mod::lemma_fundamental_div_mod(u, 16);
        assert(16 * y <= u <= 16 * y + 15);
        assert(q * cp <= t) by (nonlinear_arith)
            requires
                t == q * cp + t % q,
                0 <= t % q,
        ;
        assert(q * cp > t - q) by (nonlinear_arith)
            requires
                t == q * cp + t % q,
                t % q < q,
        ;
        assert(16 * y <= 16 * (x as int) + 1672);
        assert(16 * y >= 16 * (x as int) + 1664 - q + 1 - 7);
        assert(x - 104 <= y <= x + 104) by (nonlinear_arith)
            requires
                16 * y <= 16 * (x as int) + 1672,
                16 * y >= 16 * (x as int) - 1671,
        ;
        assert(spec_decompress4(spec_compress4(x)) == y);
        if y >= x {
            vstd::arithmetic::div_mod::lemma_small_mod((y - x) as nat, q as nat);
        } else {
            lemma_mod_multiples_vanish(1, y - x, q);
            vstd::arithmetic::div_mod::lemma_small_mod((y - x + q) as nat, q as nat);
        }
    } else {
        assert(q * cp == 53264) by (nonlinear_arith)
            requires
                cp == 16,
                q == 3329,
        ;
        assert(16 * (x as int) >= 51600);
        assert(x >= 3225) by (nonlinear_arith)
            requires
                16 * (x as int) >= 51600,
        ;
        assert(spec_compress4(x) == 0) by {
            vstd::arithmetic::div_mod::lemma_fundamental_div_mod_converse(16, 16, 1, 0);
        }
        assert(spec_decompress4(0) == 0);
        lemma_mod_multiples_vanish(1, 0 - (x as int), q);
        vstd::arithmetic::div_mod::lemma_small_mod((q - x) as nat, q as nat);
    }
}

/// The ten-bit quantization is within its bounded error: reconstruction
/// differs from the original coefficient, as a residue modulo the
/// modulus, by at most 2 in either direction.
pub proof fn lemma_decompress10_error(x: u16)
    requires
        x < KYBER_Q,
    ensures
        ({
            let y = spec_decompress10(spec_compress10(x)) as int;
            let e = (y - x) % (KYBER_Q as int);
            e <= 2 || e >= KYBER_Q - 2
        }),
{
    let q = KYBER_Q as int;
    let t = 1024 * (x as int) + 1664;
    let cp = t / q;
    vstd::arithmetic::div_mod::lemma_fundamental_div_mod(t, q);
    vstd::arithmetic::div_mod::lemma_div_is_ordered(t, 3409536, q);
    assert(3409536int / q == 1024);
    assert(0 <= cp <= 1024) by (nonlinear_arith)
        requires
            t == q * cp + t % q,
            0 <= t % q < q,
            0 <= t,
            cp <= 1024,
    ;
    if cp < 1024 {
        vstd::arithmetic::div_mod::lemma_small_mod(cp as nat, 1024);
        assert(spec_compress10(x) == cp);
        let u = q * cp + 512;
        let y = u / 1024;
        vstd::arithmetic::div_mod::lemma_fundamental_div_mod(u, 1024);
        assert(1024 * y <= u <= 1024 * y + 1023);
        assert(q * cp <= t) by (nonlinear_arith)
            requires
                t == q * cp + t % q,
                0 <= t % q,
        ;
        assert(q * cp > t - q) by (nonlinear_arith)
            requires
                t == q * cp + t % q,
                t % q < q,
        ;
        assert(1024 * y <= 1024 * (x as int) + 2176);
        assert(1024 * y >= 1024 * (x as int) + 1664 - q + 1 - 1023);
        assert(x - 2 <= y <= x + 2) by (nonlinear_arith)
            requires
                1024 * y <= 1024 * (x as int) + 2176,
                1024 * y >= 1024 * (x as int) - 2687,
        ;
        assert(spec_decompress10(spec_compress10(x)) == y);
        if y >= x {
            vstd::arithmetic::div_mod::lemma_small_mod((y - x) as nat, q as nat);
        } else {
            lemma_mod_multiples_vanish(1, y - x, q);
            vstd::arithmetic::div_mod::lemma_small_mod((y - x + q) as nat, q as nat);
        }
    } else {
        assert(q * cp == 3408896) by (nonlinear_arith)
            requires
                cp == 1024,
                q == 3329,
        ;
        assert(1024 * (x as int) >= 3407232);
        assert(x >= 3328) by (nonlinear_arith)
            requires
                1024 * (x as int) >= 3407232,
        ;
        assert(spec_compress10(x) == 0) by {
            vstd::arithmetic::div_mod::lemma_fundamental_div_mod_converse(1024, 1024, 1, 0);
        }
        assert(spec_decompress10(0) == 0);
        lemma_mod_multiples_vanish(1, 0 - (x as int), q);
        vstd::arithmetic::div_mod::lemma_small_mod((q - x) as nat, q as nat);
    }
}

/// The pseudorandom byte stream that drives one noise draw.
pub open spec fn prf_seq(seed: Seq<u8>, nonce: u8) -> Seq<u8> {
    Seq::new((KYBER_N / 2) as nat, |i: int| prf_byte(seed, nonce, i))
}

/// The centered binomial draw of one coefficient from its nibble: the
/// count of the two low bits less the count of the two high bits, as a
/// canonical representative.
pub open spec fn spec_cbd_coeff(byte: u8, sh: u8) -> u16 {
    let a = ((byte >> sh) & 1) + ((byte >> (sh + 1)) & 1);
    let b = ((byte >> (sh + 2)) & 1) + ((byte >> (sh + 3)) & 1);
    ((a - b) % (KYBER_Q as int)) as u16
}

/// The noise polynomial drawn from a byte stream: coefficient `i` comes
/// from nibble `i % 2` of byte `i / 2`.
pub open spec fn spec_cbd(bytes: Seq<u8>) -> Seq<u16> {
    Seq::new(
        KYBER_N as nat,
        |i: int| spec_cbd_coeff(bytes[i / 2], if i % 2 == 0 { 0u8 } else { 4u8 }),
    )
}

/// Samples a centered noise polynomial from `seed` and `nonce`,
/// deterministically through the pseudorandom function.
pub fn poly_getnoise(seed: &[u8], nonce: u8) -> (r: Poly)
    ensures
        r@ == spec_cbd(prf_seq(seed@, nonce)),
        poly_wf(r@),
{
    let bytes = prf(seed, nonce, KYBER_N / 2);
    proof {
        assert(bytes@ =~= prf_seq(seed@, nonce));
    }
    let mut out: Vec<u16> = Vec::new();
    let mut i: usize = 0;
    while i < KYBER_N
        invariant
            bytes@ == prf_seq(seed@, nonce),
            bytes@.len() == KYBER_N / 2,
            i <= KYBER_N,
            out@.len() == i,
            forall|k: int| 0 <= k < i ==> out@[k] == spec_cbd(bytes@)[k],
        decreases KYBER_N - i,
    {
        let byte = bytes[i / 2];
        let sh: u8 = if i % 2 == 0 {
            0
        } else {
            4
        };
        let a = (((byte >> sh) & 1) as u16) + (((byte >> (sh + 1)) & 1) as u16);
        let b = (((byte >> (sh + 2)) & 1) as u16) + (((byte >> (sh + 3)) & 1) as u16);
        let c = (a + KYBER_Q - b) % KYBER_Q;
        proof {
            lemma_mod_multiples_vanish(1, a - b, KYBER_Q as int);
            assert(c == spec_cbd(bytes@)[i as int]);
        }
        out.push(c);
        i += 1;
    }
    let r = Poly { coeffs: out };
    proof {
        assert(r@ =~= spec_cbd(bytes@));
    }
    r
}

/// Byte `k` of the exact twelve-bit codec: coefficient pair `(c0, c1)` of
/// group `k / 3` laid out little-endian across three bytes.
pub open spec fn pack12_byte(p: Seq<u16>, k: int) -> u8 {
    let g = k / 3;
    let c0 = p[2 * g];
    let c1 = p[2 * g + 1];
    if k % 3 == 0 {
        (c0 & 0xff) as u8
    } else if k % 3 == 1 {
        ((c0 >> 8) | ((c1 & 0xf) << 4)) as u8
    } else {
        (c1 >> 4) as u8
    }
}

/// The exact byte encoding of a polynomial: twelve bits per coefficient.
pub open spec fn spec_poly_tobytes(p: Seq<u16>) -> Seq<u8> {
    Seq::new(KYBER_POLYBYTES as nat, |k: int| pack12_byte(p, k))
}

/// Coefficient `j` read back from the twelve-bit codec, reduced to its
/// canonical representative.
pub open spec fn unpack12_coeff(b: Seq<u8>, j: int) -> u16 {
    let g = j / 2;
    if j % 2 == 0 {
        ((((b[3 * g] as u16) | (((b[3 * g + 1] as u16) & 0xf) << 8)) as int) % (
        KYBER_Q as int)) as u16
    } else {
        ((((b[3 * g + 1] as u16) >> 4) | ((b[3 * g + 2] as u16) << 4)) as int % (
        KYBER_Q as int)) as u16
    }
}

/// The polynomial read back from the exact codec.
pub open spec fn spec_poly_frombytes(b: Seq<u8>) -> Seq<u16> {
    Seq::new(KYBER_N as nat, |j: int| unpack12_coeff(b, j))
}

/// Serializes a polynomial: twelve bits per coefficient.
pub fn poly_tobytes(p: &Poly) -> (r: Vec<u8>)
    requires
        poly_wf(p@),
    ensures
        r@ == spec_poly_tobytes(p@),
        r@.len() == KYBER_POLYBYTES,
{
    let mut out: Vec<u8> = Vec::new();
    let mut g: usize = 0;
    while g < KYBER_N / 2
        invariant
            poly_wf(p@),
            g <= KYBER_N / 2,
            out@.len() == 3 * g,
            forall|k: int| 0 <= k < 3 * g ==> out@[k] == pack12_byte(p@, k),
        decreases KYBER_N / 2 - g,
    {
        let c0 = p.coeffs[2 * g];
        let c1 = p.coeffs[2 * g + 1];
        proof {
            assert(c0 & 0xff < 256) by (bit_vector);
            assert((c0 >> 8) | ((c1 & 0xf) << 4) < 256) by (bit_vector)
                requires
                    c0 < 3329,
            ;
            assert(c1 >> 4 < 256) by (bit_vector)
                requires
                    c1 < 3329,
            ;
            vstd::arithmetic::div_mod::lemma_fundamental_div_mod_converse(3 * g, 3, g as int, 0);
            vstd::arithmetic::div_mod::lemma_fundamental_div_mod_converse(
                3 * g + 1,
                3,
                g as int,
                1,
            );
            vstd::arithmetic::div_mod::lemma_fundamental_div_mod_converse(
                3 * g + 2,
                3,
                g as int,
                2,
            );
        }
        out.push((c0 & 0xff) as u8);
        out.push(((c0 >> 8) | ((c1 & 0xf) << 4)) as u8);
        out.push((c1 >> 4) as u8);
        g += 1;
    }
    proof {
        assert(out@ =~= spec_poly_tobytes(p@));
    }
    out
}

/// Reads a polynomial back from the exact codec, starting at `off`;
/// decoded coefficients are reduced to canonical representatives, so an
/// encoding produced by the codec decodes to itself exactly.
pub fn poly_frombytes(bytes: &[u8], off: usize) -> (r: Poly)
    requires
        off + KYBER_POLYBYTES <= bytes@.len(),
    ensures
        r@ == spec_poly_frombytes(bytes@.subrange(off as int, off + KYBER_POLYBYTES)),
        poly_wf(r@),
{
    let ghost window = bytes@.subrange(off as int, off + KYBER_POLYBYTES);
    let n = bytes.len();
    let mut out: Vec<u16> = Vec::new();
    let mut g: usize = 0;
    while g < KYBER_N / 2
        invariant
            n == bytes@.len(),
            off + KYBER_POLYBYTES <= bytes@.len(),
            window == bytes@.subrange(off as int, off + KYBER_POLYBYTES),
            g <= KYBER_N / 2,
            out@.len() == 2 * g,
            forall|j: int| 0 <= j < 2 * g ==> out@[j] == unpack12_coeff(window, j),
        decreases KYBER_N / 2 - g,
    {
        let b0 = bytes[off + 3 * g] as u16;
        let b1 = bytes[off + 3 * g + 1] as u16;
        let b2 = bytes[off + 3 * g + 2] as u16;
        let c0 = (b0 | ((b1 & 0xf) << 8)) % KYBER_Q;
        let c1 = ((b1 >> 4) | (b2 << 4)) % KYBER_Q;
        proof {
            vstd::arithmetic::div_mod::lemma_fundamental_div_mod_converse(2 * g, 2, g as int, 0);
            vstd::arithmetic::div_mod::lemma_fundamental_div_mod_converse(
                2 * g + 1,
                2,
                g as int,
                1,
            );
            assert(window[3 * g] == bytes@[off + 3 * g]);
            assert(window[3 * g + 1] == bytes@[off + 3 * g + 1]);
            assert(window[3 * g + 2] == bytes@[off + 3 * g + 2]);
        }
        out.push(c0);
        out.push(c1);
        g += 1;
    }
    let r = Poly { coeffs: out };
    proof {
        assert(r@ =~= spec_poly_frombytes(window));
    }
    r
}

/// The exact codec round-trips: decoding an encoding of a well-formed
/// polynomial returns that polynomial.
#[verifier::rlimit(100)]
pub proof fn lemma_poly_codec_round_trip(p: Seq<u16>)
    requires
        poly_wf(p),
    ensures
        spec_poly_frombytes(spec_poly_tobytes(p)) == p,
{
    let b = spec_poly_tobytes(p);
    assert forall|j: int| 0 <= j < KYBER_N implies spec_poly_frombytes(b)[j] == p[j] by {
        let g = j / 2;
        vstd::arithmetic::div_mod::lemma_fundamental_div_mod(j, 2);
        vstd::arithmetic::div_mod::lemma_fundamental_div_mod_converse(3 * g, 3, g, 0);
        vstd::arithmetic::div_mod::lemma_fundamental_div_mod_converse(3 * g + 1, 3, g, 1);
        vstd::arithmetic::div_mod::lemma_fundamental_div_mod_converse(3 * g + 2, 3, g, 2);
        let c0 = p[2 * g];
        let c1 = p[2 * g + 1];
        let y0 = pack12_byte(p, 3 * g);
        let y1 = pack12_byte(p, 3 * g + 1);
        let y2 = pack12_byte(p, 3 * g + 2);
        assert(y0 == (c0 & 0xff) as u8 && y1 == ((c0 >> 8) | ((c1 & 0xf) << 4)) as u8 && y2 == (c1
            >> 4) as u8);
        assert((((c0 & 0xff) as u8 as u16) | (((((c0 >> 8) | ((c1 & 0xf) << 4)) as u8 as u16)
            & 0xf) << 8)) == c0) by (bit_vector)
            requires
                c0 < 3329,
        ;
        assert((((((c0 >> 8) | ((c1 & 0xf) << 4)) as u8 as u16) >> 4) | (((c1 >> 4) as u8 as u16)
            << 4)) == c1) by (bit_vector)
            requires
                c0 < 3329,
                c1 < 3329,
        ;
        vstd::arithmetic::div_mod::lemma_small_mod(c0 as nat, KYBER_Q as nat);
        vstd::arithmetic::div_mod::lemma_small_mod(c1 as nat, KYBER_Q as nat);
    }
    assert(spec_poly_frombytes(spec_poly_tobytes(p)) =~= p);
}

/// Byte `k` of the four-bit lossy codec: two quantized coefficients per
/// byte, low nibble first.
pub open spec fn pack4_byte(p: Seq<u16>, k: int) -> u8 {
    (spec_compress4(p[2 * k]) | (spec_compress4(p[2 * k + 1]) << 4)) as u8
}

/// The lossy byte encoding of a polynomial at four bits per coefficient.
pub open spec fn spec_poly_compress(p: Seq<u16>) -> Seq<u8> {
    Seq::new(KYBER_POLYCOMPRESSEDBYTES as nat, |k: int| pack4_byte(p, k))
}

/// Coefficient `j` reconstructed from the four-bit lossy codec.
pub open spec fn unpack4_coeff(b: Seq<u8>, j: int) -> u16 {
    if j % 2 == 0 {
        spec_decompress4((b[j / 2] & 0xf) as u16)
    } else {
        spec_decompress4((b[j / 2] >> 4) as u16)
    }
}

/// The polynomial reconstructed from the four-bit lossy codec.
pub open spec fn spec_poly_decompress(b: Seq<u8>) -> Seq<u16> {
    Seq::new(KYBER_N as nat, |j: int| unpack4_coeff(b, j))
}

/// Quantizes a polynomial to four bits per coefficient and packs it.
pub fn poly_compress(p: &Poly) -> (r: Vec<u8>)
    requires
        poly_wf(p@),
    ensures
        r@ == spec_poly_compress(p@),
        r@.len() == KYBER_POLYCOMPRESSEDBYTES,
{
    let mut out: Vec<u8> = Vec::new();
    let mut k: usize = 0;
    while k < KYBER_POLYCOMPRESSEDBYTES
        invariant
            poly_wf(p@),
            k <= KYBER_POLYCOMPRESSEDBYTES,
            out@.len() == k,
            forall|t: int| 0 <= t < k ==> out@[t] == pack4_byte(p@, t),
        decreases KYBER_POLYCOMPRESSEDBYTES - k,
    {
        let t0 = compress4(p.coeffs[2 * k]);
        let t1 = compress4(p.coeffs[2 * k + 1]);
        proof {
            assert(t0 | (t1 << 4) < 256) by (bit_vector)
                requires
                    t0 < 16,
                    t1 < 16,
            ;
        }
        out.push((t0 | (t1 << 4)) as u8);
        k += 1;
    }
    proof {
        assert(out@ =~= spec_poly_compress(p@));
    }
    out
}

/// Unpacks a four-bit lossy encoding, starting at `off`, and reconstructs
/// each coefficient.
pub fn poly_decompress(bytes: &[u8], off: usize) -> (r: Poly)
    requires
        off + KYBER_POLYCOMPRESSEDBYTES <= bytes@.len(),
    ensures
        r@ == spec_poly_decompress(bytes@.subrange(off as int, off + KYBER_POLYCOMPRESSEDBYTES)),
        poly_wf(r@),
{
    let ghost window = bytes@.subrange(off as int, off + KYBER_POLYCOMPRESSEDBYTES);
    let n = bytes.len();
    let mut out: Vec<u16> = Vec::new();
    let mut k: usize = 0;
    while k < KYBER_POLYCOMPRESSEDBYTES
        invariant
            n == bytes@.len(),
            off + KYBER_POLYCOMPRESSEDBYTES <= bytes@.len(),
            window == bytes@.subrange(off as int, off + KYBER_POLYCOMPRESSEDBYTES),
            k <= KYBER_POLYCOMPRESSEDBYTES,
            out@.len() == 2 * k,
            forall|j: int| 0 <= j < 2 * k ==> out@[j] == unpack4_coeff(window, j),
            forall|j: int| 0 <= j < 2 * k ==> out@[j] < KYBER_Q,
        decreases KYBER_POLYCOMPRESSEDBYTES - k,
    {
        let byte = bytes[off + k];
        proof {
            assert(byte & 0xf < 16) by (bit_vector);
            assert(byte >> 4 < 16) by (bit_vector);
            vstd::arithmetic::div_mod::lemma_fundamental_div_mod_converse(2 * k, 2, k as int, 0);
            vstd::arithmetic::div_mod::lemma_fundamental_div_mod_converse(
                2 * k + 1,
                2,
                k as int,
                1,
            );
            assert(window[k as int] == bytes@[off + k]);
        }
        let c0 = decompress4((byte & 0xf) as u16);
        let c1 = decompress4((byte >> 4) as u16);
        out.push(c0);
        out.push(c1);
        k += 1;
    }
    let r = Poly { coeffs: out };
    proof {
        assert(r@ =~= spec_poly_decompress(window));
    }
    r
}

/// Decoding a four-bit lossy encoding reconstructs exactly the quantized
/// coefficients: the only loss is the quantization itself.
pub proof fn lemma_poly_compress_round_trip(p: Seq<u16>)
    requires
        poly_wf(p),
    ensures
        spec_poly_decompress(spec_poly_compress(p)) == Seq::new(
            KYBER_N as nat,
            |j: int| spec_decompress4(spec_compress4(p[j])),
        ),
{
    let b = spec_poly_compress(p);
    let rhs = Seq::new(KYBER_N as nat, |j: int| spec_decompress4(spec_compress4(p[j])));
    assert forall|j: int| 0 <= j < KYBER_N implies spec_poly_decompress(b)[j] == rhs[j] by {
        let g = j / 2;
        vstd::arithmetic::div_mod::lemma_fundamental_div_mod(j, 2);
        let t0 = spec_compress4(p[2 * g]);
        let t1 = spec_compress4(p[2 * g + 1]);
        assert(((t0 | (t1 << 4)) as u8) & 0xf == t0 && ((t0 | (t1 << 4)) as u8) >> 4 == t1)
            by (bit_vector)
            requires
                t0 < 16,
                t1 < 16,
        ;
    }
    assert(spec_poly_decompress(b) =~= rhs);
}

} // verus!
