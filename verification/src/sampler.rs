//! Uniform rejection sampling from an extendable-output stream, and the
//! deterministic expansion of the public matrix from a seed.

use vstd::prelude::*;
use vstd::arithmetic::div_mod::{lemma_fundamental_div_mod, lemma_fundamental_div_mod_converse,
    lemma_mod_multiples_vanish, lemma_small_mod, lemma_div_is_ordered};
use crate::params::{KYBER_K, KYBER_N, KYBER_Q, KYBER_SYMBYTES, REJ_BOUND, XOF_BLOCKBYTES,
    GEN_MATRIX_NBLOCKS, GEN_MATRIX_CAP_BYTES};
use crate::poly::{Poly, poly_wf};
use crate::polyvec::{Polyvec, polyvec_wf};
use crate::symmetric::{xof_byte, xof_squeeze};

verus! {

/// The little-endian 16-bit value of byte pair `t` of a buffer.
pub open spec fn pair_val(b: Seq<u8>, t: int) -> u16 {
    (b[2 * t] as u16) | ((b[2 * t + 1] as u16) << 8)
}

/// The samples accepted from the first `k` byte pairs of a buffer, in
/// order: a pair's value is kept, reduced to its canonical
/// representative, exactly when it lies below the rejection bound.
pub open spec fn accepted_from(b: Seq<u8>, k: nat) -> Seq<u16>
    decreases k,
{
    if k == 0 {
        Seq::empty()
    } else {
        let prev = accepted_from(b, (k - 1) as nat);
        let v = pair_val(b, k - 1);
        if v < REJ_BOUND {
            prev.push(((v as int) % (KYBER_Q as int)) as u16)
        } else {
            prev
        }
    }
}

/// Every accepted sample is a canonical representative.
pub proof fn lemma_accepted_bounded(b: Seq<u8>, k: nat)
    ensures
        forall|i: int| 0 <= i < accepted_from(b, k).len() ==> accepted_from(b, k)[i] < KYBER_Q,
    decreases k,
{
    if k > 0 {
        lemma_accepted_bounded(b, (k - 1) as nat);
        let prev = accepted_from(b, (k - 1) as nat);
        let v = pair_val(b, k - 1);
        if v < REJ_BOUND {
            assert(0 <= (v as int) % (KYBER_Q as int) < KYBER_Q);
            assert(accepted_from(b, k) == prev.push(((v as int) % (KYBER_Q as int)) as u16));
            assert(forall|i: int|
                0 <= i < prev.len() ==> accepted_from(b, k)[i] == prev[i]);
        }
    }
}

/// Reading more pairs only extends the accepted sequence: the samples
/// accepted from a prefix are a prefix of those accepted from the whole.
pub proof fn lemma_accepted_prefix(b: Seq<u8>, k1: nat, k2: nat)
    requires
        k1 <= k2,
    ensures
        accepted_from(b, k1).len() <= accepted_from(b, k2).len(),
        accepted_from(b, k2).take(accepted_from(b, k1).len() as int) == accepted_from(b, k1),
    decreases k2 - k1,
{
    if k1 == k2 {
        assert(accepted_from(b, k2).take(accepted_from(b, k1).len() as int) =~= accepted_from(
            b,
            k1,
        ));
    } else {
        lemma_accepted_prefix(b, k1, (k2 - 1) as nat);
        assert(accepted_from(b, k2).take(accepted_from(b, k1).len() as int) =~= accepted_from(
            b,
            k1,
        ));
    }
}

/// The accepted samples depend only on the bytes actually read.
pub proof fn lemma_accepted_agree(b1: Seq<u8>, b2: Seq<u8>, k: nat)
    requires
        forall|i: int| 0 <= i < 2 * k ==> b1[i] == b2[i],
    ensures
        accepted_from(b1, k) == accepted_from(b2, k),
    decreases k,
{
    if k > 0 {
        lemma_accepted_agree(b1, b2, (k - 1) as nat);
    }
}

/// Runs rejection sampling over a byte buffer: scans it two bytes at a
/// time and accepts until `len` samples are gathered or the buffer is
/// exhausted.  The result is exactly the leading accepted samples of the
/// buffer, capped at `len`; every sample is a canonical representative.
pub fn rej_uniform(len: usize, buf: &[u8]) -> (r: Vec<u16>)
    ensures
        ({
            let full = accepted_from(buf@, (buf@.len() / 2) as nat);
            &&& r@.len() <= len
            &&& r@.len() as int == (if full.len() >= len {
                len as int
            } else {
                full.len() as int
            })
            &&& r@ == full.take(r@.len() as int)
            &&& forall|i: int| 0 <= i < r@.len() ==> r@[i] < KYBER_Q
            &&& buf@.len() == 0 ==> r@.len() == 0
        }),
{
    let n = buf.len();
    let mut out: Vec<u16> = Vec::new();
    let mut pos: usize = 0;
    while out.len() < len && n - pos >= 2
        invariant
            n == buf@.len(),
            pos % 2 == 0,
            pos <= n,
            out@ == accepted_from(buf@, (pos / 2) as nat),
            out@.len() <= len,
            forall|i: int| 0 <= i < out@.len() ==> out@[i] < KYBER_Q,
        decreases n - pos,
    {
        let val: u16 = (buf[pos] as u16) | ((buf[pos + 1] as u16) << 8);
        proof {
            lemma_fundamental_div_mod(pos as int, 2);
            assert(pair_val(buf@, (pos / 2) as int) == val);
        }
        if val < REJ_BOUND {
            let k = val >> 12;
            proof {
                assert(k < 16 && k * 3329 <= val) by (bit_vector)
                    requires
                        k == val >> 12,
                        val < 63251,
                ;
            }
            let mut t = val - k * KYBER_Q;
            proof {
                lemma_mod_multiples_vanish(-(k as int), val as int, KYBER_Q as int);
            }
            while t >= KYBER_Q
                invariant
                    (t as int) % (KYBER_Q as int) == (val as int) % (KYBER_Q as int),
                decreases t,
            {
                t = t - KYBER_Q;
                proof {
                    lemma_mod_multiples_vanish(-1, t as int, KYBER_Q as int);
                }
            }
            proof {
                lemma_small_mod(t as nat, KYBER_Q as nat);
            }
            out.push(t);
        }
        pos += 2;
        proof {
            lemma_fundamental_div_mod_converse(pos as int, 2, (pos / 2) as int, 0);
        }
    }
    proof {
        let full = accepted_from(buf@, (n / 2) as nat);
        lemma_div_is_ordered(pos as int, n as int, 2);
        lemma_accepted_prefix(buf@, (pos / 2) as nat, (n / 2) as nat);
        if out.len() != len {
            assert(n - pos < 2);
            if pos == n {
            } else {
                assert(n == pos + 1);
                lemma_fundamental_div_mod_converse(n as int, 2, (pos / 2) as int, 1);
            }
            assert((pos / 2) as nat == (n / 2) as nat);
            assert(out@ =~= full.take(out@.len() as int));
        }
    }
    out
}

/// The first `n` bytes of the extendable output stream for `seed` and
/// the coordinate pair `(x, y)`.
pub open spec fn xof_seq(seed: Seq<u8>, x: u8, y: u8, n: int) -> Seq<u8> {
    Seq::new(n as nat, |i: int| xof_byte(seed, x, y, i))
}

/// The matrix entry expanded from `seed` at coordinates `(x, y)`: the
/// first `KYBER_N` samples accepted from the entry's output stream,
/// bounded by the squeeze ceiling.  Were the ceiling ever reached — it
/// cannot be in practice — the remaining coefficients would be zero.
pub open spec fn gen_entry(seed: Seq<u8>, x: u8, y: u8) -> Seq<u16> {
    let acc = accepted_from(
        xof_seq(seed, x, y, GEN_MATRIX_CAP_BYTES as int),
        (GEN_MATRIX_CAP_BYTES / 2) as nat,
    );
    if acc.len() >= KYBER_N {
        acc.take(KYBER_N as int)
    } else {
        acc + Seq::new((KYBER_N - acc.len()) as nat, |i: int| 0u16)
    }
}

/// Every matrix entry is a well-formed polynomial.
pub proof fn lemma_gen_entry_wf(seed: Seq<u8>, x: u8, y: u8)
    ensures
        poly_wf(gen_entry(seed, x, y)),
{
    lemma_accepted_bounded(
        xof_seq(seed, x, y, GEN_MATRIX_CAP_BYTES as int),
        (GEN_MATRIX_CAP_BYTES / 2) as nat,
    );
}

/// Samples one matrix entry: squeezes an initial block budget, runs
/// rejection sampling, and squeezes one more block at a time while the
/// polynomial is not yet filled.
fn sample_entry(seed: &[u8], x: u8, y: u8) -> (r: Poly)
    requires
        seed@.len() == KYBER_SYMBYTES,
    ensures
        r@ == gen_entry(seed@, x, y),
        poly_wf(r@),
{
    let mut nbytes: usize = GEN_MATRIX_NBLOCKS * XOF_BLOCKBYTES;
    let buf0 = xof_squeeze(seed, x, y, nbytes);
    proof {
        assert(buf0@ =~= xof_seq(seed@, x, y, nbytes as int));
    }
    let mut samples = rej_uniform(KYBER_N, &buf0);
    while samples.len() < KYBER_N && nbytes < GEN_MATRIX_CAP_BYTES
        invariant
            seed@.len() == KYBER_SYMBYTES,
            672 <= nbytes <= GEN_MATRIX_CAP_BYTES,
            nbytes % 2 == 0,
            samples@.len() <= KYBER_N,
            ({
                let full = accepted_from(xof_seq(seed@, x, y, nbytes as int), (nbytes / 2) as nat);
                &&& samples@.len() as int == (if full.len() >= KYBER_N {
                    KYBER_N as int
                } else {
                    full.len() as int
                })
                &&& samples@ == full.take(samples@.len() as int)
            }),
            forall|i: int| 0 <= i < samples@.len() ==> samples@[i] < KYBER_Q,
        decreases GEN_MATRIX_CAP_BYTES - nbytes,
    {
        nbytes = nbytes + XOF_BLOCKBYTES;
        if nbytes > GEN_MATRIX_CAP_BYTES {
            nbytes = GEN_MATRIX_CAP_BYTES;
        }
        let buf = xof_squeeze(seed, x, y, nbytes);
        proof {
            assert(buf@ =~= xof_seq(seed@, x, y, nbytes as int));
        }
        samples = rej_uniform(KYBER_N, &buf);
    }
    proof {
        let capseq = xof_seq(seed@, x, y, GEN_MATRIX_CAP_BYTES as int);
        let near = xof_seq(seed@, x, y, nbytes as int);
        let k = (nbytes / 2) as nat;
        lemma_fundamental_div_mod(nbytes as int, 2);
        lemma_accepted_agree(near, capseq, k);
        lemma_div_is_ordered(nbytes as int, GEN_MATRIX_CAP_BYTES as int, 2);
        lemma_accepted_prefix(capseq, k, (GEN_MATRIX_CAP_BYTES / 2) as nat);
        let full = accepted_from(near, k);
        let acc = accepted_from(capseq, (GEN_MATRIX_CAP_BYTES / 2) as nat);
        if samples.len() == KYBER_N {
            assert(acc.len() >= KYBER_N);
            assert(samples@ =~= acc.take(KYBER_N as int));
            assert(samples@ == gen_entry(seed@, x, y));
        } else {
            assert(nbytes == GEN_MATRIX_CAP_BYTES);
            assert(full == acc);
            assert(samples@ =~= acc + Seq::new((KYBER_N - acc.len()) as nat, |i: int| 0u16).take(
                0,
            ));
        }
    }
    if samples.len() < KYBER_N {
        let ghost acc = samples@;
        while samples.len() < KYBER_N
            invariant
                acc.len() <= samples@.len() <= KYBER_N,
                samples@ == acc + Seq::new((samples@.len() - acc.len()) as nat, |i: int| 0u16),
                forall|i: int| 0 <= i < samples@.len() ==> samples@[i] < KYBER_Q,
            decreases KYBER_N - samples@.len(),
        {
            samples.push(0u16);
            proof {
                assert(samples@ =~= acc + Seq::new(
                    (samples@.len() - acc.len()) as nat,
                    |i: int| 0u16,
                ));
            }
        }
        proof {
            assert(samples@ =~= gen_entry(seed@, x, y));
        }
    }
    let r = Poly { coeffs: samples };
    proof {
        lemma_gen_entry_wf(seed@, x, y);
    }
    r
}

/// The matrix expanded from a seed: entry `(i, j)` comes from the stream
/// absorbed with coordinates `(i, j)` when building the matrix itself,
/// and `(j, i)` when building its transpose.
pub open spec fn spec_gen_matrix(seed: Seq<u8>, transposed: bool) -> Seq<Seq<Seq<u16>>> {
    Seq::new(
        KYBER_K as nat,
        |i: int|
            Seq::new(
                KYBER_K as nat,
                |j: int|
                    if transposed {
                        gen_entry(seed, j as u8, i as u8)
                    } else {
                        gen_entry(seed, i as u8, j as u8)
                    },
            ),
    )
}

/// The mathematical contents of a matrix held as rows of `Polyvec`.
pub open spec fn mat_view(m: Seq<Polyvec>) -> Seq<Seq<Seq<u16>>> {
    m.map_values(|pv: Polyvec| pv@)
}

/// Deterministically expands the public matrix (or its transpose) from a
/// seed by rejection sampling each entry's extendable-output stream.
pub fn gen_matrix(seed: &[u8], transposed: bool) -> (a: Vec<Polyvec>)
    requires
        seed@.len() == KYBER_SYMBYTES,
    ensures
        mat_view(a@) == spec_gen_matrix(seed@, transposed),
        a@.len() == KYBER_K,
        forall|i: int| 0 <= i < KYBER_K ==> polyvec_wf(#[trigger] a@[i]@),
{
    let mut rows: Vec<Polyvec> = Vec::new();
    let mut i: usize = 0;
    while i < KYBER_K
        invariant
            seed@.len() == KYBER_SYMBYTES,
            i <= KYBER_K,
            rows@.len() == i,
            forall|t: int| 0 <= t < i ==> (#[trigger] rows@[t])@ == spec_gen_matrix(
                seed@,
                transposed,
            )[t] && polyvec_wf(rows@[t]@),
        decreases KYBER_K - i,
    {
        let mut row: Vec<Poly> = Vec::new();
        let mut j: usize = 0;
        while j < KYBER_K
            invariant
                seed@.len() == KYBER_SYMBYTES,
                i < KYBER_K,
                j <= KYBER_K,
                row@.len() == j,
                forall|t: int| 0 <= t < j ==> (#[trigger] row@[t])@ == spec_gen_matrix(
                    seed@,
                    transposed,
                )[i as int][t] && poly_wf(row@[t]@),
            decreases KYBER_K - j,
        {
            let x: u8 = if transposed {
                j as u8
            } else {
                i as u8
            };
            let y: u8 = if transposed {
                i as u8
            } else {
                j as u8
            };
            let p = sample_entry(seed, x, y);
            row.push(p);
            j += 1;
        }
        let pv = Polyvec { vec: row };
        proof {
            assert(pv@ =~= spec_gen_matrix(seed@, transposed)[i as int]);
        }
        rows.push(pv);
        i += 1;
    }
    proof {
        assert(mat_view(rows@) =~= spec_gen_matrix(seed@, transposed));
    }
    rows
}

/// Expands the public matrix itself.
pub fn gen_a(seed: &[u8]) -> (a: Vec<Polyvec>)
    requires
        seed@.len() == KYBER_SYMBYTES,
    ensures
        mat_view(a@) == spec_gen_matrix(seed@, false),
        a@.len() == KYBER_K,
        forall|i: int| 0 <= i < KYBER_K ==> polyvec_wf(#[trigger] a@[i]@),
{
    gen_matrix(seed, false)
}

/// Expands the transpose of the public matrix.
pub fn gen_at(seed: &[u8]) -> (a: Vec<Polyvec>)
    requires
        seed@.len() == KYBER_SYMBYTES,
    ensures
        mat_view(a@) == spec_gen_matrix(seed@, true),
        a@.len() == KYBER_K,
        forall|i: int| 0 <= i < KYBER_K ==> polyvec_wf(#[trigger] a@[i]@),
{
    gen_matrix(seed, true)
}

/// For any seed, the transposed expansion is, entry for entry, the
/// transpose of the plain expansion.
pub proof fn lemma_gen_matrix_transpose(seed: Seq<u8>)
    ensures
        forall|i: int, j: int|
            0 <= i < KYBER_K && 0 <= j < KYBER_K ==> #[trigger] spec_gen_matrix(
                seed,
                true,
            )[i][j] == spec_gen_matrix(seed, false)[j][i],
{
}

/// Matrix expansion is deterministic: any two expansions of the same
/// seed with the same orientation are identical, entry for entry.
pub proof fn lemma_gen_matrix_deterministic(
    a1: Seq<Seq<Seq<u16>>>,
    a2: Seq<Seq<Seq<u16>>>,
    seed: Seq<u8>,
    transposed: bool,
)
    requires
        a1 == spec_gen_matrix(seed, transposed),
        a2 == spec_gen_matrix(seed, transposed),
    ensures
        a1 == a2,
{
}

} // verus!
