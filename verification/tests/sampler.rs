use indcpa::params::{KYBER_K, KYBER_N, KYBER_Q};
use indcpa::sampler::{rej_uniform, gen_a, gen_at, gen_matrix};

#[test]
fn rej_uniform_empty_buffer_yields_nothing() {
    let out = rej_uniform(KYBER_N, &[]);
    assert_eq!(out.len(), 0);
}

#[test]
fn rej_uniform_samples_are_canonical_and_capped() {
    let buf: Vec<u8> = (0..2048u32).map(|i| (i * 97 % 256) as u8).collect();
    let out = rej_uniform(100, &buf);
    assert!(out.len() <= 100);
    for &s in out.iter() {
        assert!(s < KYBER_Q);
    }
}

#[test]
fn rej_uniform_known_values() {
    // 0x0000 is accepted and reduces to 0.
    assert_eq!(rej_uniform(4, &[0x00, 0x00]), vec![0]);
    // 0xffff lies above the rejection bound and is discarded.
    assert_eq!(rej_uniform(4, &[0xff, 0xff]).len(), 0);
    // 0x0d01 little-endian is exactly the modulus and reduces to 0.
    assert_eq!(rej_uniform(4, &[0x01, 0x0d]), vec![0]);
    // 0x0d02 is the modulus plus one and reduces to 1.
    assert_eq!(rej_uniform(4, &[0x02, 0x0d]), vec![1]);
    // An accepted pair after a rejected pair still lands first.
    assert_eq!(rej_uniform(4, &[0xff, 0xff, 0x05, 0x00]), vec![5]);
}

#[test]
fn gen_matrix_entries_are_canonical() {
    let seed = [7u8; 32];
    let a = gen_a(&seed);
    assert_eq!(a.len(), KYBER_K);
    for row in a.iter() {
        assert_eq!(row.vec.len(), KYBER_K);
        for p in row.vec.iter() {
            assert_eq!(p.coeffs.len(), KYBER_N);
            for &c in p.coeffs.iter() {
                assert!(c < KYBER_Q);
            }
        }
    }
}

#[test]
fn gen_matrix_transpose_consistency() {
    let seed = [42u8; 32];
    let a = gen_a(&seed);
    let at = gen_at(&seed);
    for i in 0..KYBER_K {
        for j in 0..KYBER_K {
            assert_eq!(at[i].vec[j].coeffs, a[j].vec[i].coeffs);
        }
    }
}

#[test]
fn gen_matrix_is_deterministic() {
    let seed = [99u8; 32];
    let a1 = gen_matrix(&seed, false);
    let a2 = gen_matrix(&seed, false);
    for i in 0..KYBER_K {
        for j in 0..KYBER_K {
            assert_eq!(a1[i].vec[j].coeffs, a2[i].vec[j].coeffs);
        }
    }
}

#[test]
fn gen_matrix_depends_on_seed_and_coordinates() {
    let a = gen_a(&[1u8; 32]);
    let b = gen_a(&[2u8; 32]);
    assert_ne!(a[0].vec[0].coeffs, b[0].vec[0].coeffs);
    assert_ne!(a[0].vec[0].coeffs, a[0].vec[1].coeffs);
}
