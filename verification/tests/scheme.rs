use indcpa::indcpa::{indcpa_keypair, indcpa_keypair_derand, indcpa_enc, indcpa_dec};
use indcpa::params::{KYBER_INDCPA_PUBLICKEYBYTES, KYBER_INDCPA_SECRETKEYBYTES,
    KYBER_INDCPA_BYTES, KYBER_INDCPA_MSGBYTES};
use indcpa::poly::poly_getnoise;

#[test]
fn keypair_derand_is_deterministic() {
    let seed = [11u8; 32];
    let (pk1, sk1) = indcpa_keypair_derand(&seed);
    let (pk2, sk2) = indcpa_keypair_derand(&seed);
    assert_eq!(pk1, pk2);
    assert_eq!(sk1, sk2);
    assert_eq!(pk1.len(), KYBER_INDCPA_PUBLICKEYBYTES);
    assert_eq!(sk1.len(), KYBER_INDCPA_SECRETKEYBYTES);
}

#[test]
fn keypair_depends_on_seed() {
    let (pk1, sk1) = indcpa_keypair_derand(&[1u8; 32]);
    let (pk2, sk2) = indcpa_keypair_derand(&[2u8; 32]);
    assert_ne!(pk1, pk2);
    assert_ne!(sk1, sk2);
}

#[test]
fn encryption_is_deterministic_in_coins() {
    let (pk, _sk) = indcpa_keypair_derand(&[5u8; 32]);
    let m = [0xa5u8; KYBER_INDCPA_MSGBYTES];
    let coins = [9u8; 32];
    let c1 = indcpa_enc(&m, &pk, &coins);
    let c2 = indcpa_enc(&m, &pk, &coins);
    assert_eq!(c1, c2);
    assert_eq!(c1.len(), KYBER_INDCPA_BYTES);
    let other = indcpa_enc(&m, &pk, &[10u8; 32]);
    assert_ne!(c1, other);
}

#[test]
fn zero_and_ones_messages_round_trip() {
    let (pk, sk) = indcpa_keypair_derand(&[1u8; 32]);
    let zero = [0u8; KYBER_INDCPA_MSGBYTES];
    let ones = [0xffu8; KYBER_INDCPA_MSGBYTES];
    let c0 = indcpa_enc(&zero, &pk, &[2u8; 32]);
    let c1 = indcpa_enc(&ones, &pk, &[3u8; 32]);
    assert_eq!(indcpa_dec(&c0, &sk), zero.to_vec());
    assert_eq!(indcpa_dec(&c1, &sk), ones.to_vec());
}

#[test]
fn random_messages_round_trip() {
    // The scheme's decryption-failure probability is far below what any
    // feasible number of trials could exhibit, so every trial must
    // decrypt exactly.
    let mut mismatches = 0usize;
    for _ in 0..25 {
        let seed: [u8; 32] = rand::random();
        let coins: [u8; 32] = rand::random();
        let m: [u8; 32] = rand::random();
        let (pk, sk) = indcpa_keypair_derand(&seed);
        let c = indcpa_enc(&m, &pk, &coins);
        if indcpa_dec(&c, &sk) != m.to_vec() {
            mismatches += 1;
        }
    }
    assert_eq!(mismatches, 0);
}

#[test]
fn fresh_keypair_encrypts_and_decrypts() {
    let (pk, sk) = indcpa_keypair();
    assert_eq!(pk.len(), KYBER_INDCPA_PUBLICKEYBYTES);
    assert_eq!(sk.len(), KYBER_INDCPA_SECRETKEYBYTES);
    let m = [0x5au8; KYBER_INDCPA_MSGBYTES];
    let c = indcpa_enc(&m, &pk, &[77u8; 32]);
    assert_eq!(indcpa_dec(&c, &sk), m.to_vec());
}

#[test]
fn noise_sampling_uses_the_nonce() {
    let seed = [4u8; 32];
    let p0 = poly_getnoise(&seed, 0);
    let p0_again = poly_getnoise(&seed, 0);
    let p1 = poly_getnoise(&seed, 1);
    assert_eq!(p0.coeffs, p0_again.coeffs);
    assert_ne!(p0.coeffs, p1.coeffs);
}
