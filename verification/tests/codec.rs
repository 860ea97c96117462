use indcpa::indcpa::{pack_pk, unpack_pk, pack_sk, unpack_sk, pack_ciphertext, unpack_ciphertext};
use indcpa::params::{KYBER_K, KYBER_N, KYBER_Q, KYBER_INDCPA_PUBLICKEYBYTES,
    KYBER_INDCPA_SECRETKEYBYTES, KYBER_INDCPA_BYTES};
use indcpa::poly::Poly;
use indcpa::polyvec::Polyvec;

fn sample_polyvec(salt: u16) -> Polyvec {
    let mut polys = Vec::new();
    for i in 0..KYBER_K {
        let mut coeffs = Vec::new();
        for j in 0..KYBER_N {
            coeffs.push(((salt as usize + 37 * i + 11 * j) % (KYBER_Q as usize)) as u16);
        }
        polys.push(Poly { coeffs });
    }
    Polyvec { vec: polys }
}

fn sample_poly(salt: u16) -> Poly {
    let mut coeffs = Vec::new();
    for j in 0..KYBER_N {
        coeffs.push(((salt as usize + 13 * j) % (KYBER_Q as usize)) as u16);
    }
    Poly { coeffs }
}

fn compress10(x: u16) -> u16 {
    (((1024 * (x as u32) + 1664) / (KYBER_Q as u32)) % 1024) as u16
}

fn decompress10(c: u16) -> u16 {
    (((KYBER_Q as u32) * (c as u32) + 512) / 1024) as u16
}

fn compress4(x: u16) -> u16 {
    ((16 * x + KYBER_Q / 2) / KYBER_Q) % 16
}

fn decompress4(c: u16) -> u16 {
    (KYBER_Q * c + 8) / 16
}

#[test]
fn pk_round_trip() {
    let v = sample_polyvec(5);
    let seed: Vec<u8> = (0u8..32).collect();
    let packed = pack_pk(&v, &seed);
    assert_eq!(packed.len(), KYBER_INDCPA_PUBLICKEYBYTES);
    let (v2, seed2) = unpack_pk(&packed).expect("well-sized input must parse");
    assert_eq!(seed2, seed);
    for i in 0..KYBER_K {
        assert_eq!(v2.vec[i].coeffs, v.vec[i].coeffs);
    }
}

#[test]
fn sk_round_trip() {
    let v = sample_polyvec(9);
    let packed = pack_sk(&v);
    assert_eq!(packed.len(), KYBER_INDCPA_SECRETKEYBYTES);
    let v2 = unpack_sk(&packed).expect("well-sized input must parse");
    for i in 0..KYBER_K {
        assert_eq!(v2.vec[i].coeffs, v.vec[i].coeffs);
    }
}

#[test]
fn ciphertext_length_is_fixed() {
    let b1 = sample_polyvec(1);
    let v1 = sample_poly(1);
    let b2 = sample_polyvec(1234);
    let v2 = sample_poly(3000);
    assert_eq!(pack_ciphertext(&b1, &v1).len(), KYBER_INDCPA_BYTES);
    assert_eq!(pack_ciphertext(&b2, &v2).len(), KYBER_INDCPA_BYTES);
}

#[test]
fn ciphertext_round_trip_is_quantization() {
    let b = sample_polyvec(77);
    let v = sample_poly(78);
    let packed = pack_ciphertext(&b, &v);
    let (b2, v2) = unpack_ciphertext(&packed).expect("well-sized input must parse");
    for i in 0..KYBER_K {
        for j in 0..KYBER_N {
            let x = b.vec[i].coeffs[j];
            assert_eq!(b2.vec[i].coeffs[j], decompress10(compress10(x)));
        }
    }
    for j in 0..KYBER_N {
        let x = v.coeffs[j];
        assert_eq!(v2.coeffs[j], decompress4(compress4(x)));
    }
}

#[test]
fn quantization_error_is_bounded() {
    for x in 0..KYBER_Q {
        let y10 = decompress10(compress10(x));
        let e10 = (y10 as i32 - x as i32).rem_euclid(KYBER_Q as i32);
        assert!(e10 <= 2 || e10 >= KYBER_Q as i32 - 2);
        let y4 = decompress4(compress4(x));
        let e4 = (y4 as i32 - x as i32).rem_euclid(KYBER_Q as i32);
        assert!(e4 <= 104 || e4 >= KYBER_Q as i32 - 104);
    }
}

#[test]
fn short_public_key_is_rejected() {
    let short = vec![0u8; KYBER_INDCPA_PUBLICKEYBYTES - 1];
    assert!(unpack_pk(&short).is_none());
    let long = vec![0u8; KYBER_INDCPA_PUBLICKEYBYTES + 1];
    assert!(unpack_pk(&long).is_none());
    let exact = vec![0u8; KYBER_INDCPA_PUBLICKEYBYTES];
    assert!(unpack_pk(&exact).is_some());
}

#[test]
fn wrong_length_sk_and_ciphertext_are_rejected() {
    assert!(unpack_sk(&vec![0u8; KYBER_INDCPA_SECRETKEYBYTES - 1]).is_none());
    assert!(unpack_sk(&vec![0u8; KYBER_INDCPA_SECRETKEYBYTES]).is_some());
    assert!(unpack_ciphertext(&vec![0u8; KYBER_INDCPA_BYTES - 1]).is_none());
    assert!(unpack_ciphertext(&vec![0u8; KYBER_INDCPA_BYTES]).is_some());
}
