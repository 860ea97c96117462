//! IND-CPA-secure lattice-based public-key encryption: key generation,
//! encryption, decryption, and the fixed-size byte encodings for keys and
//! ciphertexts, built over deterministic matrix expansion by rejection
//! sampling from an extendable-output function.

pub mod indcpa;
pub mod params;
pub mod poly;
pub mod polyvec;
pub mod sampler;
pub mod symmetric;
