use vstd::prelude::*;

pub mod noise;
pub mod params;
pub mod poly;
pub mod skem;
pub mod vec;

pub use skem::{decaps, encaps, gen_a, gen_b, gen_pp, key_to_bytes};
pub use vec::{Matrix, MatrixError};

verus! {

/// Bytes of a seed (the public parameter).
pub const SEED_SIZE_BYTES: usize = 32;

/// Bytes of a private key: `N_BAR * N` coefficients, two bytes each.
pub const SK_SIZE_BYTES: usize = params::N_BAR * params::N * 2;

/// Bytes of a public key: `N * N_BAR` coefficients, two bytes each.
pub const PK_SIZE_BYTES: usize = params::N * params::N_BAR * 2;

/// Bytes of a helper error matrix: `N_BAR * N_BAR` coefficients, two bytes each.
pub const F_SIZE_BYTES: usize = params::N_BAR * params::N_BAR * 2;

/// Bytes of a derived shared secret: 64 nibbles, two per byte.
pub const SS_SIZE_BYTES: usize = 32;

} // verus!
