use vstd::prelude::*;

verus! {

/// Modulus of the coefficient ring.
pub const Q: i32 = 32768;

/// Exclusive bound of the seeded uniform coefficients, which lie in `[0, Q]`.
pub const SEEDED_BOUND: i32 = Q + 1;

/// Main dimension of the public matrix.
pub const N: usize = 1452;

/// Output dimension; a multiple of the multiply kernel's block height.
pub const N_BAR: usize = 8;

/// Bound of the bounded-uniform encapsulation noise: coefficients lie in `[-BETA, BETA]`.
pub const BETA: i32 = 4;

/// Key bits per reconciled coefficient.
pub const B: i32 = 4;

/// Row-block height of the multiply kernel.
pub const BLOCK: usize = 8;

/// Number of coefficients consumed by reconciliation (one per key nibble).
pub const KEY_LEN: usize = 64;

/// Width of one reconciliation cell in the doubled domain `[0, 2Q)`: `Q / 2^B`.
pub const CELL: i32 = 2048;

/// Number of candidate points in the reconciliation table: the cell boundaries
/// `k * CELL` for `k` in `0..=2^(B+1)`. The last one, `2Q`, closes the circle so that a
/// value just below `2Q` sees its neighbour across the wrap-around.
pub const N_CUTOFFS: i32 = 33;

} // verus!
