use vstd::prelude::*;

use rand::distributions::{Distribution, Uniform};
use rand::rngs::{OsRng, StdRng};
use rand::Rng;
use rand::SeedableRng;
use rand_core::RngCore;

use crate::params::{BETA, Q, SEEDED_BOUND};
use crate::vec::Matrix;

verus! {

/// The first `count` values of the stream that `StdRng` seeded with `seed` yields under
/// the uniform distribution on `[0, bound)`.
pub uninterp spec fn seeded_uniform_draws(seed: Seq<u8>, bound: i32, count: nat) -> Seq<i32>;

/// Relies on rand's `Rng::gen::<i32>` on the thread-local generator: any `i32` may come back.
#[verifier::external_body]
fn thread_random_i32() -> (r: i32) {
    rand::thread_rng().gen::<i32>()
}

/// Relies on rand's `Uniform::from(0..n)` sampled with `OsRng`: a value of `[0, n)`.
/// `Uniform::new` panics on an empty range, hence `n > 0`.
#[verifier::external_body]
fn os_uniform_below(n: i32) -> (r: i32)
    requires
        n > 0,
    ensures
        0 <= r < n,
{
    Uniform::from(0..n).sample(&mut OsRng)
}

/// Relies on rand's `Rng::gen::<bool>` on `OsRng`: a fair coin from the operating system.
#[verifier::external_body]
pub(crate) fn os_coin() -> (r: bool) {
    OsRng.gen::<bool>()
}

/// Relies on rand_core's `RngCore::fill_bytes` on `OsRng`: 32 bytes from the operating system.
#[verifier::external_body]
fn os_seed() -> (r: [u8; 32]) {
    let mut seed = [0u8; 32];
    OsRng.fill_bytes(&mut seed);
    seed
}

/// Relies on rand's `StdRng::from_seed` and `Distribution::sample_iter` with
/// `Uniform::from(0..bound)`: the first `count` draws of the deterministic stream that the
/// seed fixes, each in `[0, bound)`. `Uniform::new` panics on an empty range, hence `bound > 0`.
#[verifier::external_body]
fn seeded_uniform_values(seed: [u8; 32], bound: i32, count: usize) -> (r: Vec<i32>)
    requires
        bound > 0,
    ensures
        r@ == seeded_uniform_draws(seed@, bound, count as nat),
        r@.len() == count,
        forall|k: int| 0 <= k < count ==> 0 <= #[trigger] r@[k] < bound,
{
    Uniform::from(0..bound).sample_iter(StdRng::from_seed(seed)).take(count).collect()
}

/// A well-formed `r × c` matrix.
pub open spec fn has_shape(m: Matrix, r: nat, c: nat) -> bool {
    &&& m.wf()
    &&& m.nrows() == r
    &&& m.ncols() == c
}

/// An `r × c` matrix of the error distribution: every coefficient is `1` or `-1`.
pub open spec fn is_chi(m: Matrix, r: nat, c: nat) -> bool {
    &&& has_shape(m, r, c)
    &&& forall|k: int| 0 <= k < r * c ==> #[trigger] m.entries()[k] == 1 || m.entries()[k] == -1
}

/// An `r × c` matrix of the bounded-uniform distribution: coefficients in `[-BETA, BETA]`.
pub open spec fn is_bounded_uniform(m: Matrix, r: nat, c: nat) -> bool {
    &&& has_shape(m, r, c)
    &&& forall|k: int| 0 <= k < r * c ==> -BETA <= #[trigger] m.entries()[k] <= BETA
}

/// The `r × c` matrix that `seed` fixes: its coefficients, row-major, are the first
/// `r * c` draws of the seeded stream on `[0, Q]`.
pub open spec fn is_seeded_uniform(m: Matrix, r: nat, c: nat, seed: Seq<u8>) -> bool {
    &&& has_shape(m, r, c)
    &&& m.entries() == seeded_uniform_draws(seed, SEEDED_BOUND, r * c)
    &&& forall|k: int| 0 <= k < r * c ==> 0 <= #[trigger] m.entries()[k] <= Q
}

/// The `r × c` matrix whose entry `(j, i)` is draw `i * r + j` of the seeded stream: the
/// transpose of the `c × r` matrix that `seed` fixes.
pub open spec fn is_seeded_uniform_transpose(m: Matrix, r: nat, c: nat, seed: Seq<u8>) -> bool {
    &&& has_shape(m, r, c)
    &&& forall|k: int| 0 <= k < r * c ==> 0 <= #[trigger] m.entries()[k] <= Q
    &&& forall|j: int, i: int|
        0 <= j < r && 0 <= i < c ==> #[trigger] m.at(j, i) == seeded_uniform_draws(
            seed,
            SEEDED_BOUND,
            r * c,
        )[i * r + j]
}

/// The error-distribution matrix that raw draws give: coefficient `k` is
/// `1 - 2 * (draws[k] & 1)`, that is `1` for an even draw and `-1` for an odd one.
pub fn chi_from_draws(r: usize, c: usize, draws: &Vec<i32>) -> (m: Matrix)
    requires
        draws@.len() == r * c,
    ensures
        is_chi(m, r as nat, c as nat),
        forall|k: int| 0 <= k < r * c ==> #[trigger] m.entries()[k] == 1 - 2 * (draws@[k] & 1),
{
    let size = draws.len();
    let mut data: Vec<i32> = Vec::with_capacity(size);
    let mut k: usize = 0;
    while k < size
        invariant
            size == draws@.len(),
            k <= size,
            data@.len() == k,
            forall|t: int|
                0 <= t < k ==> #[trigger] data@[t] == 1 - 2 * (draws@[t] & 1) && (data@[t] == 1
                    || data@[t] == -1),
        decreases size - k,
    {
        let x = draws[k];
        let bit = x & 1;
        assert(bit == 0 || bit == 1) by (bit_vector)
            requires
                bit == x & 1,
        ;
        data.push(1 - 2 * bit);
        k = k + 1;
    }
    Matrix::shaped(r, c, data)
}

/// An `r × c` matrix of the error distribution: each coefficient `±1`, from the parity of a
/// draw of the thread-local generator.
pub fn gen_matrix_chi(r: usize, c: usize) -> (m: Matrix)
    requires
        r * c <= usize::MAX,
    ensures
        is_chi(m, r as nat, c as nat),
{
    let size = r * c;
    let mut draws: Vec<i32> = Vec::with_capacity(size);
    let mut k: usize = 0;
    while k < size
        invariant
            size == r * c,
            k <= size,
            draws@.len() == k,
        decreases size - k,
    {
        draws.push(thread_random_i32());
        k = k + 1;
    }
    chi_from_draws(r, c, &draws)
}

/// The bounded-uniform matrix that draws on `[0, 2 BETA]` give: coefficient `k` is
/// `draws[k] - BETA`.
pub fn bounded_uniform_from_draws(r: usize, c: usize, draws: &Vec<i32>) -> (m: Matrix)
    requires
        draws@.len() == r * c,
        forall|k: int| 0 <= k < r * c ==> 0 <= #[trigger] draws@[k] <= 2 * BETA,
    ensures
        is_bounded_uniform(m, r as nat, c as nat),
        forall|k: int| 0 <= k < r * c ==> #[trigger] m.entries()[k] == draws@[k] - BETA,
{
    let size = draws.len();
    let mut data: Vec<i32> = Vec::with_capacity(size);
    let mut k: usize = 0;
    while k < size
        invariant
            size == draws@.len(),
            size == r * c,
            forall|t: int| 0 <= t < r * c ==> 0 <= #[trigger] draws@[t] <= 2 * BETA,
            k <= size,
            data@.len() == k,
            forall|t: int| 0 <= t < k ==> #[trigger] data@[t] == draws@[t] - BETA,
        decreases size - k,
    {
        data.push(draws[k] - BETA);
        k = k + 1;
    }
    Matrix::shaped(r, c, data)
}

/// An `r × c` matrix with coefficients uniform on `[-BETA, BETA]`, drawn from the
/// operating system's generator.
pub fn gen_matrix_uniform_beta(r: usize, c: usize) -> (m: Matrix)
    requires
        r * c <= usize::MAX,
    ensures
        is_bounded_uniform(m, r as nat, c as nat),
{
    let size = r * c;
    let mut draws: Vec<i32> = Vec::with_capacity(size);
    let mut k: usize = 0;
    while k < size
        invariant
            size == r * c,
            k <= size,
            draws@.len() == k,
            forall|t: int| 0 <= t < k ==> 0 <= #[trigger] draws@[t] <= 2 * BETA,
        decreases size - k,
    {
        draws.push(os_uniform_below(2 * BETA + 1));
        k = k + 1;
    }
    bounded_uniform_from_draws(r, c, &draws)
}

/// The `r × c` matrix that `seed` fixes, coefficients uniform on `[0, Q]`, row-major in
/// the order of the seeded stream.
pub fn gen_matrix_uniform_seed(r: usize, c: usize, seed: [u8; 32]) -> (m: Matrix)
    requires
        r * c <= usize::MAX,
    ensures
        is_seeded_uniform(m, r as nat, c as nat, seed@),
{
    let size = r * c;
    let data = seeded_uniform_values(seed, SEEDED_BOUND, size);
    Matrix::shaped(r, c, data)
}

/// The transpose of `gen_matrix_uniform_seed(c, r, seed)`, written directly: the stream is
/// drawn in the same order and each value lands in transposed coordinates.
pub fn gen_matrix_transpose_uniform_seed(r: usize, c: usize, seed: [u8; 32]) -> (m: Matrix)
    requires
        r * c <= usize::MAX,
    ensures
        is_seeded_uniform_transpose(m, r as nat, c as nat, seed@),
{
    let size = r * c;
    let draws = seeded_uniform_values(seed, SEEDED_BOUND, size);
    let mut data: Vec<i32> = Vec::with_capacity(size);
    let mut p: usize = 0;
    while p < size
        invariant
            size == r * c,
            draws@.len() == size,
            p <= size,
            data@.len() == p,
            forall|k: int| 0 <= k < size ==> 0 <= #[trigger] draws@[k] < SEEDED_BOUND,
            forall|q: int| 0 <= q < p ==> #[trigger] data@[q] == draws@[(q % c as int) * r + q / c as int],
            forall|q: int| 0 <= q < p ==> 0 <= #[trigger] data@[q] <= Q,
        decreases size - p,
    {
        let j = p / c;
        let i = p % c;
        proof {
            lemma_transposed_index(p as int, r as int, c as int);
        }
        data.push(draws[i * r + j]);
        p = p + 1;
    }
    let m = Matrix::shaped(r, c, data);
    assert forall|j: int, i: int| 0 <= j < r && 0 <= i < c implies #[trigger] m.at(j, i)
        == seeded_uniform_draws(seed@, SEEDED_BOUND, (r * c) as nat)[i * r + j] by {
        lemma_row_major_index(j, i, r as int, c as int);
    }
    m
}

/// A fresh 32-byte seed from the operating system's generator.
pub fn gen_seed() -> (r: [u8; 32])
    ensures
        r@.len() == 32,
{
    os_seed()
}

/// Position `p` of an `r × c` row-major layout is row `p / c`, column `p % c`; its source
/// index in the transposed draw order, `(p % c) * r + p / c`, lies below `r * c`.
proof fn lemma_transposed_index(p: int, r: int, c: int)
    requires
        0 <= r,
        0 <= c,
        0 <= p < r * c,
    ensures
        c > 0,
        0 <= p / c < r,
        0 <= p % c < c,
        0 <= (p % c) * r + p / c < r * c,
{
    if c == 0 {
        assert(r * c == 0);
    }
    vstd::arithmetic::div_mod::lemma_fundamental_div_mod(p, c);
    assert(0 <= p / c < r && 0 <= (p % c) * r + p / c < r * c) by (nonlinear_arith)
        requires
            c > 0,
            0 <= p < r * c,
            p == c * (p / c) + p % c,
            0 <= p % c < c,
    ;
}

/// Row `j`, column `i` of an `r × c` row-major layout sits at `j * c + i`, which splits back
/// into `j` and `i`.
proof fn lemma_row_major_index(j: int, i: int, r: int, c: int)
    requires
        0 <= j < r,
        0 <= i < c,
    ensures
        0 <= j * c + i < r * c,
        (j * c + i) / c == j,
        (j * c + i) % c == i,
{
    assert(0 <= j * c + i < r * c) by (nonlinear_arith)
        requires
            0 <= j < r,
            0 <= i < c,
    ;
    vstd::arithmetic::div_mod::lemma_fundamental_div_mod_converse(j * c + i, c, j, i);
}

/// Drawing a seeded matrix twice with the same seed and shape gives the same matrix.
pub proof fn lemma_seeded_deterministic(r: nat, c: nat, seed: Seq<u8>, m1: Matrix, m2: Matrix)
    requires
        is_seeded_uniform(m1, r, c, seed),
        is_seeded_uniform(m2, r, c, seed),
    ensures
        m1.nrows() == m2.nrows(),
        m1.ncols() == m2.ncols(),
        m1.entries() == m2.entries(),
{
}

/// The directly transposed seeded matrix `r × c` is the transpose of the seeded `c × r`
/// matrix of the same seed.
pub proof fn lemma_seeded_transpose(r: nat, c: nat, seed: Seq<u8>, t: Matrix, m: Matrix)
    requires
        is_seeded_uniform_transpose(t, r, c, seed),
        is_seeded_uniform(m, c, r, seed),
    ensures
        t.nrows() == m.ncols(),
        t.ncols() == m.nrows(),
        forall|j: int, i: int| 0 <= j < r && 0 <= i < c ==> #[trigger] t.at(j, i) == m.at(i, j),
{
    assert(c * r == r * c) by (nonlinear_arith);
    assert forall|j: int, i: int| 0 <= j < r && 0 <= i < c implies #[trigger] t.at(j, i) == m.at(i, j) by {
        assert(t.at(j, i) == seeded_uniform_draws(seed, SEEDED_BOUND, r * c)[i * r + j]);
    }
}

} // verus!
