use vstd::prelude::*;

use crate::noise::{
    gen_matrix_chi, gen_matrix_transpose_uniform_seed, gen_matrix_uniform_beta,
    gen_matrix_uniform_seed, gen_seed, has_shape, is_bounded_uniform, is_chi, is_seeded_uniform,
    is_seeded_uniform_transpose, os_coin,
};
use crate::params::{KEY_LEN, N, N_BAR, Q};
use crate::poly::{
    cell_bit, ct_bit, dither, help_rec_dithered, is_dithered_bit, rec_element, rec_element_spec,
};
use crate::vec::{is_mul_add_transpose, mod_q, Matrix};

verus! {

/// Entry `k` (row-major, 8 columns) of `lhs · rhsᵗ + add` reduced into `[0, Q)`: the
/// approximate shared value that key nibble `k` is reconciled from.
pub open spec fn shared_value(lhs: Matrix, rhs: Matrix, add: Matrix, k: int) -> int {
    mod_q(lhs.row_dot(&rhs, k % 8, k / 8) + add.at(k / 8, k % 8))
}

/// `key` and `ct` come from reconciling the shared values of `lhs · rhsᵗ + add`.
pub open spec fn encapsulates(lhs: Matrix, rhs: Matrix, add: Matrix, key: Seq<i32>, ct: u64) -> bool {
    &&& key.len() == KEY_LEN
    &&& forall|k: int|
        0 <= k < KEY_LEN ==> #[trigger] key[k] == rec_element_spec(
            2 * shared_value(lhs, rhs, add, k),
            ct_bit(ct, k),
        ) && is_dithered_bit(2 * shared_value(lhs, rhs, add, k), ct_bit(ct, k))
}

/// An `8 × 8` product's entries, row-major, are its shared values, each in `[0, Q)`.
proof fn lemma_product_entries(out: Matrix, lhs: Matrix, rhs: Matrix, add: Matrix)
    requires
        is_mul_add_transpose(out, lhs, rhs, add),
        out.nrows() == N_BAR,
        out.ncols() == N_BAR,
    ensures
        out.entries().len() == KEY_LEN,
        forall|k: int|
            0 <= k < KEY_LEN ==> #[trigger] out.entries()[k] == shared_value(lhs, rhs, add, k)
                && 0 <= out.entries()[k] < Q,
{
    assert forall|k: int| 0 <= k < KEY_LEN implies #[trigger] out.entries()[k] == shared_value(
        lhs,
        rhs,
        add,
        k,
    ) && 0 <= out.entries()[k] < Q by {
        vstd::arithmetic::div_mod::lemma_fundamental_div_mod(k, 8);
        assert(out.at(k / 8, k % 8) == out.entries()[k]);
    }
}

/// The public parameter: a fresh 32-byte seed.
pub fn gen_pp() -> (r: [u8; 32])
    ensures
        r@.len() == 32,
{
    gen_seed()
}

/// The initiator's keys `(B, (S, F))`: `S` and `F` from the error distribution, and
/// `B = S · Aᵗ + D` for the public matrix `A` that `seed` fixes and an error matrix `D`.
pub fn gen_a(seed: [u8; 32]) -> (res: (Matrix, (Matrix, Matrix)))
    ensures
        has_shape(res.0, N_BAR as nat, N as nat),
        is_chi(res.1.0, N_BAR as nat, N as nat),
        is_chi(res.1.1, N_BAR as nat, N_BAR as nat),
        exists|a: Matrix, d: Matrix|
            is_seeded_uniform(a, N as nat, N as nat, seed@) && is_chi(d, N_BAR as nat, N as nat)
                && #[trigger] is_mul_add_transpose(res.0, a, res.1.0, d),
{
    let pub_mat = gen_matrix_uniform_seed(N, N, seed);
    let sk_a_t = gen_matrix_chi(N_BAR, N);
    let d_a_t = gen_matrix_chi(N_BAR, N);
    let b_a_t = match pub_mat.mul_add_transpose(&sk_a_t, &d_a_t) {
        Ok(m) => m,
        Err(_) => {
            assert(false);
            d_a_t
        },
    };
    let f_a_t = gen_matrix_chi(N_BAR, N_BAR);
    assert(is_seeded_uniform(pub_mat, N as nat, N as nat, seed@) && is_chi(d_a_t, N_BAR as nat, N as nat)
        && is_mul_add_transpose(b_a_t, pub_mat, sk_a_t, d_a_t));
    let res = (b_a_t, (sk_a_t, f_a_t));
    assert(is_mul_add_transpose(res.0, pub_mat, res.1.0, d_a_t));
    res
}

/// The responder's keys `(B', (S', F'))`: `S'` and `F'` from the error distribution, and
/// `B' = S' · A + D'`, computed from `Aᵗ` drawn directly in transposed form from `seed`.
pub fn gen_b(seed: [u8; 32]) -> (res: (Matrix, (Matrix, Matrix)))
    ensures
        has_shape(res.0, N_BAR as nat, N as nat),
        is_chi(res.1.0, N_BAR as nat, N as nat),
        is_chi(res.1.1, N_BAR as nat, N_BAR as nat),
        exists|at: Matrix, d: Matrix|
            is_seeded_uniform_transpose(at, N as nat, N as nat, seed@) && is_chi(
                d,
                N_BAR as nat,
                N as nat,
            ) && #[trigger] is_mul_add_transpose(res.0, at, res.1.0, d),
{
    let pub_mat_t = gen_matrix_transpose_uniform_seed(N, N, seed);
    let sk_b = gen_matrix_chi(N_BAR, N);
    let d_b_t = gen_matrix_chi(N_BAR, N);
    let b_b = match pub_mat_t.mul_add_transpose(&sk_b, &d_b_t) {
        Ok(m) => m,
        Err(_) => {
            assert(false);
            d_b_t
        },
    };
    let f_b_t = gen_matrix_chi(N_BAR, N_BAR);
    assert(is_seeded_uniform_transpose(pub_mat_t, N as nat, N as nat, seed@) && is_chi(
        d_b_t,
        N_BAR as nat,
        N as nat,
    ) && is_mul_add_transpose(b_b, pub_mat_t, sk_b, d_b_t));
    let res = (b_b, (sk_b, f_b_t));
    assert(is_mul_add_transpose(res.0, pub_mat_t, res.1.0, d_b_t));
    res
}

/// Encapsulation with the noise and the coins given: `V = S' · Bᵗ + E`, reconciled with
/// `coins[2k]`, `coins[2k+1]` dithering value `k`.
pub fn encaps_with(b_a_t: Matrix, sk_b: Matrix, e_b_t: Matrix, coins: &Vec<bool>) -> (res: ([i32; 64], u64))
    requires
        has_shape(b_a_t, N_BAR as nat, b_a_t.ncols()),
        has_shape(sk_b, N_BAR as nat, b_a_t.ncols()),
        has_shape(e_b_t, N_BAR as nat, N_BAR as nat),
        coins@.len() == 2 * KEY_LEN,
    ensures
        encapsulates(sk_b, b_a_t, e_b_t, res.0@, res.1),
        forall|k: int|
            0 <= k < KEY_LEN ==> #[trigger] ct_bit(res.1, k) == cell_bit(
                2 * shared_value(sk_b, b_a_t, e_b_t, k) - dither(coins@[2 * k], coins@[2 * k + 1]),
            ),
{
    let v_t = match sk_b.mul_add_transpose(&b_a_t, &e_b_t) {
        Ok(m) => m,
        Err(_) => {
            assert(false);
            e_b_t
        },
    };
    proof {
        lemma_product_entries(v_t, sk_b, b_a_t, e_b_t);
    }
    let ghost vs = v_t.entries();
    match help_rec_dithered(v_t, coins) {
        Ok((key, ct)) => {
            assert forall|k: int| 0 <= k < KEY_LEN implies #[trigger] key@[k] == rec_element_spec(
                2 * shared_value(sk_b, b_a_t, e_b_t, k),
                ct_bit(ct, k),
            ) && is_dithered_bit(2 * shared_value(sk_b, b_a_t, e_b_t, k), ct_bit(ct, k)) by {
                assert(vs[k] == shared_value(sk_b, b_a_t, e_b_t, k));
                assert(ct_bit(ct, k) == cell_bit(
                    2 * vs[k] - dither(coins@[2 * k], coins@[2 * k + 1]),
                ));
            }
            (key, ct)
        },
        Err(_) => {
            assert(false);
            ([0i32; 64], 0)
        },
    }
}

/// Encapsulation: with fresh bounded-uniform noise `E`, reconciles `V = S' · Bᵗ + E`
/// into a key and a ciphertext, the dithering coins coming from the operating system.
pub fn encaps(b_a_t: Matrix, sk_b: Matrix) -> (res: ([i32; 64], u64))
    requires
        has_shape(b_a_t, N_BAR as nat, b_a_t.ncols()),
        has_shape(sk_b, N_BAR as nat, b_a_t.ncols()),
    ensures
        exists|e: Matrix|
            is_bounded_uniform(e, N_BAR as nat, N_BAR as nat) && #[trigger] encapsulates(
                sk_b,
                b_a_t,
                e,
                res.0@,
                res.1,
            ),
{
    let e_b_t = gen_matrix_uniform_beta(N_BAR, N_BAR);
    let mut coins: Vec<bool> = Vec::with_capacity(2 * KEY_LEN);
    let mut k: usize = 0;
    while k < 2 * KEY_LEN
        invariant
            k <= 2 * KEY_LEN,
            coins@.len() == k,
        decreases 2 * KEY_LEN - k,
    {
        coins.push(os_coin());
        k = k + 1;
    }
    let ghost e = e_b_t;
    let res = encaps_with(b_a_t, sk_b, e_b_t, &coins);
    assert(encapsulates(sk_b, b_a_t, e, res.0@, res.1));
    res
}

/// Decapsulation: `V' = B' · Sᵗ + F`, doubled, and each nibble recovered from the doubled
/// value and its bit of the ciphertext.
pub fn decaps(b_b: Matrix, sk_a_t: Matrix, f_a_t: Matrix, ct: u64) -> (res: [i32; 64])
    requires
        has_shape(b_b, N_BAR as nat, b_b.ncols()),
        has_shape(sk_a_t, N_BAR as nat, b_b.ncols()),
        has_shape(f_a_t, N_BAR as nat, N_BAR as nat),
    ensures
        forall|k: int|
            0 <= k < KEY_LEN ==> #[trigger] res@[k] == rec_element_spec(
                2 * shared_value(b_b, sk_a_t, f_a_t, k),
                ct_bit(ct, k),
            ),
{
    let v_p_t = match b_b.mul_add_transpose(&sk_a_t, &f_a_t) {
        Ok(m) => m,
        Err(_) => {
            assert(false);
            f_a_t
        },
    };
    proof {
        lemma_product_entries(v_p_t, b_b, sk_a_t, f_a_t);
    }
    let ghost vs = v_p_t.entries();
    let v_p_t_double = v_p_t.double().get_data();
    let mut key_p = [0i32; 64];
    let mut i: usize = 0;
    while i < KEY_LEN
        invariant
            v_p_t_double@.len() == KEY_LEN,
            vs.len() == KEY_LEN,
            forall|t: int| 0 <= t < KEY_LEN ==> #[trigger] v_p_t_double@[t] == 2 * vs[t],
            forall|t: int| 0 <= t < KEY_LEN ==> vs[t] == shared_value(b_b, sk_a_t, f_a_t, t) && 0 <= #[trigger] vs[t] < Q,
            i <= KEY_LEN,
            key_p@.len() == KEY_LEN,
            forall|t: int|
                0 <= t < i ==> #[trigger] key_p@[t] == rec_element_spec(
                    2 * shared_value(b_b, sk_a_t, f_a_t, t),
                    ct_bit(ct, t),
                ),
        decreases KEY_LEN - i,
    {
        let bit = (ct >> (i as u64)) & 1;
        assert(bit <= 1) by (bit_vector)
            requires
                bit == (ct >> (i as u64)) & 1,
        ;
        assert(vs[i as int] == shared_value(b_b, sk_a_t, f_a_t, i as int) && 0 <= vs[i as int] < Q);
        key_p[i] = rec_element(v_p_t_double[i], bit as i32);
        i = i + 1;
    }
    key_p
}

/// Packs 64 nibbles into 32 bytes: byte `i` holds nibble `i` high and nibble `i + 32` low.
pub fn key_to_bytes(key: [i32; 64]) -> (res: [u8; 32])
    requires
        forall|k: int| 0 <= k < KEY_LEN ==> 0 <= #[trigger] key@[k] < 16,
    ensures
        forall|i: int| 0 <= i < 32 ==> #[trigger] res@[i] == 16 * key@[i] + key@[i + 32],
{
    let mut k_bytes = [0u8; 32];
    let mut i: usize = 0;
    while i < 32
        invariant
            forall|k: int| 0 <= k < KEY_LEN ==> 0 <= #[trigger] key@[k] < 16,
            i <= 32,
            k_bytes@.len() == 32,
            forall|t: int| 0 <= t < i ==> #[trigger] k_bytes@[t] == 16 * key@[t] + key@[t + 32],
        decreases 32 - i,
    {
        let hi = key[i];
        let lo = key[i + 32];
        assert(0 <= key@[i as int] < 16 && 0 <= key@[i + 32] < 16);
        let msb = (hi << 4u32) as u8;
        let lsb = lo as u8;
        let byte = msb | lsb;
        assert(byte == 16 * hi + lo) by (bit_vector)
            requires
                0 <= hi < 16,
                0 <= lo < 16,
                msb == (hi << 4u32) as u8,
                lsb == lo as u8,
                byte == msb | lsb,
        ;
        k_bytes[i] = byte;
        i = i + 1;
    }
    k_bytes
}

} // verus!
