use vstd::prelude::*;

use crate::noise::os_coin;
use crate::params::{CELL, KEY_LEN, N_CUTOFFS, Q};
use crate::vec::{Matrix, MatrixError};

verus! {

/// The reconciliation bit of a value of the doubled domain: the parity of the cell of
/// width `Q / 2^B` that it falls in: `⌊v · 2^B / Q⌋ mod 2`, with the floor taken toward
/// minus infinity, so that `-1` lies in the last cell below the wrap-around.
pub open spec fn cell_bit(v: int) -> int {
    ((v * 16) / (Q as int)) % 2
}

/// Entry `k` of the candidate table: the lower boundary of cell `k`.
pub open spec fn cutoff(k: int) -> int {
    k * CELL
}

/// How far the search rates candidate `c` from `w`: its distance, plus one when it lies below `w`.
pub open spec fn cand_dist(c: int, w: int) -> int {
    if c < w {
        w - c + 1
    } else {
        c - w
    }
}

/// The point that candidate `c` stands for: `c` itself above `w`, else the last point below it.
pub open spec fn cand_point(c: int, w: int) -> int {
    if c <= w {
        c - 1
    } else {
        c
    }
}

/// The best (rating, point) after scanning the first `k` table entries in order; a later
/// candidate replaces the current best only when strictly closer.
pub open spec fn scan(w: int, k: nat) -> (int, int)
    decreases k,
{
    if k == 0 {
        (Q as int, 0)
    } else {
        let prev = scan(w, (k - 1) as nat);
        let c = cutoff(k - 1);
        if cand_dist(c, w) < prev.0 {
            (cand_dist(c, w), cand_point(c, w))
        } else {
            prev
        }
    }
}

/// The value nearest to `w` that carries reconciliation bit `b`, reduced into `[0, 2Q)`:
/// `w` itself when it already carries `b`, else the best point of the table scan.
pub open spec fn closest_point(w: int, b: int) -> int {
    let p = if cell_bit(w) == b {
        w
    } else {
        scan(w, N_CUTOFFS as nat).1
    };
    p % (2 * Q as int)
}

/// The key nibble of a point `p` of `[0, 2Q)`: `p · 2^(B-1) / Q`, rounded, masked to 4 bits.
pub open spec fn nibble_of(p: int) -> int {
    ((p * 8 + Q / 2) / (Q as int)) % 16
}

/// The key nibble that reconciles `w` (a doubled value) with the bit `b`.
pub open spec fn rec_element_spec(w: int, b: int) -> int {
    nibble_of(closest_point(w, b))
}

/// Bit `i` of a ciphertext word.
pub open spec fn ct_bit(ct: u64, i: int) -> int {
    ((ct >> (i as u64)) & 1) as int
}

/// The range of doubled values that the reconciliation arithmetic handles without overflow.
pub open spec fn in_rec_range(w: int) -> bool {
    -0x800_0000 <= w < 0x800_0000
}

/// Division of a non-negative numerator, rounded to nearest (halves up).
fn rounding_div(n: i32, d: i32) -> (res: i32)
    requires
        d > 0,
        0 <= n,
        n + d / 2 <= i32::MAX,
    ensures
        res == (n + d / 2) / (d as int),
{
    let half = d >> 1u32;
    assert(half == d / 2) by (bit_vector)
        requires
            d > 0,
            half == d >> 1u32,
    ;
    (n + half) / d
}

/// `(|a - b|, s)` without a branch, where `s` is `-1` if `a < b` and `0` otherwise.
pub fn abs_sub(a: i32, b: i32) -> (res: (i32, i32))
    requires
        i32::MIN < a - b <= i32::MAX,
    ensures
        res.0 == (if a < b { b - a } else { a - b }),
        res.1 == (if a < b { -1int } else { 0 }),
{
    let r = a - b;
    let s = r >> 31u32;
    assert((r < 0 ==> s == -1) && (r >= 0 ==> s == 0)) by (bit_vector)
        requires
            s == r >> 31u32,
    ;
    let m = (r + s) ^ s;
    assert((r < 0 ==> s == -1 && m == -r) && (r >= 0 ==> s == 0 && m == r)) by (bit_vector)
        requires
            i32::MIN < r,
            s == r >> 31u32,
            m == ((r + s) as i32) ^ s,
    ;
    (m, s)
}

/// Picks `x` when `sel` is 1 and `y` when it is 0, by masking.
fn select(sel: i32, x: i32, y: i32) -> (res: i32)
    requires
        sel == 0 || sel == 1,
    ensures
        res == (if sel == 1 { x } else { y }),
{
    proof {
        if sel == 1 {
            assert(sel * x == x && (1 - sel) * y == 0);
            assert(x | 0i32 == x) by (bit_vector);
        } else {
            assert(sel * x == 0 && (1 - sel) * y == y);
            assert(0i32 | y == y) by (bit_vector);
        }
    }
    (sel * x) | ((1 - sel) * y)
}

/// The point nearest to `v` that carries reconciliation bit `b`, reduced into `[0, 2Q)`.
/// Every table entry is weighed, and the result is chosen by masking, not by branching.
fn closest_v(v: i32, b: i32) -> (res: i32)
    requires
        in_rec_range(v as int),
    ensures
        res == closest_point(v as int, b as int),
        0 <= res < 2 * Q,
{
    let cr_v = (rec_bit(v) == b) as i32;
    let mut curr_dist: i32 = Q;
    let mut curr_closest_v: i32 = 0;
    let mut k: i32 = 0;
    while k < N_CUTOFFS
        invariant
            in_rec_range(v as int),
            0 <= k <= N_CUTOFFS,
            (curr_dist as int, curr_closest_v as int) == scan(v as int, k as nat),
            0 <= curr_dist <= Q,
            -1 <= curr_closest_v <= 2 * Q,
        decreases N_CUTOFFS - k,
    {
        let c = k * CELL;
        let (distance, sign) = abs_sub(c, v);
        let offset = -sign;
        let rep = (distance + offset < curr_dist) as i32;
        let equal = (c == v) as i32;
        curr_dist = select(rep, distance + offset, curr_dist);
        curr_closest_v = select(rep, c + sign - equal, curr_closest_v);
        k = k + 1;
    }
    let chosen = select(cr_v, v, curr_closest_v);
    match chosen.checked_rem_euclid(2 * Q) {
        Some(r) => r,
        None => {
            assert(false);
            0
        },
    }
}

/// The key nibble that reconciles the doubled value `w` with the reconciliation bit `b`.
pub fn rec_element(w: i32, b: i32) -> (res: i32)
    requires
        in_rec_range(w as int),
    ensures
        res == rec_element_spec(w as int, b as int),
        0 <= res < 16,
{
    let closest = closest_v(w, b);
    assert(closest << 3u32 == closest * 8) by (bit_vector)
        requires
            0 <= closest < 0x10000,
    ;
    let scaled = rounding_div(closest << 3u32, Q);
    let res = scaled & 0b1111;
    proof {
        assert(0 <= scaled <= 16) by (nonlinear_arith)
            requires
                0 <= closest < 2 * Q,
                scaled == (closest * 8 + Q / 2) / (Q as int),
                Q == 32768,
        ;
        assert(res == scaled % 16) by (bit_vector)
            requires
                0 <= scaled,
                res == scaled & 0b1111,
        ;
    }
    res
}

/// The dither `a - b` of a pair of coins.
pub open spec fn dither(a: bool, b: bool) -> int {
    (if a { 1int } else { 0 }) - (if b { 1int } else { 0 })
}

/// `bit` is the reconciliation bit of `w` dithered by `-1`, `0` or `1`.
pub open spec fn is_dithered_bit(w: int, bit: int) -> bool {
    bit == cell_bit(w - 1) || bit == cell_bit(w) || bit == cell_bit(w + 1)
}

/// Coefficients small enough that doubling and dithering stay within `in_rec_range`.
pub open spec fn rec_input_ok(v: Seq<i32>) -> bool {
    forall|k: int| 0 <= k < v.len() ==> -0x400_0000 < #[trigger] v[k] < 0x400_0000
}

/// `key` and `ct` reconcile the values `v`: for each index `i`, the key nibble is what the
/// doubled value `2 v[i]` reconciles to under bit `i` of `ct`.
pub open spec fn reconciles(v: Seq<i32>, key: Seq<i32>, ct: u64) -> bool {
    &&& v.len() == KEY_LEN
    &&& key.len() == KEY_LEN
    &&& forall|i: int| 0 <= i < KEY_LEN ==> #[trigger] key[i] == rec_element_spec(2 * v[i], ct_bit(ct, i))
}

/// Setting bit `i` of a word whose bits from `i` up are clear keeps the lower bits and
/// leaves the bits above `i` clear.
proof fn lemma_set_bit(ct: u64, bit: u64, i: u64, j: u64)
    requires
        i < 64,
        j < 64,
        bit <= 1,
        ct >> i == 0,
    ensures
        j < i ==> ((ct | (bit << i)) >> j) & 1 == (ct >> j) & 1,
        j == i ==> ((ct | (bit << i)) >> j) & 1 == bit,
        i + 1 < 64 ==> (ct | (bit << i)) >> ((i + 1) as u64) == 0,
{
    assert(j < i ==> ((ct | (bit << i)) >> j) & 1 == (ct >> j) & 1) by (bit_vector)
        requires
            i < 64,
            j < 64,
            bit <= 1,
            ct >> i == 0,
    ;
    assert(j == i ==> ((ct | (bit << i)) >> j) & 1 == bit) by (bit_vector)
        requires
            i < 64,
            j < 64,
            bit <= 1,
            ct >> i == 0,
    ;
    assert(i + 1 < 64 ==> (ct | (bit << i)) >> ((i + 1) as u64) == 0) by (bit_vector)
        requires
            i < 64,
            bit <= 1,
            ct >> i == 0,
    ;
}

/// The reconciliation bit of the doubled value `w`: `⌊w · 2^B / Q⌋ mod 2`.
fn rec_bit(w: i32) -> (res: i32)
    requires
        in_rec_range(w as int),
    ensures
        res == cell_bit(w as int),
        res == 0 || res == 1,
{
    let scaled = match (w * 16).checked_div_euclid(Q) {
        Some(x) => x,
        None => {
            assert(false);
            0
        },
    };
    let bit = scaled & 1;
    assert(bit == scaled % 2 && (bit == 0 || bit == 1)) by (bit_vector)
        requires
            bit == scaled & 1,
    ;
    bit
}

/// Reconciliation with the coins given: `coins[2i]` and `coins[2i+1]` dither coefficient
/// `i`. Bit `i` of the ciphertext is the reconciliation bit of `2 v[i] - (a - b)`; key
/// nibble `i` is what `2 v[i]` reconciles to under that bit.
pub fn help_rec_dithered(v: Matrix, coins: &Vec<bool>) -> (res: Result<([i32; 64], u64), MatrixError>)
    requires
        v.wf(),
        coins@.len() == 2 * KEY_LEN,
        rec_input_ok(v.entries()),
    ensures
        match res {
            Ok((key, ct)) => {
                &&& reconciles(v.entries(), key@, ct)
                &&& forall|i: int|
                    0 <= i < KEY_LEN ==> #[trigger] ct_bit(ct, i) == cell_bit(
                        2 * v.entries()[i] - dither(coins@[2 * i], coins@[2 * i + 1]),
                    )
            },
            Err(e) => v.entries().len() != KEY_LEN && e == MatrixError::ShapeMismatch,
        },
{
    let ghost vs = v.entries();
    let data = v.get_data();
    if data.len() != KEY_LEN {
        return Err(MatrixError::ShapeMismatch);
    }
    let mut key = [0i32; 64];
    let mut ct: u64 = 0;
    let mut i: usize = 0;
    assert(ct >> 0u64 == 0) by (bit_vector)
        requires
            ct == 0,
    ;
    while i < KEY_LEN
        invariant
            data@ == vs,
            vs.len() == KEY_LEN,
            rec_input_ok(vs),
            coins@.len() == 2 * KEY_LEN,
            i <= KEY_LEN,
            key@.len() == KEY_LEN,
            i < KEY_LEN ==> ct >> (i as u64) == 0,
            forall|t: int| 0 <= t < i ==> #[trigger] ct_bit(ct, t) == cell_bit(
                2 * vs[t] - dither(coins@[2 * t], coins@[2 * t + 1]),
            ),
            forall|t: int| 0 <= t < i ==> #[trigger] key@[t] == rec_element_spec(2 * vs[t], ct_bit(ct, t)),
        decreases KEY_LEN - i,
    {
        let a = coins[2 * i] as i32;
        let b = coins[2 * i + 1] as i32;
        let x = data[i];
        let v_bar = 2 * x - (a - b);
        let bit = rec_bit(v_bar);
        let ghost old_ct = ct;
        ct = ct | ((bit as u64) << (i as u64));
        proof {
            assert forall|t: int| 0 <= t <= i implies #[trigger] ct_bit(ct, t) == (if t < i {
                ct_bit(old_ct, t)
            } else {
                bit as int
            }) by {
                lemma_set_bit(old_ct, bit as u64, i as u64, t as u64);
            }
            lemma_set_bit(old_ct, bit as u64, i as u64, 0);
        }
        key[i] = rec_element(2 * x, bit);
        i = i + 1;
    }
    Ok((key, ct))
}

/// Reconciliation: for each of the 64 coefficients, two fair coins from the operating
/// system dither the value before its reconciliation bit is taken. Whatever the coins,
/// the key reconciles `v` under the ciphertext, and each ciphertext bit is the
/// reconciliation bit of `2 v[i]`, `2 v[i] - 1` or `2 v[i] + 1`.
pub fn help_rec(v: Matrix) -> (res: Result<([i32; 64], u64), MatrixError>)
    requires
        v.wf(),
        rec_input_ok(v.entries()),
    ensures
        match res {
            Ok((key, ct)) => {
                &&& reconciles(v.entries(), key@, ct)
                &&& forall|i: int|
                    0 <= i < KEY_LEN ==> is_dithered_bit(2 * v.entries()[i], #[trigger] ct_bit(ct, i))
            },
            Err(e) => v.entries().len() != KEY_LEN && e == MatrixError::ShapeMismatch,
        },
{
    let mut coins: Vec<bool> = Vec::with_capacity(2 * KEY_LEN);
    let mut k: usize = 0;
    while k < 2 * KEY_LEN
        invariant
            k <= 2 * KEY_LEN,
            coins@.len() == k,
        decreases 2 * KEY_LEN - k,
    {
        coins.push(os_coin());
        k = k + 1;
    }
    let ghost vs = v.entries();
    let res = help_rec_dithered(v, &coins);
    proof {
        if let Ok((key, ct)) = res {
            assert forall|i: int| 0 <= i < KEY_LEN implies is_dithered_bit(2 * vs[i], #[trigger] ct_bit(ct, i)) by {
                let d = dither(coins@[2 * i], coins@[2 * i + 1]);
                assert(ct_bit(ct, i) == cell_bit(2 * vs[i] - d));
            }
        }
    }
    res
}

} // verus!
