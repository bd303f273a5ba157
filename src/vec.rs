use vstd::prelude::*;

use crate::params::{BLOCK, Q};

verus! {

/// Ways in which an operation refuses a malformed shape.
#[derive(Debug, Clone, Copy, PartialEq, Eq, Structural)]
pub enum MatrixError {
    /// The data length or the operands' shapes do not agree.
    DimensionMismatch,
    /// The multiply kernel's right operand has a row count that is not a multiple of the block height.
    InvalidBlockSize,
    /// Reconciliation was given a matrix that does not hold exactly one coefficient per key nibble.
    ShapeMismatch,
}

/// A dense, row-major matrix of signed coefficients.
#[derive(Debug, Clone)]
pub struct Matrix {
    rows: usize,
    cols: usize,
    data: Vec<i32>,
}

/// Euclidean reduction into `[0, Q)`.
pub open spec fn mod_q(x: int) -> int {
    x % (Q as int)
}

/// `sum_{t < k} l[lo + t] * r[ro + t]`, over the integers.
pub open spec fn dot(l: Seq<i32>, lo: int, r: Seq<i32>, ro: int, k: nat) -> int
    decreases k,
{
    if k == 0 {
        0
    } else {
        dot(l, lo, r, ro, (k - 1) as nat) + l[lo + k - 1] * r[ro + k - 1]
    }
}

/// High byte of the 16-bit wire form of a coefficient.
pub open spec fn hi_byte(x: i32) -> u8 {
    ((x >> 8u32) & 0xFF) as u8
}

/// Low byte of the 16-bit wire form of a coefficient.
pub open spec fn lo_byte(x: i32) -> u8 {
    (x & 0xFF) as u8
}

/// The coefficient that a big-endian byte pair decodes to: the 16-bit pattern, sign-extended.
pub open spec fn from_byte_pair(hi: u8, lo: u8) -> i32 {
    if hi < 128 {
        (hi * 256 + lo) as i32
    } else {
        (hi * 256 + lo - 65536) as i32
    }
}

/// The wire form of a coefficient sequence: two bytes per coefficient, high byte first.
pub open spec fn encoding_of(d: Seq<i32>, b: Seq<u8>) -> bool {
    &&& b.len() == 2 * d.len()
    &&& forall|i: int| 0 <= i < d.len() ==> #[trigger] b[2 * i] == hi_byte(d[i]) && b[2 * i + 1] == lo_byte(d[i])
}

/// `out = lhs · rhsᵗ + add`, reduced into `[0, Q)`, with `rhs.rows` rows and `lhs.rows` columns.
pub open spec fn is_mul_add_transpose(out: Matrix, lhs: Matrix, rhs: Matrix, add: Matrix) -> bool {
    &&& out.wf()
    &&& out.nrows() == rhs.nrows()
    &&& out.ncols() == lhs.nrows()
    &&& forall|j: int, i: int|
        0 <= j < rhs.nrows() && 0 <= i < lhs.nrows() ==> #[trigger] out.at(j, i) == mod_q(
            lhs.row_dot(&rhs, i, j) + add.at(j, i),
        )
}

/// A coefficient that the 16-bit wire form carries unchanged.
pub open spec fn fits_i16(x: i32) -> bool {
    -32768 <= x <= 32767
}

impl Matrix {
    pub closed spec fn nrows(&self) -> nat {
        self.rows as nat
    }

    pub closed spec fn ncols(&self) -> nat {
        self.cols as nat
    }

    /// The coefficients in row-major order.
    pub closed spec fn entries(&self) -> Seq<i32> {
        self.data@
    }

    /// The data holds exactly one coefficient per cell.
    pub open spec fn wf(&self) -> bool {
        self.entries().len() == self.nrows() * self.ncols()
    }

    /// The coefficient in row `i`, column `j`.
    pub open spec fn at(&self, i: int, j: int) -> i32 {
        self.entries()[i * self.ncols() + j]
    }

    /// `sum_t self[i][t] * rhs[j][t]`: entry `(i, j)` of `self · rhsᵗ`.
    pub open spec fn row_dot(&self, rhs: &Matrix, i: int, j: int) -> int {
        dot(self.entries(), i * self.ncols(), rhs.entries(), j * rhs.ncols(), self.ncols())
    }

    /// Builds a matrix from its row-major data.
    pub fn new(r: usize, c: usize, d: Vec<i32>) -> (res: Result<Matrix, MatrixError>)
        ensures
            match res {
                Ok(m) => {
                    &&& r * c == d@.len()
                    &&& m.wf()
                    &&& m.nrows() == r
                    &&& m.ncols() == c
                    &&& m.entries() == d@
                },
                Err(e) => r * c != d@.len() && e == MatrixError::DimensionMismatch,
            },
    {
        let len = d.len();
        match r.checked_mul(c) {
            Some(size) => {
                if size != len {
                    Err(MatrixError::DimensionMismatch)
                } else {
                    let m = Matrix { rows: r, cols: c, data: d };
                    Ok(m)
                }
            },
            None => {
                assert(r * c > usize::MAX);
                Err(MatrixError::DimensionMismatch)
            },
        }
    }

    /// Wraps data already known to hold `r * c` coefficients.
    pub(crate) fn shaped(r: usize, c: usize, d: Vec<i32>) -> (m: Matrix)
        requires
            d@.len() == r * c,
        ensures
            m.wf(),
            m.nrows() == r,
            m.ncols() == c,
            m.entries() == d@,
    {
        Matrix { rows: r, cols: c, data: d }
    }

    /// Decodes a matrix from its wire form: two bytes per coefficient, big-endian, each
    /// 16-bit pattern sign-extended.
    pub fn from_bytes(bytes: &[u8], r: usize, c: usize) -> (res: Result<Matrix, MatrixError>)
        ensures
            match res {
                Ok(m) => {
                    &&& bytes@.len() == 2 * (r * c)
                    &&& m.wf()
                    &&& m.nrows() == r
                    &&& m.ncols() == c
                    &&& forall|i: int|
                        0 <= i < r * c ==> #[trigger] m.entries()[i] == from_byte_pair(
                            bytes@[2 * i],
                            bytes@[2 * i + 1],
                        )
                },
                Err(e) => bytes@.len() != 2 * (r * c) && e == MatrixError::DimensionMismatch,
            },
    {
        let len = bytes.len();
        if len % 2 != 0 {
            return Err(MatrixError::DimensionMismatch);
        }
        let n = len / 2;
        let mut data: Vec<i32> = Vec::with_capacity(n);
        let mut i: usize = 0;
        while i < n
            invariant
                len == bytes@.len(),
                n * 2 == len,
                i <= n,
                data@.len() == i,
                forall|k: int|
                    0 <= k < i ==> #[trigger] data@[k] == from_byte_pair(
                        bytes@[2 * k],
                        bytes@[2 * k + 1],
                    ),
            decreases n - i,
        {
            let hi = bytes[2 * i];
            let lo = bytes[2 * i + 1];
            let v = decode_pair(hi, lo);
            data.push(v);
            i = i + 1;
        }
        Matrix::new(r, c, data)
    }

    /// The coefficients in row-major order.
    pub fn get_data(self) -> (res: Vec<i32>)
        ensures
            res@ == self.entries(),
    {
        self.data
    }

    /// Encodes the matrix in its wire form: two bytes per coefficient, high byte first.
    /// Only coefficients that fit in 16 signed bits survive a round trip.
    pub fn to_bytes(self) -> (res: Vec<u8>)
        requires
            self.wf(),
        ensures
            encoding_of(self.entries(), res@),
    {
        let n = self.data.len();
        let mut v: Vec<u8> = Vec::new();
        let mut i: usize = 0;
        while i < n
            invariant
                n == self.data@.len(),
                i <= n,
                v@.len() == 2 * i,
                forall|k: int|
                    0 <= k < i ==> #[trigger] v@[2 * k] == hi_byte(self.data@[k]) && v@[2 * k
                        + 1] == lo_byte(self.data@[k]),
            decreases n - i,
        {
            let x = self.data[i];
            let msb = encode_hi(x);
            let lsb = encode_lo(x);
            v.push(msb);
            v.push(lsb);
            proof {
                assert forall|k: int| 0 <= k < i + 1 implies #[trigger] v@[2 * k] == hi_byte(
                    self.data@[k],
                ) && v@[2 * k + 1] == lo_byte(self.data@[k]) by {
                    if k < i {
                        assert(v@[2 * k] == hi_byte(self.data@[k]));
                    }
                }
            }
            i = i + 1;
        }
        v
    }

    /// The coefficient in row `i`, column `j`.
    pub fn get(&self, i: usize, j: usize) -> (res: i32)
        requires
            self.wf(),
            i < self.nrows(),
            j < self.ncols(),
        ensures
            res == self.at(i as int, j as int),
    {
        proof {
            assert(self.data@.len() == self.data.len());
            lemma_index_in_bounds(i as int, j as int, self.rows as int, self.cols as int);
        }
        self.data[i * self.cols + j]
    }

    /// Doubles every coefficient, without reduction.
    pub fn double(self) -> (res: Matrix)
        requires
            self.wf(),
            forall|k: int|
                0 <= k < self.entries().len() ==> -0x4000_0000 <= #[trigger] self.entries()[k]
                    < 0x4000_0000,
        ensures
            res.wf(),
            res.nrows() == self.nrows(),
            res.ncols() == self.ncols(),
            res.entries().len() == self.entries().len(),
            forall|k: int|
                0 <= k < self.entries().len() ==> #[trigger] res.entries()[k] == 2
                    * self.entries()[k],
    {
        let n = self.data.len();
        let mut out: Vec<i32> = Vec::with_capacity(n);
        let mut i: usize = 0;
        while i < n
            invariant
                n == self.data@.len(),
                i <= n,
                out@.len() == i,
                forall|k: int|
                    0 <= k < self.entries().len() ==> -0x4000_0000 <= #[trigger] self.entries()[k]
                        < 0x4000_0000,
                forall|k: int| 0 <= k < i ==> #[trigger] out@[k] == 2 * self.data@[k],
            decreases n - i,
        {
            proof {
                assert(-0x4000_0000 <= self.entries()[i as int] < 0x4000_0000);
            }
            out.push(2 * self.data[i]);
            i = i + 1;
        }
        Matrix { rows: self.rows, cols: self.cols, data: out }
    }

    /// Element-wise sum, reduced into `[0, Q)`.
    pub fn add_mat(self, rhs: Matrix) -> (res: Result<Matrix, MatrixError>)
        requires
            self.wf(),
            rhs.wf(),
        ensures
            match res {
                Ok(m) => {
                    &&& self.nrows() == rhs.nrows() && self.ncols() == rhs.ncols()
                    &&& m.wf()
                    &&& m.nrows() == self.nrows()
                    &&& m.ncols() == self.ncols()
                    &&& m.entries().len() == self.entries().len()
                    &&& forall|k: int|
                        0 <= k < self.entries().len() ==> #[trigger] m.entries()[k] == mod_q(
                            self.entries()[k] + rhs.entries()[k],
                        )
                },
                Err(e) => {
                    &&& (self.nrows() != rhs.nrows() || self.ncols() != rhs.ncols())
                    &&& e == MatrixError::DimensionMismatch
                },
            },
    {
        if self.rows != rhs.rows || self.cols != rhs.cols {
            return Err(MatrixError::DimensionMismatch);
        }
        let n = self.data.len();
        let mut out: Vec<i32> = Vec::with_capacity(n);
        let mut i: usize = 0;
        while i < n
            invariant
                n == self.data@.len(),
                n == rhs.data@.len(),
                i <= n,
                out@.len() == i,
                forall|k: int|
                    0 <= k < i ==> #[trigger] out@[k] == mod_q(self.data@[k] + rhs.data@[k]),
            decreases n - i,
        {
            let s = reduce_q((self.data[i] as i64) + (rhs.data[i] as i64));
            out.push(s);
            i = i + 1;
        }
        Ok(Matrix { rows: self.rows, cols: self.cols, data: out })
    }

    /// `out = self · rhsᵗ + add`, reduced into `[0, Q)`; `out` has `rhs.rows` rows and
    /// `self.rows` columns. Each product is reduced before it is accumulated; the
    /// accumulation runs over blocks of `BLOCK` output rows.
    pub fn mul_add_transpose(&self, rhs: &Matrix, add: &Matrix) -> (res: Result<Matrix, MatrixError>)
        requires
            self.wf(),
            rhs.wf(),
            add.wf(),
        ensures
            match res {
                Ok(m) => {
                    &&& self.ncols() == rhs.ncols()
                    &&& add.nrows() == rhs.nrows() && add.ncols() == self.nrows()
                    &&& rhs.nrows() % (BLOCK as nat) == 0
                    &&& is_mul_add_transpose(m, *self, *rhs, *add)
                },
                Err(e) => {
                    if self.ncols() != rhs.ncols() || add.nrows() != rhs.nrows() || add.ncols()
                        != self.nrows() {
                        e == MatrixError::DimensionMismatch
                    } else {
                        rhs.nrows() % (BLOCK as nat) != 0 && e == MatrixError::InvalidBlockSize
                    }
                },
            },
    {
        if self.cols != rhs.cols {
            return Err(MatrixError::DimensionMismatch);
        }
        if add.rows != rhs.rows || add.cols != self.rows {
            return Err(MatrixError::DimensionMismatch);
        }
        if rhs.rows % BLOCK != 0 {
            return Err(MatrixError::InvalidBlockSize);
        }
        let out_rows = rhs.rows;
        let out_cols = self.rows;
        let mut out: Vec<i32> = Vec::new();
        let mut block: usize = 0;
        assert(block * BLOCK * out_cols == 0) by (nonlinear_arith)
            requires
                block == 0,
        ;
        while block < out_rows / BLOCK
            invariant
                self.wf(),
                rhs.wf(),
                add.wf(),
                self.cols == rhs.cols,
                add.rows == out_rows && add.cols == out_cols,
                out_rows == rhs.rows,
                out_cols == self.rows,
                out_rows % BLOCK == 0,
                block <= out_rows / BLOCK,
                out@.len() == block * BLOCK * out_cols,
                forall|j: int, i: int|
                    0 <= j < block * BLOCK && 0 <= i < out_cols ==> #[trigger] out@[j * out_cols
                        + i] == mod_q(self.row_dot(rhs, i, j) + add.at(j, i)),
            decreases out_rows / BLOCK - block,
        {
            let mut t: usize = 0;
            while t < BLOCK
                invariant
                    self.wf(),
                    rhs.wf(),
                    add.wf(),
                    self.cols == rhs.cols,
                    add.rows == out_rows && add.cols == out_cols,
                    out_rows == rhs.rows,
                    out_cols == self.rows,
                    out_rows % BLOCK == 0,
                    block < out_rows / BLOCK,
                    t <= BLOCK,
                    out@.len() == (block * BLOCK + t) * out_cols,
                    forall|j: int, i: int|
                        0 <= j < block * BLOCK + t && 0 <= i < out_cols ==> #[trigger] out@[j
                            * out_cols + i] == mod_q(self.row_dot(rhs, i, j) + add.at(j, i)),
                decreases BLOCK - t,
            {
                let j = block * BLOCK + t;
                proof {
                    assert(j < out_rows) by (nonlinear_arith)
                        requires
                            j == block * BLOCK + t,
                            t < BLOCK,
                            block < out_rows / BLOCK,
                            BLOCK == 8,
                            out_rows % BLOCK == 0,
                    ;
                }
                let ghost start = out@;
                let mut i: usize = 0;
                while i < out_cols
                    invariant
                        self.wf(),
                        rhs.wf(),
                        add.wf(),
                        self.cols == rhs.cols,
                        add.rows == out_rows && add.cols == out_cols,
                        out_rows == rhs.rows,
                        out_cols == self.rows,
                        j < out_rows,
                        i <= out_cols,
                        start.len() == j * out_cols,
                        out@.len() == j * out_cols + i,
                        forall|k: int| 0 <= k < start.len() ==> #[trigger] out@[k] == start[k],
                        forall|x: int|
                            0 <= x < i ==> #[trigger] out@[j * out_cols + x] == mod_q(
                                self.row_dot(rhs, x, j as int) + add.at(j as int, x),
                            ),
                    decreases out_cols - i,
                {
                    let acc = self.dot_rows_mod(rhs, i, j);
                    proof {
                        assert(add.data@.len() == add.data.len());
                        lemma_index_in_bounds(j as int, i as int, out_rows as int, out_cols as int);
                    }
                    let a = add.data[j * out_cols + i];
                    let v = reduce_q((acc as i64) + (a as i64));
                    proof {
                        lemma_mod_add_left(self.row_dot(rhs, i as int, j as int), acc as int, a as int);
                    }
                    out.push(v);
                    i = i + 1;
                }
                proof {
                    assert((j + 1) * out_cols == j * out_cols + out_cols) by (nonlinear_arith);
                    assert forall|jj: int, ii: int|
                        0 <= jj < block * BLOCK + t + 1 && 0 <= ii < out_cols implies #[trigger] out@[jj
                            * out_cols + ii] == mod_q(self.row_dot(rhs, ii, jj) + add.at(jj, ii)) by {
                        lemma_index_in_bounds(jj, ii, (j + 1) as int, out_cols as int);
                        if jj < j {
                            lemma_index_in_bounds(jj, ii, j as int, out_cols as int);
                            assert(out@[jj * out_cols + ii] == start[jj * out_cols + ii]);
                        }
                    }
                }
                t = t + 1;
            }
            proof {
                assert((block + 1) * BLOCK == block * BLOCK + BLOCK) by (nonlinear_arith);
                assert((block + 1) * BLOCK * out_cols == (block * BLOCK + BLOCK) * out_cols) by (nonlinear_arith)
                    requires
                        (block + 1) * BLOCK == block * BLOCK + BLOCK,
                ;
            }
            block = block + 1;
        }
        proof {
            assert(block * BLOCK == out_rows) by (nonlinear_arith)
                requires
                    block == out_rows / BLOCK,
                    out_rows % BLOCK == 0,
                    BLOCK == 8,
            ;
        }
        let m = Matrix { rows: out_rows, cols: out_cols, data: out };
        assert forall|j: int, i: int|
            0 <= j < rhs.nrows() && 0 <= i < self.nrows() implies #[trigger] m.at(j, i) == mod_q(
                self.row_dot(rhs, i, j) + add.at(j, i),
            ) by {
            assert(out@[j * out_cols + i] == mod_q(self.row_dot(rhs, i, j) + add.at(j, i)));
        }
        Ok(m)
    }

    /// `sum_t self[i][t] * rhs[j][t]` reduced into `[0, Q)`, each product reduced as it
    /// is accumulated.
    fn dot_rows_mod(&self, rhs: &Matrix, i: usize, j: usize) -> (res: i32)
        requires
            self.wf(),
            rhs.wf(),
            self.cols == rhs.cols,
            i < self.rows,
            j < rhs.rows,
        ensures
            0 <= res < Q,
            res == mod_q(self.row_dot(rhs, i as int, j as int)),
    {
        let cols = self.cols;
        proof {
            assert(self.data@.len() == self.data.len());
            assert(rhs.data@.len() == rhs.data.len());
            lemma_row_in_bounds(i as int, self.rows as int, cols as int);
            lemma_row_in_bounds(j as int, rhs.rows as int, cols as int);
        }
        let lo = i * cols;
        let ro = j * cols;
        let mut acc: i64 = 0;
        let mut off: usize = 0;
        while off < cols
            invariant
                self.wf(),
                rhs.wf(),
                cols == self.cols,
                cols == rhs.cols,
                self.data@.len() <= usize::MAX,
                rhs.data@.len() <= usize::MAX,
                lo == i * cols,
                ro == j * cols,
                lo + cols <= self.data@.len(),
                ro + cols <= rhs.data@.len(),
                off <= cols,
                0 <= acc < Q,
                acc == mod_q(dot(self.data@, lo as int, rhs.data@, ro as int, off as nat)),
            decreases cols - off,
        {
            let a = self.data[lo + off] as i64;
            let b = rhs.data[ro + off] as i64;
            proof {
                assert(-0x8000_0000 <= a < 0x8000_0000 && -0x8000_0000 <= b < 0x8000_0000);
                assert(-0x4000_0000_0000_0000 <= a * b <= 0x4000_0000_0000_0000) by (nonlinear_arith)
                    requires
                        -0x8000_0000 <= a < 0x8000_0000,
                        -0x8000_0000 <= b < 0x8000_0000,
                ;
            }
            let p = reduce_q(a * b) as i64;
            proof {
                let d = dot(self.data@, lo as int, rhs.data@, ro as int, off as nat);
                lemma_mod_add_left(d, acc as int, a * b);
                lemma_mod_add_right(acc as int, a * b, p as int);
            }
            acc = reduce_q(acc + p) as i64;
            off = off + 1;
        }
        acc as i32
    }
}

/// `x` reduced into `[0, Q)`.
fn reduce_q(x: i64) -> (res: i32)
    ensures
        0 <= res < Q,
        res == mod_q(x as int),
{
    match x.checked_rem_euclid(Q as i64) {
        Some(r) => r as i32,
        None => {
            assert(false);
            0
        },
    }
}

/// The coefficient that a big-endian byte pair decodes to.
fn decode_pair(hi: u8, lo: u8) -> (res: i32)
    ensures
        res == from_byte_pair(hi, lo),
{
    let msb = (hi as i16) << 8u32;
    let lsb = lo as i16;
    let res = (msb | lsb) as i32;
    assert(res == from_byte_pair(hi, lo)) by (bit_vector)
        requires
            msb == (hi as i16) << 8u32,
            lsb == lo as i16,
            res == (msb | lsb) as i32,
    ;
    res
}

fn encode_hi(x: i32) -> (res: u8)
    ensures
        res == hi_byte(x),
{
    let m = (x & 0xFF00) >> 8u32;
    assert(m == (x >> 8u32) & 0xFF && 0 <= m < 256) by (bit_vector)
        requires
            m == (x & 0xFF00) >> 8u32,
    ;
    m as u8
}

fn encode_lo(x: i32) -> (res: u8)
    ensures
        res == lo_byte(x),
{
    let m = x & 0xFF;
    assert(0 <= m < 256) by (bit_vector)
        requires
            m == x & 0xFF,
    ;
    m as u8
}

proof fn lemma_index_in_bounds(i: int, j: int, r: int, c: int)
    requires
        0 <= i < r,
        0 <= j < c,
    ensures
        0 <= i * c + j < r * c,
        i * c + j < (i + 1) * c,
        i * c <= i * c + j,
{
    assert(0 <= i * c + j < r * c) by (nonlinear_arith)
        requires
            0 <= i < r,
            0 <= j < c,
    ;
    assert((i + 1) * c == i * c + c) by (nonlinear_arith);
}

proof fn lemma_row_in_bounds(i: int, r: int, c: int)
    requires
        0 <= i < r,
        0 <= c,
    ensures
        0 <= i * c,
        i * c + c <= r * c,
{
    assert(0 <= i * c && i * c + c <= r * c) by (nonlinear_arith)
        requires
            0 <= i < r,
            0 <= c,
    ;
}

/// Replacing the left summand by something congruent keeps the residue.
proof fn lemma_mod_add_left(x: int, y: int, z: int)
    requires
        mod_q(x) == mod_q(y),
    ensures
        mod_q(x + z) == mod_q(y + z),
{
    vstd::arithmetic::div_mod::lemma_add_mod_noop(x, z, Q as int);
    vstd::arithmetic::div_mod::lemma_add_mod_noop(y, z, Q as int);
}

/// Replacing the right summand by its residue keeps the residue.
proof fn lemma_mod_add_right(x: int, z: int, w: int)
    requires
        w == mod_q(z),
    ensures
        mod_q(x + z) == mod_q(x + w),
{
    vstd::arithmetic::div_mod::lemma_add_mod_noop(x, z, Q as int);
    vstd::arithmetic::div_mod::lemma_add_mod_noop(x, w, Q as int);
    vstd::arithmetic::div_mod::lemma_mod_twice(z, Q as int);
}

/// Decoding the wire form of a coefficient that fits in 16 signed bits gives it back.
pub proof fn lemma_byte_pair_round_trip(x: i32)
    requires
        fits_i16(x),
    ensures
        from_byte_pair(hi_byte(x), lo_byte(x)) == x,
{
    assert(from_byte_pair(hi_byte(x), lo_byte(x)) == x) by (bit_vector)
        requires
            -32768 <= x <= 32767,
    ;
}

/// Decoding the wire form of a matrix whose coefficients all fit in 16 signed bits, with
/// the matrix's own shape, succeeds and gives back every coefficient.
pub proof fn lemma_wire_round_trip(m: Matrix, bytes: Seq<u8>)
    requires
        m.wf(),
        forall|k: int| 0 <= k < m.entries().len() ==> fits_i16(#[trigger] m.entries()[k]),
        encoding_of(m.entries(), bytes),
    ensures
        bytes.len() == 2 * (m.nrows() * m.ncols()),
        forall|k: int|
            0 <= k < m.nrows() * m.ncols() ==> #[trigger] from_byte_pair(bytes[2 * k], bytes[2 * k + 1])
                == m.entries()[k],
{
    assert forall|k: int| 0 <= k < m.nrows() * m.ncols() implies #[trigger] from_byte_pair(
        bytes[2 * k],
        bytes[2 * k + 1],
    ) == m.entries()[k] by {
        assert(bytes[2 * k] == hi_byte(m.entries()[k]));
        lemma_byte_pair_round_trip(m.entries()[k]);
    }
}

} // verus!
