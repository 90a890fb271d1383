//! Dense matrices of fixed-point values, with the operations the network
//! needs: matrix product, bias broadcast, rectified-linear activation and its
//! derivative mask, transpose, column sums and the gradient-descent update.
//! Each operation's contract gives the result entry by entry.
use crate::fixed::{
    clamp64, clamp_i128, div_scale, fx_mul, lemma_abs_mul_cap, spec_fx_mul, spec_tdiv,
    CAP, DIM_MAX, SCALE,
};
use vstd::prelude::*;

verus! {

/// A row-major dense matrix of fixed-point entries.
#[derive(Clone)]
pub struct Matrix {
    pub rows: usize,
    pub cols: usize,
    pub data: Vec<Vec<i64>>,
}

impl Matrix {
    /// The mathematical value of the matrix: a sequence of rows.
    pub open spec fn sv(&self) -> Seq<Seq<i64>> {
        Seq::new(self.data@.len(), |i: int| self.data@[i]@)
    }

    /// Well-formed: the stated shape matches the data, the sides are within
    /// the arithmetic's limit, and every entry is in range.
    pub open spec fn wf(&self) -> bool {
        &&& self.data@.len() == self.rows
        &&& self.rows <= DIM_MAX
        &&& self.cols <= DIM_MAX
        &&& forall|i: int| 0 <= i < self.rows ==> (#[trigger] self.data@[i])@.len() == self.cols
        &&& forall|i: int, j: int|
            0 <= i < self.rows && 0 <= j < self.cols ==> -CAP <= #[trigger] self.data@[i]@[j]
                <= CAP
    }
}

/// Number of columns of a sequence-of-rows matrix.
pub open spec fn scols(m: Seq<Seq<i64>>) -> int {
    if m.len() == 0 {
        0
    } else {
        m[0].len() as int
    }
}

/// Inner product of row `i` of `a` with column `j` of `b`, over the first
/// `n` positions, without scaling.
pub open spec fn sdot(a: Seq<Seq<i64>>, b: Seq<Seq<i64>>, i: int, j: int, n: int) -> int
    decreases n,
{
    if n <= 0 {
        0
    } else {
        sdot(a, b, i, j, n - 1) + a[i][n - 1] * b[n - 1][j]
    }
}

/// One entry of the fixed-point matrix product: the inner product rescaled
/// once and saturated.
pub open spec fn smm_entry(a: Seq<Seq<i64>>, b: Seq<Seq<i64>>, i: int, j: int) -> i64 {
    clamp64(spec_tdiv(sdot(a, b, i, j, b.len() as int), SCALE as int))
}

/// The fixed-point matrix product.
pub open spec fn smatmul(a: Seq<Seq<i64>>, b: Seq<Seq<i64>>) -> Seq<Seq<i64>> {
    Seq::new(a.len(), |i: int| Seq::new(scols(b) as nat, |j: int| smm_entry(a, b, i, j)))
}

/// Add a vector to every row, entrywise and saturated.
pub open spec fn srowadd(m: Seq<Seq<i64>>, v: Seq<i64>) -> Seq<Seq<i64>> {
    Seq::new(m.len(), |i: int| Seq::new(m[i].len(), |j: int| clamp64(m[i][j] + v[j])))
}

/// Rectified linear unit, entrywise.
pub open spec fn srelu(m: Seq<Seq<i64>>) -> Seq<Seq<i64>> {
    Seq::new(
        m.len(),
        |i: int|
            Seq::new(
                m[i].len(),
                |j: int|
                    if m[i][j] > 0 {
                        m[i][j]
                    } else {
                        0i64
                    },
            ),
    )
}

/// Keep each entry of `m` where the matching entry of `z` is positive, else
/// zero: the derivative mask of the rectified linear unit at `z`.
pub open spec fn smaskpos(m: Seq<Seq<i64>>, z: Seq<Seq<i64>>) -> Seq<Seq<i64>> {
    Seq::new(
        m.len(),
        |i: int|
            Seq::new(
                m[i].len(),
                |j: int|
                    if z[i][j] > 0 {
                        m[i][j]
                    } else {
                        0i64
                    },
            ),
    )
}

/// The transpose.
pub open spec fn stranspose(m: Seq<Seq<i64>>) -> Seq<Seq<i64>> {
    Seq::new(scols(m) as nat, |j: int| Seq::new(m.len(), |i: int| m[i][j]))
}

/// Sum of the first `n` entries of column `j`, without saturation.
pub open spec fn scolsum_at(m: Seq<Seq<i64>>, j: int, n: int) -> int
    decreases n,
{
    if n <= 0 {
        0
    } else {
        scolsum_at(m, j, n - 1) + m[n - 1][j]
    }
}

/// Column sums, saturated.
pub open spec fn scolsum(m: Seq<Seq<i64>>) -> Seq<i64> {
    Seq::new(scols(m) as nat, |j: int| clamp64(scolsum_at(m, j, m.len() as int)))
}

/// One gradient-descent update of a parameter entry:
/// `w - learning_rate * gradient`, in fixed point and saturated.
pub open spec fn ssgd_entry(w: i64, g: i64, lr: i64) -> i64 {
    clamp64(w - spec_fx_mul(lr as int, g as int))
}

/// Gradient-descent update of a whole parameter matrix.
pub open spec fn ssgd_mat(w: Seq<Seq<i64>>, g: Seq<Seq<i64>>, lr: i64) -> Seq<Seq<i64>> {
    Seq::new(w.len(), |i: int| Seq::new(w[i].len(), |j: int| ssgd_entry(w[i][j], g[i][j], lr)))
}

/// Gradient-descent update of a bias vector.
pub open spec fn ssgd_vec(w: Seq<i64>, g: Seq<i64>, lr: i64) -> Seq<i64> {
    Seq::new(w.len(), |j: int| ssgd_entry(w[j], g[j], lr))
}

/// A bias vector is well-formed when its entries are in range.
pub open spec fn wf_vec(v: Seq<i64>, n: int) -> bool {
    v.len() == n && forall|j: int| 0 <= j < v.len() ==> -CAP <= #[trigger] v[j] <= CAP
}

/// Fixed-point matrix product.
pub fn matmul(a: &Matrix, b: &Matrix) -> (r: Matrix)
    requires
        a.wf(),
        b.wf(),
        a.cols == b.rows,
        b.rows >= 1,
    ensures
        r.wf(),
        r.rows == a.rows,
        r.cols == b.cols,
        r.sv() == smatmul(a.sv(), b.sv()),
{
    let ghost av = a.sv();
    let ghost bv = b.sv();
    let mut data: Vec<Vec<i64>> = Vec::new();
    let mut i: usize = 0;
    while i < a.rows
        invariant
            a.wf(),
            b.wf(),
            a.cols == b.rows,
            b.rows >= 1,
            av == a.sv(),
            bv == b.sv(),
            i <= a.rows,
            data@.len() == i,
            forall|r0: int| 0 <= r0 < i ==> (#[trigger] data@[r0])@.len() == b.cols,
            forall|r0: int, c0: int|
                0 <= r0 < i && 0 <= c0 < b.cols ==> -CAP <= #[trigger] data@[r0]@[c0] <= CAP,
            forall|r0: int, c0: int|
                0 <= r0 < i && 0 <= c0 < b.cols ==> data@[r0]@[c0] == #[trigger] smm_entry(
                    av,
                    bv,
                    r0,
                    c0,
                ),
        decreases a.rows - i,
    {
        let mut row: Vec<i64> = Vec::new();
        let mut j: usize = 0;
        while j < b.cols
            invariant
                a.wf(),
                b.wf(),
                a.cols == b.rows,
                b.rows >= 1,
                av == a.sv(),
                bv == b.sv(),
                i < a.rows,
                j <= b.cols,
                row@.len() == j,
                forall|c0: int|
                    0 <= c0 < j ==> row@[c0] == #[trigger] smm_entry(av, bv, i as int, c0),
                forall|c0: int| 0 <= c0 < j ==> -CAP <= #[trigger] row@[c0] <= CAP,
            decreases b.cols - j,
        {
            let mut acc: i128 = 0;
            let mut k: usize = 0;
            while k < a.cols
                invariant
                    a.wf(),
                    b.wf(),
                    a.cols == b.rows,
                    i < a.rows,
                    j < b.cols,
                    k <= a.cols,
                    av == a.sv(),
                    bv == b.sv(),
                    acc == sdot(av, bv, i as int, j as int, k as int),
                    -(k as int) * 0x100000000000000000000 <= acc <= (k as int)
                        * 0x100000000000000000000,
                decreases a.cols - k,
            {
                let x: i64 = a.data[i][k];
                let y: i64 = b.data[k][j];
                proof {
                    lemma_abs_mul_cap(x, y);
                }
                acc = acc + (x as i128) * (y as i128);
                k = k + 1;
            }
            let e: i64 = clamp_i128(div_scale(acc));
            proof {
                assert(e == smm_entry(av, bv, i as int, j as int));
            }
            row.push(e);
            j = j + 1;
        }
        data.push(row);
        i = i + 1;
    }
    let r = Matrix { rows: a.rows, cols: b.cols, data };
    proof {
        assert(r.sv() =~~= smatmul(av, bv));
    }
    r
}

/// Add the bias vector `v` to every row of `m`.
pub fn rowadd(m: &Matrix, v: &Vec<i64>) -> (r: Matrix)
    requires
        m.wf(),
        wf_vec(v@, m.cols as int),
    ensures
        r.wf(),
        r.rows == m.rows,
        r.cols == m.cols,
        r.sv() == srowadd(m.sv(), v@),
{
    let mut data: Vec<Vec<i64>> = Vec::new();
    let mut i: usize = 0;
    while i < m.rows
        invariant
            m.wf(),
            wf_vec(v@, m.cols as int),
            i <= m.rows,
            data@.len() == i,
            forall|r0: int| 0 <= r0 < i ==> (#[trigger] data@[r0])@.len() == m.cols,
            forall|r0: int, c0: int|
                0 <= r0 < i && 0 <= c0 < m.cols ==> -CAP <= #[trigger] data@[r0]@[c0] <= CAP,
            forall|r0: int, c0: int|
                0 <= r0 < i && 0 <= c0 < m.cols ==> data@[r0]@[c0] == #[trigger] clamp64(
                    m.sv()[r0][c0] + v@[c0],
                ),
        decreases m.rows - i,
    {
        let mut row: Vec<i64> = Vec::new();
        let mut j: usize = 0;
        while j < m.cols
            invariant
                m.wf(),
                wf_vec(v@, m.cols as int),
                i < m.rows,
                j <= m.cols,
                row@.len() == j,
                forall|c0: int|
                    0 <= c0 < j ==> row@[c0] == #[trigger] clamp64(m.sv()[i as int][c0] + v@[c0]),
                forall|c0: int| 0 <= c0 < j ==> -CAP <= #[trigger] row@[c0] <= CAP,
            decreases m.cols - j,
        {
            let e: i64 = clamp_i128((m.data[i][j] as i128) + (v[j] as i128));
            row.push(e);
            j = j + 1;
        }
        data.push(row);
        i = i + 1;
    }
    let r = Matrix { rows: m.rows, cols: m.cols, data };
    proof {
        assert(r.sv() =~~= srowadd(m.sv(), v@));
    }
    r
}

/// Rectified linear unit, entrywise.
pub fn relu(m: &Matrix) -> (r: Matrix)
    requires
        m.wf(),
    ensures
        r.wf(),
        r.rows == m.rows,
        r.cols == m.cols,
        r.sv() == srelu(m.sv()),
{
    let mut data: Vec<Vec<i64>> = Vec::new();
    let mut i: usize = 0;
    while i < m.rows
        invariant
            m.wf(),
            i <= m.rows,
            data@.len() == i,
            forall|r0: int| 0 <= r0 < i ==> (#[trigger] data@[r0])@.len() == m.cols,
            forall|r0: int, c0: int|
                0 <= r0 < i && 0 <= c0 < m.cols ==> -CAP <= #[trigger] data@[r0]@[c0] <= CAP,
            forall|r0: int, c0: int|
                0 <= r0 < i && 0 <= c0 < m.cols ==> data@[r0]@[c0] == (if m.sv()[r0][c0] > 0 {
                    m.sv()[r0][c0]
                } else {
                    0i64
                }),
        decreases m.rows - i,
    {
        let mut row: Vec<i64> = Vec::new();
        let mut j: usize = 0;
        while j < m.cols
            invariant
                m.wf(),
                i < m.rows,
                j <= m.cols,
                row@.len() == j,
                forall|c0: int|
                    0 <= c0 < j ==> row@[c0] == (if m.sv()[i as int][c0] > 0 {
                        m.sv()[i as int][c0]
                    } else {
                        0i64
                    }),
            decreases m.cols - j,
        {
            let x: i64 = m.data[i][j];
            let e: i64 = if x > 0 {
                x
            } else {
                0
            };
            row.push(e);
            j = j + 1;
        }
        data.push(row);
        i = i + 1;
    }
    let r = Matrix { rows: m.rows, cols: m.cols, data };
    proof {
        assert(r.sv() =~~= srelu(m.sv()));
    }
    r
}

/// Keep the entries of `m` where `z` is positive, zero the rest.
pub fn maskpos(m: &Matrix, z: &Matrix) -> (r: Matrix)
    requires
        m.wf(),
        z.wf(),
        m.rows == z.rows,
        m.cols == z.cols,
    ensures
        r.wf(),
        r.rows == m.rows,
        r.cols == m.cols,
        r.sv() == smaskpos(m.sv(), z.sv()),
{
    let mut data: Vec<Vec<i64>> = Vec::new();
    let mut i: usize = 0;
    while i < m.rows
        invariant
            m.wf(),
            z.wf(),
            m.rows == z.rows,
            m.cols == z.cols,
            i <= m.rows,
            data@.len() == i,
            forall|r0: int| 0 <= r0 < i ==> (#[trigger] data@[r0])@.len() == m.cols,
            forall|r0: int, c0: int|
                0 <= r0 < i && 0 <= c0 < m.cols ==> -CAP <= #[trigger] data@[r0]@[c0] <= CAP,
            forall|r0: int, c0: int|
                0 <= r0 < i && 0 <= c0 < m.cols ==> data@[r0]@[c0] == (if z.sv()[r0][c0] > 0 {
                    m.sv()[r0][c0]
                } else {
                    0i64
                }),
        decreases m.rows - i,
    {
        let mut row: Vec<i64> = Vec::new();
        let mut j: usize = 0;
        while j < m.cols
            invariant
                m.wf(),
                z.wf(),
                m.rows == z.rows,
                m.cols == z.cols,
                i < m.rows,
                j <= m.cols,
                row@.len() == j,
                forall|c0: int|
                    0 <= c0 < j ==> row@[c0] == (if z.sv()[i as int][c0] > 0 {
                        m.sv()[i as int][c0]
                    } else {
                        0i64
                    }),
            decreases m.cols - j,
        {
            let e: i64 = if z.data[i][j] > 0 {
                m.data[i][j]
            } else {
                0
            };
            row.push(e);
            j = j + 1;
        }
        data.push(row);
        i = i + 1;
    }
    let r = Matrix { rows: m.rows, cols: m.cols, data };
    proof {
        assert(r.sv() =~~= smaskpos(m.sv(), z.sv()));
    }
    r
}

/// The transpose.
pub fn transpose(m: &Matrix) -> (r: Matrix)
    requires
        m.wf(),
        m.rows >= 1,
    ensures
        r.wf(),
        r.rows == m.cols,
        r.cols == m.rows,
        r.sv() == stranspose(m.sv()),
{
    let mut data: Vec<Vec<i64>> = Vec::new();
    let mut j: usize = 0;
    while j < m.cols
        invariant
            m.wf(),
            m.rows >= 1,
            j <= m.cols,
            data@.len() == j,
            forall|c0: int| 0 <= c0 < j ==> (#[trigger] data@[c0])@.len() == m.rows,
            forall|c0: int, r0: int|
                0 <= c0 < j && 0 <= r0 < m.rows ==> -CAP <= #[trigger] data@[c0]@[r0] <= CAP,
            forall|c0: int, r0: int|
                0 <= c0 < j && 0 <= r0 < m.rows ==> data@[c0]@[r0] == m.sv()[r0][c0],
        decreases m.cols - j,
    {
        let mut row: Vec<i64> = Vec::new();
        let mut i: usize = 0;
        while i < m.rows
            invariant
                m.wf(),
                j < m.cols,
                i <= m.rows,
                row@.len() == i,
                forall|r0: int| 0 <= r0 < i ==> row@[r0] == m.sv()[r0][j as int],
            decreases m.rows - i,
        {
            let e: i64 = m.data[i][j];
            row.push(e);
            i = i + 1;
        }
        data.push(row);
        j = j + 1;
    }
    let r = Matrix { rows: m.cols, cols: m.rows, data };
    proof {
        assert(r.sv() =~~= stranspose(m.sv()));
    }
    r
}

/// Saturated column sums.
pub fn colsum(m: &Matrix) -> (r: Vec<i64>)
    requires
        m.wf(),
        m.rows >= 1,
    ensures
        r@ == scolsum(m.sv()),
        wf_vec(r@, m.cols as int),
{
    let mut out: Vec<i64> = Vec::new();
    let mut j: usize = 0;
    while j < m.cols
        invariant
            m.wf(),
            m.rows >= 1,
            j <= m.cols,
            out@.len() == j,
            forall|c0: int|
                0 <= c0 < j ==> out@[c0] == #[trigger] clamp64(
                    scolsum_at(m.sv(), c0, m.rows as int),
                ),
        decreases m.cols - j,
    {
        let mut acc: i128 = 0;
        let mut i: usize = 0;
        while i < m.rows
            invariant
                m.wf(),
                j < m.cols,
                i <= m.rows,
                acc == scolsum_at(m.sv(), j as int, i as int),
                -(i as int) * (CAP as int) <= acc <= (i as int) * (CAP as int),
            decreases m.rows - i,
        {
            acc = acc + (m.data[i][j] as i128);
            i = i + 1;
        }
        let e: i64 = clamp_i128(acc);
        out.push(e);
        j = j + 1;
    }
    proof {
        assert(out@ =~= scolsum(m.sv()));
    }
    out
}

/// One gradient-descent update of a parameter matrix:
/// every entry becomes `w - learning_rate * gradient`, saturated.
pub fn sgd_mat(w: &Matrix, g: &Matrix, lr: i64) -> (r: Matrix)
    requires
        w.wf(),
        g.wf(),
        w.rows == g.rows,
        w.cols == g.cols,
        -CAP <= lr <= CAP,
    ensures
        r.wf(),
        r.rows == w.rows,
        r.cols == w.cols,
        r.sv() == ssgd_mat(w.sv(), g.sv(), lr),
{
    let mut data: Vec<Vec<i64>> = Vec::new();
    let mut i: usize = 0;
    while i < w.rows
        invariant
            w.wf(),
            g.wf(),
            w.rows == g.rows,
            w.cols == g.cols,
            -CAP <= lr <= CAP,
            i <= w.rows,
            data@.len() == i,
            forall|r0: int| 0 <= r0 < i ==> (#[trigger] data@[r0])@.len() == w.cols,
            forall|r0: int, c0: int|
                0 <= r0 < i && 0 <= c0 < w.cols ==> -CAP <= #[trigger] data@[r0]@[c0] <= CAP,
            forall|r0: int, c0: int|
                0 <= r0 < i && 0 <= c0 < w.cols ==> data@[r0]@[c0] == #[trigger] ssgd_entry(
                    w.sv()[r0][c0],
                    g.sv()[r0][c0],
                    lr,
                ),
        decreases w.rows - i,
    {
        let mut row: Vec<i64> = Vec::new();
        let mut j: usize = 0;
        while j < w.cols
            invariant
                w.wf(),
                g.wf(),
                w.rows == g.rows,
                w.cols == g.cols,
                -CAP <= lr <= CAP,
                i < w.rows,
                j <= w.cols,
                row@.len() == j,
                forall|c0: int|
                    0 <= c0 < j ==> row@[c0] == #[trigger] ssgd_entry(
                        w.sv()[i as int][c0],
                        g.sv()[i as int][c0],
                        lr,
                    ),
                forall|c0: int| 0 <= c0 < j ==> -CAP <= #[trigger] row@[c0] <= CAP,
            decreases w.cols - j,
        {
            let d: i64 = fx_mul(lr, g.data[i][j]);
            let e: i64 = clamp_i128((w.data[i][j] as i128) - (d as i128));
            row.push(e);
            j = j + 1;
        }
        data.push(row);
        i = i + 1;
    }
    let r = Matrix { rows: w.rows, cols: w.cols, data };
    proof {
        assert(r.sv() =~~= ssgd_mat(w.sv(), g.sv(), lr));
    }
    r
}

/// One gradient-descent update of a bias vector.
pub fn sgd_vec(w: &Vec<i64>, g: &Vec<i64>, lr: i64) -> (r: Vec<i64>)
    requires
        wf_vec(w@, w@.len() as int),
        wf_vec(g@, w@.len() as int),
        -CAP <= lr <= CAP,
    ensures
        r@ == ssgd_vec(w@, g@, lr),
        wf_vec(r@, w@.len() as int),
{
    let mut out: Vec<i64> = Vec::new();
    let mut j: usize = 0;
    let n: usize = w.len();
    while j < n
        invariant
            wf_vec(w@, w@.len() as int),
            wf_vec(g@, w@.len() as int),
            -CAP <= lr <= CAP,
            n == w@.len(),
            j <= n,
            out@.len() == j,
            forall|c0: int| 0 <= c0 < j ==> out@[c0] == #[trigger] ssgd_entry(w@[c0], g@[c0], lr),
        decreases n - j,
    {
        let d: i64 = fx_mul(lr, g[j]);
        let e: i64 = clamp_i128((w[j] as i128) - (d as i128));
        out.push(e);
        j = j + 1;
    }
    proof {
        assert(out@ =~= ssgd_vec(w@, g@, lr));
    }
    out
}

} // verus!
