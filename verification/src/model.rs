//! The three-layer perceptron: configuration, seeded parameter
//! initialization, and the forward pass
//! `input -> affine -> relu -> affine -> relu -> affine -> logits`.
use crate::fixed::{CAP, DIM_MAX};
use crate::matrix::{
    matmul, relu, rowadd, smatmul, srelu, srowadd, wf_vec, Matrix,
};
use crate::TrainError;
use vstd::prelude::*;

verus! {

/// Region labels that keep the parameter tensors' initial values on
/// separate slices of the seed stream.
pub const TAG_W1: u64 = 0x1_0000_0000_0000;

pub const TAG_B1: u64 = 0x2_0000_0000_0000;

pub const TAG_W2: u64 = 0x3_0000_0000_0000;

pub const TAG_B2: u64 = 0x4_0000_0000_0000;

pub const TAG_W3: u64 = 0x5_0000_0000_0000;

pub const TAG_B3: u64 = 0x6_0000_0000_0000;

/// The network's architecture: layer widths
/// `input_dim -> h1 -> h2 -> output_dim`.
#[derive(Clone, Copy, Debug, PartialEq, Eq, Structural)]
pub struct MlpConfig {
    pub input_dim: usize,
    pub h1: usize,
    pub h2: usize,
    pub output_dim: usize,
}

impl MlpConfig {
    pub open spec fn wf(&self) -> bool {
        &&& 1 <= self.input_dim <= DIM_MAX
        &&& 1 <= self.h1 <= DIM_MAX
        &&& 1 <= self.h2 <= DIM_MAX
        &&& 1 <= self.output_dim <= DIM_MAX
    }
}

impl Default for MlpConfig {
    /// The reference architecture: seven features, hidden widths 32 and 64,
    /// two classes.
    fn default() -> (c: Self)
        ensures
            c.input_dim == 7,
            c.h1 == 32,
            c.h2 == 64,
            c.output_dim == 2,
            c.wf(),
    {
        MlpConfig { input_dim: 7, h1: 32, h2: 64, output_dim: 2 }
    }
}

/// The spec-level value of a model: its six parameter tensors.
pub ghost struct ModelS {
    pub w1: Seq<Seq<i64>>,
    pub b1: Seq<i64>,
    pub w2: Seq<Seq<i64>>,
    pub b2: Seq<i64>,
    pub w3: Seq<Seq<i64>>,
    pub b3: Seq<i64>,
}

/// The three-layer perceptron with its owned parameters.
pub struct Mlp {
    pub cfg: MlpConfig,
    pub w1: Matrix,
    pub b1: Vec<i64>,
    pub w2: Matrix,
    pub b2: Vec<i64>,
    pub w3: Matrix,
    pub b3: Vec<i64>,
}

impl Mlp {
    /// The mathematical value of the parameter set.
    pub open spec fn msv(&self) -> ModelS {
        ModelS {
            w1: self.w1.sv(),
            b1: self.b1@,
            w2: self.w2.sv(),
            b2: self.b2@,
            w3: self.w3.sv(),
            b3: self.b3@,
        }
    }

    /// Well-formed: every tensor has the shape the configuration gives it
    /// and in-range entries.
    pub open spec fn wf(&self) -> bool {
        &&& self.cfg.wf()
        &&& self.w1.wf()
        &&& self.w1.rows == self.cfg.input_dim
        &&& self.w1.cols == self.cfg.h1
        &&& wf_vec(self.b1@, self.cfg.h1 as int)
        &&& self.w2.wf()
        &&& self.w2.rows == self.cfg.h1
        &&& self.w2.cols == self.cfg.h2
        &&& wf_vec(self.b2@, self.cfg.h2 as int)
        &&& self.w3.wf()
        &&& self.w3.rows == self.cfg.h2
        &&& self.w3.cols == self.cfg.output_dim
        &&& wf_vec(self.b3@, self.cfg.output_dim as int)
    }
}

/// One of the four 16-bit chunks of the seed, centred on zero.
pub open spec fn schunk(seed: u64, k: int) -> i64 {
    ((((seed >> ((16 * k) as u64)) & 0xffff) as i64) - 32768) as i64
}

/// The scrambling step of the seed stream: an xor-shift-multiply finalizer.
pub open spec fn spec_mix(z0: u64) -> u64 {
    let z1 = (z0 ^ (z0 >> 30)).wrapping_mul(0xBF58476D1CE4E5B9);
    let z2 = (z1 ^ (z1 >> 27)).wrapping_mul(0x94D049BB133111EB);
    z2 ^ (z2 >> 31)
}

/// A scrambled entry of the seed stream for tensor `tag`, position `(i, j)`,
/// centred on zero.
pub open spec fn smixed(seed: u64, tag: u64, i: int, j: int) -> i64 {
    (((spec_mix(seed ^ tag ^ ((i as u64) << 20) ^ (j as u64)) & 0xffff) as i64) - 32768) as i64
}

/// The initial value of one parameter entry. The seed's four 16-bit chunks
/// stand in the first entry of each of the first four tensors — present in
/// every well-formed architecture — so that distinct seeds give models that
/// differ in at least one initial value; every other entry comes from the
/// scrambled stream.
pub open spec fn sinit_entry(seed: u64, tag: u64, i: int, j: int) -> i64 {
    if i == 0 && j == 0 && tag == TAG_W1 {
        schunk(seed, 0)
    } else if i == 0 && j == 0 && tag == TAG_B1 {
        schunk(seed, 1)
    } else if i == 0 && j == 0 && tag == TAG_W2 {
        schunk(seed, 2)
    } else if i == 0 && j == 0 && tag == TAG_B2 {
        schunk(seed, 3)
    } else {
        smixed(seed, tag, i, j)
    }
}

/// A freshly initialized parameter matrix.
pub open spec fn sinit_mat(seed: u64, tag: u64, rows: int, cols: int) -> Seq<Seq<i64>> {
    Seq::new(rows as nat, |i: int| Seq::new(cols as nat, |j: int| sinit_entry(seed, tag, i, j)))
}

/// A freshly initialized bias vector.
pub open spec fn sinit_vec(seed: u64, tag: u64, n: int) -> Seq<i64> {
    Seq::new(n as nat, |j: int| sinit_entry(seed, tag, 0, j))
}

/// The whole freshly initialized parameter set for a seed: a pure function
/// of configuration and seed, so initialization is reproducible per seed.
pub open spec fn sinit_model(cfg: MlpConfig, seed: u64) -> ModelS {
    ModelS {
        w1: sinit_mat(seed, TAG_W1, cfg.input_dim as int, cfg.h1 as int),
        b1: sinit_vec(seed, TAG_B1, cfg.h1 as int),
        w2: sinit_mat(seed, TAG_W2, cfg.h1 as int, cfg.h2 as int),
        b2: sinit_vec(seed, TAG_B2, cfg.h2 as int),
        w3: sinit_mat(seed, TAG_W3, cfg.h2 as int, cfg.output_dim as int),
        b3: sinit_vec(seed, TAG_B3, cfg.output_dim as int),
    }
}

/// Initial entries stay well inside the representable range.
pub proof fn lemma_sinit_entry_bounds(seed: u64, tag: u64, i: int, j: int)
    ensures
        -32768 <= sinit_entry(seed, tag, i, j) <= 32767,
{
    let m0 = spec_mix(seed ^ tag ^ ((i as u64) << 20) ^ (j as u64));
    assert(m0 & 0xffff < 0x10000) by (bit_vector);
    assert((seed >> 0u64) & 0xffff < 0x10000) by (bit_vector);
    assert((seed >> 16u64) & 0xffff < 0x10000) by (bit_vector);
    assert((seed >> 32u64) & 0xffff < 0x10000) by (bit_vector);
    assert((seed >> 48u64) & 0xffff < 0x10000) by (bit_vector);
    assert((16 * 0) as u64 == 0u64 && (16 * 1) as u64 == 16u64 && (16 * 2) as u64 == 32u64 && (16
        * 3) as u64 == 48u64);
}

fn mix(z0: u64) -> (r: u64)
    ensures
        r == spec_mix(z0),
{
    let z1: u64 = (z0 ^ (z0 >> 30)).wrapping_mul(0xBF58476D1CE4E5B9);
    let z2: u64 = (z1 ^ (z1 >> 27)).wrapping_mul(0x94D049BB133111EB);
    z2 ^ (z2 >> 31)
}

fn seed_entry(seed: u64, tag: u64, i: usize, j: usize) -> (r: i64)
    requires
        i <= DIM_MAX,
        j <= DIM_MAX,
    ensures
        r == sinit_entry(seed, tag, i as int, j as int),
        -CAP <= r <= CAP,
{
    proof {
        lemma_sinit_entry_bounds(seed, tag, i as int, j as int);
    }
    if i == 0 && j == 0 && (tag == TAG_W1 || tag == TAG_B1 || tag == TAG_W2 || tag == TAG_B2) {
        let k: usize = if tag == TAG_W1 {
            0
        } else if tag == TAG_B1 {
            1
        } else if tag == TAG_W2 {
            2
        } else {
            3
        };
        let sh: u64 = (16 * k) as u64;
        let c: u64 = (seed >> sh) & 0xffff;
        proof {
            assert(c == (seed >> ((16 * (k as int)) as u64)) & 0xffff);
            assert(c < 0x10000) by (bit_vector)
                requires
                    c == (seed >> sh) & 0xffff,
            ;
        }
        (c as i64) - 32768
    } else {
        let m: u64 = mix(seed ^ tag ^ ((i as u64) << 20) ^ (j as u64)) & 0xffff;
        proof {
            assert(m < 0x10000) by (bit_vector)
                requires
                    m == spec_mix(seed ^ tag ^ ((i as u64) << 20) ^ (j as u64)) & 0xffff,
            ;
        }
        (m as i64) - 32768
    }
}

fn init_mat(seed: u64, tag: u64, rows: usize, cols: usize) -> (r: Matrix)
    requires
        1 <= rows <= DIM_MAX,
        1 <= cols <= DIM_MAX,
    ensures
        r.wf(),
        r.rows == rows,
        r.cols == cols,
        r.sv() == sinit_mat(seed, tag, rows as int, cols as int),
{
    let mut data: Vec<Vec<i64>> = Vec::new();
    let mut i: usize = 0;
    while i < rows
        invariant
            rows <= DIM_MAX,
            cols <= DIM_MAX,
            i <= rows,
            data@.len() == i,
            forall|r0: int| 0 <= r0 < i ==> (#[trigger] data@[r0])@.len() == cols,
            forall|r0: int, c0: int|
                0 <= r0 < i && 0 <= c0 < cols ==> data@[r0]@[c0] == #[trigger] sinit_entry(
                    seed,
                    tag,
                    r0,
                    c0,
                ),
            forall|r0: int, c0: int|
                0 <= r0 < i && 0 <= c0 < cols ==> -CAP <= #[trigger] data@[r0]@[c0] <= CAP,
        decreases rows - i,
    {
        let mut row: Vec<i64> = Vec::new();
        let mut j: usize = 0;
        while j < cols
            invariant
                rows <= DIM_MAX,
                cols <= DIM_MAX,
                i < rows,
                j <= cols,
                row@.len() == j,
                forall|c0: int|
                    0 <= c0 < j ==> row@[c0] == #[trigger] sinit_entry(seed, tag, i as int, c0),
                forall|c0: int| 0 <= c0 < j ==> -CAP <= #[trigger] row@[c0] <= CAP,
            decreases cols - j,
        {
            let e: i64 = seed_entry(seed, tag, i, j);
            row.push(e);
            j = j + 1;
        }
        data.push(row);
        i = i + 1;
    }
    let r = Matrix { rows, cols, data };
    proof {
        assert(r.sv() =~~= sinit_mat(seed, tag, rows as int, cols as int));
    }
    r
}

fn init_vec(seed: u64, tag: u64, n: usize) -> (r: Vec<i64>)
    requires
        1 <= n <= DIM_MAX,
    ensures
        r@ == sinit_vec(seed, tag, n as int),
        wf_vec(r@, n as int),
{
    let mut out: Vec<i64> = Vec::new();
    let mut j: usize = 0;
    while j < n
        invariant
            n <= DIM_MAX,
            j <= n,
            out@.len() == j,
            forall|c0: int|
                0 <= c0 < j ==> out@[c0] == #[trigger] sinit_entry(seed, tag, 0, c0),
            forall|c0: int| 0 <= c0 < j ==> -CAP <= #[trigger] out@[c0] <= CAP,
        decreases n - j,
    {
        let e: i64 = seed_entry(seed, tag, 0, j);
        out.push(e);
        j = j + 1;
    }
    proof {
        assert(out@ =~= sinit_vec(seed, tag, n as int));
    }
    out
}

impl Mlp {
    /// Allocate a fresh, independently owned parameter set whose values are
    /// a reproducible function of the seed alone.
    pub fn init(cfg: &MlpConfig, seed: u64) -> (m: Mlp)
        requires
            cfg.wf(),
        ensures
            m.wf(),
            m.cfg == *cfg,
            m.msv() == sinit_model(*cfg, seed),
    {
        Mlp {
            cfg: *cfg,
            w1: init_mat(seed, TAG_W1, cfg.input_dim, cfg.h1),
            b1: init_vec(seed, TAG_B1, cfg.h1),
            w2: init_mat(seed, TAG_W2, cfg.h1, cfg.h2),
            b2: init_vec(seed, TAG_B2, cfg.h2),
            w3: init_mat(seed, TAG_W3, cfg.h2, cfg.output_dim),
            b3: init_vec(seed, TAG_B3, cfg.output_dim),
        }
    }
}

/// The pre-activations of the first layer.
pub open spec fn sz1(m: ModelS, x: Seq<Seq<i64>>) -> Seq<Seq<i64>> {
    srowadd(smatmul(x, m.w1), m.b1)
}

/// The pre-activations of the second layer.
pub open spec fn sz2(m: ModelS, x: Seq<Seq<i64>>) -> Seq<Seq<i64>> {
    srowadd(smatmul(srelu(sz1(m, x)), m.w2), m.b2)
}

/// The forward pass: class logits for each input row, the affine third
/// layer applied to the twice-rectified hidden activations.
pub open spec fn sforward(m: ModelS, x: Seq<Seq<i64>>) -> Seq<Seq<i64>> {
    srowadd(smatmul(srelu(sz2(m, x)), m.w3), m.b3)
}

impl Mlp {
    /// Forward pass with all intermediate layer values, for training.
    pub(crate) fn forward_parts(&self, x: &Matrix) -> (r: (Matrix, Matrix, Matrix, Matrix, Matrix))
        requires
            self.wf(),
            x.wf(),
            x.cols == self.cfg.input_dim,
        ensures
            r.0.wf() && r.0.rows == x.rows && r.0.cols == self.cfg.h1 && r.0.sv() == sz1(
                self.msv(),
                x.sv(),
            ),
            r.1.wf() && r.1.rows == x.rows && r.1.cols == self.cfg.h1 && r.1.sv() == srelu(
                sz1(self.msv(), x.sv()),
            ),
            r.2.wf() && r.2.rows == x.rows && r.2.cols == self.cfg.h2 && r.2.sv() == sz2(
                self.msv(),
                x.sv(),
            ),
            r.3.wf() && r.3.rows == x.rows && r.3.cols == self.cfg.h2 && r.3.sv() == srelu(
                sz2(self.msv(), x.sv()),
            ),
            r.4.wf() && r.4.rows == x.rows && r.4.cols == self.cfg.output_dim && r.4.sv()
                == sforward(self.msv(), x.sv()),
    {
        let z1 = rowadd(&matmul(x, &self.w1), &self.b1);
        let a1 = relu(&z1);
        let z2 = rowadd(&matmul(&a1, &self.w2), &self.b2);
        let a2 = relu(&z2);
        let z3 = rowadd(&matmul(&a2, &self.w3), &self.b3);
        (z1, a1, z2, a2, z3)
    }

    /// The forward pass: for a batch of `B` feature rows of the configured
    /// input width, the `B x output_dim` matrix of class logits; an input of
    /// any other width fails with `DimensionMismatch`, and nothing else
    /// fails.
    pub fn forward(&self, x: &Matrix) -> (r: Result<Matrix, TrainError>)
        requires
            self.wf(),
            x.wf(),
        ensures
            match r {
                Ok(l) => {
                    &&& x.cols == self.cfg.input_dim
                    &&& l.wf()
                    &&& l.rows == x.rows
                    &&& l.cols == self.cfg.output_dim
                    &&& l.sv() == sforward(self.msv(), x.sv())
                },
                Err(e) => e == TrainError::DimensionMismatch && x.cols != self.cfg.input_dim,
            },
    {
        if x.cols != self.cfg.input_dim {
            return Err(TrainError::DimensionMismatch);
        }
        let parts = self.forward_parts(x);
        Ok(parts.4)
    }
}

/// Retry attempts that start from different seeds start from different
/// parameter sets: the seed's four 16-bit chunks stand in the first entry
/// of each of the first four tensors, so two distinct seeds give models
/// that differ in at least one initial value.
pub proof fn lemma_retry_independence(cfg: MlpConfig, s1: u64, s2: u64)
    requires
        cfg.wf(),
        s1 != s2,
    ensures
        sinit_model(cfg, s1) != sinit_model(cfg, s2),
{
    assert((s1 >> 0u64) & 0xffff != (s2 >> 0u64) & 0xffff || (s1 >> 16u64) & 0xffff != (s2
        >> 16u64) & 0xffff || (s1 >> 32u64) & 0xffff != (s2 >> 32u64) & 0xffff || (s1 >> 48u64)
        & 0xffff != (s2 >> 48u64) & 0xffff) by (bit_vector)
        requires
            s1 != s2,
    ;
    assert forall|s: u64, k: u64| k < 4 implies #[trigger] ((s >> 16 * k) & 0xffff) < 0x10000 by {
        assert((s >> 16 * k) & 0xffff < 0x10000) by (bit_vector);
    }
    assert((16 * 0) as u64 == 0u64 && (16 * 1) as u64 == 16u64 && (16 * 2) as u64 == 32u64 && (16
        * 3) as u64 == 48u64);
    let m1 = sinit_model(cfg, s1);
    let m2 = sinit_model(cfg, s2);
    if (s1 >> 0u64) & 0xffff != (s2 >> 0u64) & 0xffff {
        assert(m1.w1[0][0] == schunk(s1, 0) && m2.w1[0][0] == schunk(s2, 0));
        assert(schunk(s1, 0) != schunk(s2, 0));
    } else if (s1 >> 16u64) & 0xffff != (s2 >> 16u64) & 0xffff {
        assert(m1.b1[0] == schunk(s1, 1) && m2.b1[0] == schunk(s2, 1));
        assert(schunk(s1, 1) != schunk(s2, 1));
    } else if (s1 >> 32u64) & 0xffff != (s2 >> 32u64) & 0xffff {
        assert(m1.w2[0][0] == schunk(s1, 2) && m2.w2[0][0] == schunk(s2, 2));
        assert(schunk(s1, 2) != schunk(s2, 2));
    } else {
        assert(m1.b2[0] == schunk(s1, 3) && m2.b2[0] == schunk(s2, 3));
        assert(schunk(s1, 3) != schunk(s2, 3));
    }
}

} // verus!
