//! Training: manual backpropagation through the three layers, the
//! stochastic-gradient-descent step, the epoch-bounded training loop with
//! its accuracy-based early stop, and the retry supervisor that restarts
//! from a fresh random initialization after a non-convergent run.
use crate::eval::{accuracy, loss, scorrect, sdelta, sloss, softmax_delta};
use crate::fixed::{clamp64, clamp_i128, CAP, DIM_MAX, SCALE};
use crate::matrix::{
    colsum, matmul, maskpos, scolsum, sgd_mat, sgd_vec, smaskpos, smatmul, srelu, ssgd_entry,
    ssgd_mat, ssgd_vec, stranspose, transpose, wf_vec, Matrix,
};
use crate::model::{sforward, sinit_model, sz1, sz2, Mlp, MlpConfig, ModelS};
use crate::partition::{lemma_partition_sizes, stest_idx, strain_idx};
use crate::TrainError;
use vstd::prelude::*;

verus! {

/// One labelled example: a feature vector of plain integers and its class.
pub struct Sample {
    pub features: Vec<i64>,
    pub label: u32,
}

/// The split data the trainer works on: train and test feature matrices
/// with their label vectors.
#[derive(Clone)]
pub struct Dataset {
    pub train_values: Matrix,
    pub train_results: Vec<u32>,
    pub test_values: Matrix,
    pub test_results: Vec<u32>,
}

impl Dataset {
    pub open spec fn wf(&self) -> bool {
        &&& self.train_values.wf()
        &&& self.train_results@.len() == self.train_values.rows
        &&& self.test_values.wf()
        &&& self.test_results@.len() == self.test_values.rows
    }
}

/// A sample's feature vector brought to fixed point.
pub open spec fn sscaled_row(s: Sample, w: int) -> Seq<i64> {
    Seq::new(w as nat, |j: int| clamp64(s.features@[j] * (SCALE as int)))
}

fn scaled_row(s: &Sample, w: usize) -> (row: Vec<i64>)
    requires
        s.features@.len() == w,
    ensures
        row@ == sscaled_row(*s, w as int),
        wf_vec(row@, w as int),
{
    let mut row: Vec<i64> = Vec::new();
    let mut j: usize = 0;
    while j < w
        invariant
            s.features@.len() == w,
            j <= w,
            row@.len() == j,
            forall|c0: int|
                0 <= c0 < j ==> row@[c0] == #[trigger] clamp64(s.features@[c0] * (SCALE as int)),
            forall|c0: int| 0 <= c0 < j ==> -CAP <= #[trigger] row@[c0] <= CAP,
        decreases w - j,
    {
        let e: i64 = clamp_i128((s.features[j] as i128) * (SCALE as i128));
        row.push(e);
        j = j + 1;
    }
    proof {
        assert(row@ =~= sscaled_row(*s, w as int));
    }
    row
}

impl Dataset {
    /// Split a sample collection by the cadence rule — every `k`-th sample
    /// held out for testing, the rest kept for training, order preserved —
    /// and bring the features to fixed point. Total: any number of samples,
    /// including zero, is accepted.
    pub fn from_samples(samples: &Vec<Sample>, k: usize, width: usize) -> (ds: Dataset)
        requires
            1 <= k,
            1 <= width <= DIM_MAX,
            samples@.len() <= DIM_MAX,
            forall|i: int|
                0 <= i < samples@.len() ==> (#[trigger] samples@[i]).features@.len() == width,
        ensures
            ds.wf(),
            ds.train_values.cols == width,
            ds.test_values.cols == width,
            ds.train_values.rows == strain_idx(samples@.len() as int, k as int).len(),
            ds.test_values.rows == stest_idx(samples@.len() as int, k as int).len(),
            forall|r0: int|
                0 <= r0 < ds.train_values.rows ==> ds.train_values.sv()[r0] == sscaled_row(
                    samples@[strain_idx(samples@.len() as int, k as int)[r0] as int],
                    width as int,
                ) && ds.train_results@[r0] == samples@[#[trigger] strain_idx(
                    samples@.len() as int,
                    k as int,
                )[r0] as int].label,
            forall|r0: int|
                0 <= r0 < ds.test_values.rows ==> ds.test_values.sv()[r0] == sscaled_row(
                    samples@[stest_idx(samples@.len() as int, k as int)[r0] as int],
                    width as int,
                ) && ds.test_results@[r0] == samples@[#[trigger] stest_idx(
                    samples@.len() as int,
                    k as int,
                )[r0] as int].label,
    {
        let n: usize = samples.len();
        let mut train_data: Vec<Vec<i64>> = Vec::new();
        let mut train_results: Vec<u32> = Vec::new();
        let mut test_data: Vec<Vec<i64>> = Vec::new();
        let mut test_results: Vec<u32> = Vec::new();
        let mut i: usize = 0;
        while i < n
            invariant
                1 <= k,
                1 <= width <= DIM_MAX,
                n == samples@.len() <= DIM_MAX,
                forall|i0: int|
                    0 <= i0 < samples@.len() ==> (#[trigger] samples@[i0]).features@.len() == width,
                i <= n,
                train_data@.len() == strain_idx(i as int, k as int).len(),
                train_results@.len() == train_data@.len(),
                test_data@.len() == stest_idx(i as int, k as int).len(),
                test_results@.len() == test_data@.len(),
                forall|r0: int|
                    0 <= r0 < train_data@.len() ==> (#[trigger] train_data@[r0])@ == sscaled_row(
                        samples@[strain_idx(i as int, k as int)[r0] as int],
                        width as int,
                    ) && train_results@[r0] == samples@[strain_idx(i as int, k as int)[r0] as int].label,
                forall|r0: int|
                    0 <= r0 < test_data@.len() ==> (#[trigger] test_data@[r0])@ == sscaled_row(
                        samples@[stest_idx(i as int, k as int)[r0] as int],
                        width as int,
                    ) && test_results@[r0] == samples@[stest_idx(i as int, k as int)[r0] as int].label,
            decreases n - i,
        {
            let row: Vec<i64> = scaled_row(&samples[i], width);
            if i % k == 0 {
                test_data.push(row);
                test_results.push(samples[i].label);
                proof {
                    assert(stest_idx(i + 1, k as int) =~= stest_idx(i as int, k as int).push(i));
                    assert(strain_idx(i + 1, k as int) =~= strain_idx(i as int, k as int));
                }
            } else {
                train_data.push(row);
                train_results.push(samples[i].label);
                proof {
                    assert(strain_idx(i + 1, k as int) =~= strain_idx(i as int, k as int).push(i));
                    assert(stest_idx(i + 1, k as int) =~= stest_idx(i as int, k as int));
                }
            }
            i = i + 1;
        }
        proof {
            lemma_partition_sizes(n as int, k as int);
        }
        let train_rows: usize = train_data.len();
        let test_rows: usize = test_data.len();
        let ds = Dataset {
            train_values: Matrix { rows: train_rows, cols: width, data: train_data },
            train_results,
            test_values: Matrix { rows: test_rows, cols: width, data: test_data },
            test_results,
        };
        proof {
            let nn = samples@.len() as int;
            assert forall|r0: int| 0 <= r0 < ds.train_values.rows implies ds.train_values.sv()[r0]
                == sscaled_row(
                samples@[strain_idx(nn, k as int)[r0] as int],
                width as int,
            ) && ds.train_results@[r0] == samples@[#[trigger] strain_idx(nn, k as int)[r0] as int].label by {
                assert(ds.train_values.sv()[r0] == ds.train_values.data@[r0]@);
            }
            assert forall|r0: int| 0 <= r0 < ds.test_values.rows implies ds.test_values.sv()[r0]
                == sscaled_row(
                samples@[stest_idx(nn, k as int)[r0] as int],
                width as int,
            ) && ds.test_results@[r0] == samples@[#[trigger] stest_idx(nn, k as int)[r0] as int].label by {
                assert(ds.test_values.sv()[r0] == ds.test_values.data@[r0]@);
            }
        }
        ds
    }
}

/// The gradients of the batch loss with respect to every parameter tensor,
/// by backpropagation: the softmax residual flows back through the third
/// affine layer, is masked by each rectifier's derivative, and produces one
/// gradient tensor per parameter.
pub open spec fn sgrads(m: ModelS, x: Seq<Seq<i64>>, y: Seq<u32>) -> ModelS {
    let z1 = sz1(m, x);
    let a1 = srelu(z1);
    let z2 = sz2(m, x);
    let a2 = srelu(z2);
    let logits = sforward(m, x);
    let d3 = sdelta(logits, y, x.len() as int);
    let d2 = smaskpos(smatmul(d3, stranspose(m.w3)), z2);
    let d1 = smaskpos(smatmul(d2, stranspose(m.w2)), z1);
    ModelS {
        w1: smatmul(stranspose(x), d1),
        b1: scolsum(d1),
        w2: smatmul(stranspose(a1), d2),
        b2: scolsum(d2),
        w3: smatmul(stranspose(a2), d3),
        b3: scolsum(d3),
    }
}

/// One optimizer step: every parameter moves by
/// `-learning_rate * gradient`, in place.
pub open spec fn sstep(m: ModelS, x: Seq<Seq<i64>>, y: Seq<u32>, lr: i64) -> ModelS {
    let g = sgrads(m, x, y);
    ModelS {
        w1: ssgd_mat(m.w1, g.w1, lr),
        b1: ssgd_vec(m.b1, g.b1, lr),
        w2: ssgd_mat(m.w2, g.w2, lr),
        b2: ssgd_vec(m.b2, g.b2, lr),
        w3: ssgd_mat(m.w3, g.w3, lr),
        b3: ssgd_vec(m.b3, g.b3, lr),
    }
}

/// The parameters after `n` whole epochs of training on a fixed batch.
pub open spec fn smodel_after(m0: ModelS, x: Seq<Seq<i64>>, y: Seq<u32>, lr: i64, n: nat) -> ModelS
    decreases n,
{
    if n == 0 {
        m0
    } else {
        sstep(smodel_after(m0, x, y, lr, (n - 1) as nat), x, y, lr)
    }
}

/// After one step whose saturated, rounded update for some first-layer
/// weight is non-zero, at least one parameter value differs from its
/// pre-step value.
pub proof fn lemma_step_changes_params(
    m: ModelS,
    x: Seq<Seq<i64>>,
    y: Seq<u32>,
    lr: i64,
    i: int,
    j: int,
)
    requires
        0 <= i < m.w1.len(),
        0 <= j < m.w1[i].len(),
        ssgd_entry(m.w1[i][j], sgrads(m, x, y).w1[i][j], lr) != m.w1[i][j],
    ensures
        sstep(m, x, y, lr) != m,
        sstep(m, x, y, lr).w1[i][j] != m.w1[i][j],
{
    assert(sstep(m, x, y, lr).w1[i][j] == ssgd_entry(m.w1[i][j], sgrads(m, x, y).w1[i][j], lr));
}

/// The stochastic-gradient-descent updater: a fixed learning rate, no
/// momentum, no decay.
pub struct SgdOptimizer {
    pub lr_fx: i64,
}

impl SgdOptimizer {
    pub open spec fn wf(&self) -> bool {
        -CAP <= self.lr_fx <= CAP
    }

    /// One epoch's parameter update: computes the loss gradient with
    /// respect to every parameter of exactly the model passed in, and
    /// moves each parameter against its gradient, in place. No other state
    /// is touched.
    pub fn step(&self, model: &mut Mlp, x: &Matrix, y: &Vec<u32>)
        requires
            self.wf(),
            old(model).wf(),
            x.wf(),
            x.rows >= 1,
            x.cols == old(model).cfg.input_dim,
            y@.len() == x.rows,
        ensures
            final(model).wf(),
            final(model).cfg == old(model).cfg,
            final(model).msv() == sstep(old(model).msv(), x.sv(), y@, self.lr_fx),
    {
        let (z1, a1, z2, a2, logits) = model.forward_parts(x);
        let d3 = softmax_delta(&logits, y);
        let w3t = transpose(&model.w3);
        let d2 = maskpos(&matmul(&d3, &w3t), &z2);
        let w2t = transpose(&model.w2);
        let d1 = maskpos(&matmul(&d2, &w2t), &z1);
        let xt = transpose(x);
        let a1t = transpose(&a1);
        let a2t = transpose(&a2);
        let gw1 = matmul(&xt, &d1);
        let gb1 = colsum(&d1);
        let gw2 = matmul(&a1t, &d2);
        let gb2 = colsum(&d2);
        let gw3 = matmul(&a2t, &d3);
        let gb3 = colsum(&d3);
        model.w1 = sgd_mat(&model.w1, &gw1, self.lr_fx);
        model.b1 = sgd_vec(&model.b1, &gb1, self.lr_fx);
        model.w2 = sgd_mat(&model.w2, &gw2, self.lr_fx);
        model.b2 = sgd_vec(&model.b2, &gb2, self.lr_fx);
        model.w3 = sgd_mat(&model.w3, &gw3, self.lr_fx);
        model.b3 = sgd_vec(&model.b3, &gb3, self.lr_fx);
    }
}

/// The training loop's hyperparameters: the epoch budget, the target
/// accuracy as a fraction, and the fixed learning rate.
#[derive(Clone, Copy, Debug, PartialEq, Eq, Structural)]
pub struct TrainConfig {
    pub epochs: usize,
    pub target_num: usize,
    pub target_den: usize,
    pub lr_fx: i64,
}

impl TrainConfig {
    pub open spec fn wf(&self) -> bool {
        &&& 1 <= self.epochs
        &&& 1 <= self.target_den <= 0x1_0000_0000
        &&& self.target_num <= 0x1_0000_0000
        &&& -CAP <= self.lr_fx <= CAP
    }
}

impl Default for TrainConfig {
    /// The reference run: one hundred epochs, target accuracy nine tenths,
    /// learning rate 0.05 in fixed point.
    fn default() -> (c: Self)
        ensures
            c.epochs == 100,
            c.target_num == 9,
            c.target_den == 10,
            c.lr_fx == 3277,
            c.wf(),
    {
        TrainConfig { epochs: 100, target_num: 9, target_den: 10, lr_fx: 3277 }
    }
}

/// Whether `correct` out of `total` reaches the target fraction
/// `num / den`, compared without rounding.
pub open spec fn smeets(correct: int, total: int, num: int, den: int) -> bool {
    correct * den >= num * total
}

fn meets_target(correct: usize, total: usize, num: usize, den: usize) -> (r: bool)
    requires
        correct <= 0x1_0000_0000,
        total <= 0x1_0000_0000,
        num <= 0x1_0000_0000,
        den <= 0x1_0000_0000,
    ensures
        r == smeets(correct as int, total as int, num as int, den as int),
{
    proof {
        assert((correct as int) * (den as int) <= 0x1_0000_0000 * 0x1_0000_0000 && (num as int) * (
        total as int) <= 0x1_0000_0000 * 0x1_0000_0000) by (nonlinear_arith)
            requires
                correct <= 0x1_0000_0000,
                total <= 0x1_0000_0000,
                num <= 0x1_0000_0000,
                den <= 0x1_0000_0000,
        ;
    }
    (correct as u128) * (den as u128) >= (num as u128) * (total as u128)
}

/// The held-out accuracy (count of correctly classified test rows) after
/// `e` epochs of training from the seed's initial parameters.
pub open spec fn sacc_at(cfg: MlpConfig, tc: TrainConfig, ds: Dataset, seed: u64, e: nat) -> int {
    scorrect(
        sforward(
            smodel_after(
                sinit_model(cfg, seed),
                ds.train_values.sv(),
                ds.train_results@,
                tc.lr_fx,
                e,
            ),
            ds.test_values.sv(),
        ),
        ds.test_results@,
        ds.test_values.rows as int,
    )
}

/// The training loss computed at the start of epoch `e + 1`, on the
/// parameters after `e` epochs.
pub open spec fn sloss_at(cfg: MlpConfig, tc: TrainConfig, ds: Dataset, seed: u64, e: nat) -> i64 {
    sloss(
        sforward(
            smodel_after(
                sinit_model(cfg, seed),
                ds.train_values.sv(),
                ds.train_results@,
                tc.lr_fx,
                e,
            ),
            ds.train_values.sv(),
        ),
        ds.train_results@,
    )
}

/// Whether the run from this seed reaches the target at epoch `e`.
pub open spec fn sepoch_meets(
    cfg: MlpConfig,
    tc: TrainConfig,
    ds: Dataset,
    seed: u64,
    e: nat,
) -> bool {
    smeets(
        sacc_at(cfg, tc, ds, seed, e),
        ds.test_values.rows as int,
        tc.target_num as int,
        tc.target_den as int,
    )
}

/// The run from this seed stops early at epoch `n`: the target is reached
/// there and at no earlier epoch.
pub open spec fn srun_converges_at(
    cfg: MlpConfig,
    tc: TrainConfig,
    ds: Dataset,
    seed: u64,
    n: int,
) -> bool {
    &&& 1 <= n <= tc.epochs
    &&& sepoch_meets(cfg, tc, ds, seed, n as nat)
    &&& forall|e: int| 1 <= e < n ==> !(#[trigger] sepoch_meets(cfg, tc, ds, seed, e as nat))
}

/// The run from this seed spends its whole epoch budget below the target.
pub open spec fn srun_exhausted(cfg: MlpConfig, tc: TrainConfig, ds: Dataset, seed: u64) -> bool {
    forall|e: int|
        1 <= e <= tc.epochs ==> !(#[trigger] sepoch_meets(cfg, tc, ds, seed, e as nat))
}

/// The progress record emitted once per epoch.
#[derive(Clone, Copy, Debug, PartialEq, Eq, Structural)]
pub struct EpochReport {
    pub epoch: usize,
    pub train_loss: i64,
    pub correct: usize,
    pub total: usize,
}

/// How one training run ended: early convergence with the trained model and
/// its held-out accuracy, or exhaustion of the epoch budget.
pub enum RunOutcome {
    Converged { model: Mlp, correct: usize, total: usize },
    Exhausted { correct: usize, total: usize },
}

impl RunOutcome {
    /// The outcome as a result, the way the original caller consumed it:
    /// the trained model with its held-out accuracy on convergence, or
    /// `TrainingNotConverged` when the epoch budget ran out. The supervisor
    /// recovers from the latter by restarting; it is never fatal there.
    pub fn into_result(self) -> (r: Result<(Mlp, usize, usize), TrainError>)
        ensures
            (self matches RunOutcome::Converged { model, correct, total } ==> r == Ok::<
                (Mlp, usize, usize),
                TrainError,
            >((model, correct, total))),
            (self matches RunOutcome::Exhausted { .. } ==> r == Err::<
                (Mlp, usize, usize),
                TrainError,
            >(TrainError::TrainingNotConverged)),
    {
        match self {
            RunOutcome::Converged { model, correct, total } => Ok((model, correct, total)),
            RunOutcome::Exhausted { .. } => Err(TrainError::TrainingNotConverged),
        }
    }
}

/// One training run: initialize the parameters from the seed, then per
/// epoch compute the training loss, take one optimizer step, evaluate the
/// held-out accuracy, and stop early as soon as the target fraction is
/// reached; report `Exhausted` if the budget ends first. An empty split
/// fails with `EmptyDataset` and a feature width differing from the
/// configured input width fails with `DimensionMismatch`; on every other
/// input the run completes with `Ok`.
pub fn train_run(cfg: &MlpConfig, tc: &TrainConfig, ds: &Dataset, seed: u64) -> (r: Result<
    (RunOutcome, Vec<EpochReport>),
    TrainError,
>)
    requires
        cfg.wf(),
        tc.wf(),
        ds.wf(),
        forall|i: int|
            0 <= i < ds.train_results@.len() ==> (#[trigger] ds.train_results@[i] as int)
                < cfg.output_dim,
    ensures
        ({
            let empty = ds.train_values.rows == 0 || ds.test_values.rows == 0;
            let mism = ds.train_values.cols != cfg.input_dim || ds.test_values.cols
                != cfg.input_dim;
            match r {
                Err(e) => (e == TrainError::EmptyDataset && empty) || (e
                    == TrainError::DimensionMismatch && !empty && mism),
                Ok((outcome, reports)) => {
                    &&& !empty
                    &&& !mism
                    &&& reports@.len() <= tc.epochs
                    &&& forall|e: int|
                        0 <= e < reports@.len() ==> (#[trigger] reports@[e]).epoch == e + 1
                            && reports@[e].train_loss == sloss_at(*cfg, *tc, *ds, seed, e as nat)
                            && reports@[e].correct == sacc_at(*cfg, *tc, *ds, seed, (e + 1) as nat)
                            && reports@[e].total == ds.test_values.rows
                    &&& match outcome {
                        RunOutcome::Converged { model, correct, total } => {
                            &&& reports@.len() >= 1
                            &&& srun_converges_at(*cfg, *tc, *ds, seed, reports@.len() as int)
                            &&& model.wf()
                            &&& model.cfg == *cfg
                            &&& model.msv() == smodel_after(
                                sinit_model(*cfg, seed),
                                ds.train_values.sv(),
                                ds.train_results@,
                                tc.lr_fx,
                                reports@.len() as nat,
                            )
                            &&& correct == sacc_at(*cfg, *tc, *ds, seed, reports@.len() as nat)
                            &&& total == ds.test_values.rows
                        },
                        RunOutcome::Exhausted { correct, total } => {
                            &&& reports@.len() == tc.epochs
                            &&& srun_exhausted(*cfg, *tc, *ds, seed)
                            &&& correct == sacc_at(*cfg, *tc, *ds, seed, tc.epochs as nat)
                            &&& total == ds.test_values.rows
                        },
                    }
                },
            }
        }),
{
    if ds.train_values.rows == 0 || ds.test_values.rows == 0 {
        return Err(TrainError::EmptyDataset);
    }
    if ds.train_values.cols != cfg.input_dim || ds.test_values.cols != cfg.input_dim {
        return Err(TrainError::DimensionMismatch);
    }
    let mut model = Mlp::init(cfg, seed);
    let opt = SgdOptimizer { lr_fx: tc.lr_fx };
    let ghost m0 = sinit_model(*cfg, seed);
    let mut reports: Vec<EpochReport> = Vec::new();
    let mut epoch: usize = 0;
    let mut last_correct: usize = 0;
    let mut last_total: usize = ds.test_values.rows;
    while epoch < tc.epochs
        invariant
            cfg.wf(),
            tc.wf(),
            ds.wf(),
            forall|i: int|
                0 <= i < ds.train_results@.len() ==> (#[trigger] ds.train_results@[i] as int)
                    < cfg.output_dim,
            ds.train_values.rows >= 1,
            ds.test_values.rows >= 1,
            ds.train_values.cols == cfg.input_dim,
            ds.test_values.cols == cfg.input_dim,
            opt.lr_fx == tc.lr_fx,
            opt.wf(),
            epoch <= tc.epochs,
            model.wf(),
            model.cfg == *cfg,
            m0 == sinit_model(*cfg, seed),
            model.msv() == smodel_after(
                m0,
                ds.train_values.sv(),
                ds.train_results@,
                tc.lr_fx,
                epoch as nat,
            ),
            reports@.len() == epoch,
            forall|e: int|
                0 <= e < epoch ==> (#[trigger] reports@[e]).epoch == e + 1
                    && reports@[e].train_loss == sloss_at(*cfg, *tc, *ds, seed, e as nat)
                    && reports@[e].correct == sacc_at(*cfg, *tc, *ds, seed, (e + 1) as nat)
                    && reports@[e].total == ds.test_values.rows,
            forall|e: int|
                1 <= e <= epoch ==> !(#[trigger] sepoch_meets(*cfg, *tc, *ds, seed, e as nat)),
            epoch > 0 ==> last_correct == sacc_at(*cfg, *tc, *ds, seed, epoch as nat),
            last_total == ds.test_values.rows,
        decreases tc.epochs - epoch,
    {
        let train_parts = model.forward_parts(&ds.train_values);
        let l: i64 = loss(&train_parts.4, &ds.train_results);
        opt.step(&mut model, &ds.train_values, &ds.train_results);
        let test_parts = model.forward_parts(&ds.test_values);
        let ct = accuracy(&test_parts.4, &ds.test_results);
        let c: usize = ct.0;
        let t: usize = ct.1;
        epoch = epoch + 1;
        reports.push(EpochReport { epoch, train_loss: l, correct: c, total: t });
        last_correct = c;
        last_total = t;
        proof {
            assert(model.msv() == smodel_after(
                m0,
                ds.train_values.sv(),
                ds.train_results@,
                tc.lr_fx,
                epoch as nat,
            ));
            assert(c == sacc_at(*cfg, *tc, *ds, seed, epoch as nat));
        }
        if meets_target(c, t, tc.target_num, tc.target_den) {
            proof {
                assert(sepoch_meets(*cfg, *tc, *ds, seed, epoch as nat));
            }
            return Ok((RunOutcome::Converged { model, correct: c, total: t }, reports));
        }
        proof {
            assert(!sepoch_meets(*cfg, *tc, *ds, seed, epoch as nat));
        }
    }
    Ok((RunOutcome::Exhausted { correct: last_correct, total: last_total }, reports))
}

/// Relies on rand::random: a freshly drawn 64-bit value from the
/// thread-local generator; nothing is assumed of its value or distribution.
#[verifier::external_body]
fn fresh_seed() -> u64 {
    rand::random::<u64>()
}

/// One row of the retry supervisor's log: which seed the attempt started
/// from and how its run ended.
#[derive(Clone, Copy, Debug, PartialEq, Eq, Structural)]
pub struct AttemptReport {
    pub seed: u64,
    pub converged: bool,
    pub epochs_run: usize,
    pub correct: usize,
    pub total: usize,
}

/// The retry supervisor: run training from a fresh random initialization,
/// and on a non-convergent run discard the model entirely and retry from a
/// new seed, up to `max_attempts` fully independent attempts. Structural
/// failures (`EmptyDataset`, `DimensionMismatch`) are reported immediately
/// and never retried; only exhaustion of the epoch budget is retried, and
/// once every attempt has been spent the result is `ExhaustedRetries`.
/// The log records, per attempt, the seed drawn and the run's end, and the
/// contract ties every attempt's outcome to the training recurrence on its
/// own seed.
pub fn train_until_success(cfg: &MlpConfig, tc: &TrainConfig, ds: &Dataset, max_attempts: usize)
    -> (r: (Result<(Mlp, usize, usize), TrainError>, Vec<AttemptReport>))
    requires
        cfg.wf(),
        tc.wf(),
        ds.wf(),
        1 <= max_attempts,
        forall|i: int|
            0 <= i < ds.train_results@.len() ==> (#[trigger] ds.train_results@[i] as int)
                < cfg.output_dim,
    ensures
        ({
            let empty = ds.train_values.rows == 0 || ds.test_values.rows == 0;
            let mism = ds.train_values.cols != cfg.input_dim || ds.test_values.cols
                != cfg.input_dim;
            let log = r.1;
            &&& ((r.0 == Err::<(Mlp, usize, usize), TrainError>(TrainError::EmptyDataset)) <==> empty)
            &&& ((r.0 == Err::<(Mlp, usize, usize), TrainError>(TrainError::DimensionMismatch))
                <==> (!empty && mism))
            &&& (empty || mism ==> log@.len() == 0)
            &&& log@.len() <= max_attempts
            &&& forall|a: int|
                0 <= a < log@.len() ==> {
                    &&& (#[trigger] log@[a]).total == ds.test_values.rows
                    &&& log@[a].correct == sacc_at(
                        *cfg,
                        *tc,
                        *ds,
                        log@[a].seed,
                        log@[a].epochs_run as nat,
                    )
                    &&& (log@[a].converged ==> srun_converges_at(
                        *cfg,
                        *tc,
                        *ds,
                        log@[a].seed,
                        log@[a].epochs_run as int,
                    ))
                    &&& (!log@[a].converged ==> log@[a].epochs_run == tc.epochs && srun_exhausted(
                        *cfg,
                        *tc,
                        *ds,
                        log@[a].seed,
                    ))
                }
            &&& forall|a: int| 0 <= a < log@.len() - 1 ==> !(#[trigger] log@[a]).converged
            &&& (log@.len() >= 1 && !log@[0].converged && max_attempts >= 2 ==> log@.len() >= 2)
            &&& match r.0 {
                Ok((m, c, t)) => {
                    &&& !empty
                    &&& !mism
                    &&& log@.len() >= 1
                    &&& log@.last().converged
                    &&& m.wf()
                    &&& m.cfg == *cfg
                    &&& m.msv() == smodel_after(
                        sinit_model(*cfg, log@.last().seed),
                        ds.train_values.sv(),
                        ds.train_results@,
                        tc.lr_fx,
                        log@.last().epochs_run as nat,
                    )
                    &&& c == log@.last().correct
                    &&& t == ds.test_values.rows
                    &&& smeets(c as int, t as int, tc.target_num as int, tc.target_den as int)
                },
                Err(e) => {
                    &&& (e == TrainError::EmptyDataset || e == TrainError::DimensionMismatch || e
                        == TrainError::ExhaustedRetries)
                    &&& (e == TrainError::ExhaustedRetries ==> (!empty && !mism && log@.len()
                        == max_attempts && !log@.last().converged))
                },
            }
        }),
{
    if ds.train_values.rows == 0 || ds.test_values.rows == 0 {
        return (Err(TrainError::EmptyDataset), Vec::new());
    }
    if ds.train_values.cols != cfg.input_dim || ds.test_values.cols != cfg.input_dim {
        return (Err(TrainError::DimensionMismatch), Vec::new());
    }
    let mut log: Vec<AttemptReport> = Vec::new();
    let mut a: usize = 0;
    while a < max_attempts
        invariant
            cfg.wf(),
            tc.wf(),
            ds.wf(),
            forall|i: int|
                0 <= i < ds.train_results@.len() ==> (#[trigger] ds.train_results@[i] as int)
                    < cfg.output_dim,
            ds.train_values.rows >= 1,
            ds.test_values.rows >= 1,
            ds.train_values.cols == cfg.input_dim,
            ds.test_values.cols == cfg.input_dim,
            a <= max_attempts,
            log@.len() == a,
            forall|a0: int|
                0 <= a0 < log@.len() ==> {
                    &&& (#[trigger] log@[a0]).total == ds.test_values.rows
                    &&& log@[a0].correct == sacc_at(
                        *cfg,
                        *tc,
                        *ds,
                        log@[a0].seed,
                        log@[a0].epochs_run as nat,
                    )
                    &&& !log@[a0].converged
                    &&& log@[a0].epochs_run == tc.epochs
                    &&& srun_exhausted(*cfg, *tc, *ds, log@[a0].seed)
                },
        decreases max_attempts - a,
    {
        let seed: u64 = fresh_seed();
        match train_run(cfg, tc, ds, seed) {
            Ok((outcome, reports)) => {
                let n_epochs: usize = reports.len();
                match outcome {
                    RunOutcome::Converged { model, correct, total } => {
                        log.push(
                            AttemptReport {
                                seed,
                                converged: true,
                                epochs_run: n_epochs,
                                correct,
                                total,
                            },
                        );
                        return (Ok((model, correct, total)), log);
                    },
                    RunOutcome::Exhausted { correct, total } => {
                        log.push(
                            AttemptReport {
                                seed,
                                converged: false,
                                epochs_run: n_epochs,
                                correct,
                                total,
                            },
                        );
                    },
                }
            },
            Err(e) => {
                proof {
                    assert(false);
                }
                return (Err(e), log);
            },
        }
        a = a + 1;
    }
    (Err(TrainError::ExhaustedRetries), log)
}

} // verus!
