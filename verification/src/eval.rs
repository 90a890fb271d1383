//! Loss and evaluation: a numerically stable log-softmax / negative
//! log-likelihood loss in fixed point, the batch accuracy, and the softmax
//! residual that backpropagation starts from.
use crate::fixed::{clamp64, clamp_i128, div_trunc, spec_tdiv, CAP, DIM_MAX, SCALE};
use crate::matrix::wf_vec;
use crate::matrix::Matrix;
use vstd::arithmetic::div_mod::{lemma_div_is_ordered, lemma_fundamental_div_mod};
use vstd::arithmetic::power2::{lemma2_to64, lemma_pow2_adds, lemma_pow2_strictly_increases, pow2};
use vstd::prelude::*;

verus! {

/// ln(2) in fixed-point units.
pub const LN2_FX: i64 = 45426;

/// One squaring step of the exponential: `v^2` rescaled.
pub open spec fn ssq(v: int) -> int {
    spec_tdiv(v * v, SCALE as int)
}

/// Fixed-point `exp(x)` for non-positive arguments, as
/// `(1 + x/32)^32` computed by five squarings, with the argument saturated
/// at `-16.0`. Always in `[0, 1]`, exactly `1` at zero.
pub open spec fn spec_exp(x: int) -> int {
    let x0 = if x < -16 * (SCALE as int) {
        -16 * (SCALE as int)
    } else if x > 0 {
        0
    } else {
        x
    };
    let b0 = SCALE as int + spec_tdiv(x0, 32);
    ssq(ssq(ssq(ssq(ssq(b0)))))
}

/// Squaring keeps a value in `[0, SCALE]`.
pub proof fn lemma_ssq_bounds(v: int)
    requires
        0 <= v <= SCALE,
    ensures
        0 <= ssq(v) <= SCALE,
{
    assert(0 <= v * v <= (SCALE as int) * (SCALE as int)) by (nonlinear_arith)
        requires
            0 <= v <= SCALE,
    ;
    lemma_div_is_ordered(v * v, (SCALE as int) * (SCALE as int), SCALE as int);
    assert((SCALE as int) * (SCALE as int) / (SCALE as int) == SCALE as int);
}

/// The exponential stays in `[0, 1]` and is exactly `1` at zero.
pub proof fn lemma_exp_bounds(x: int)
    ensures
        0 <= spec_exp(x) <= SCALE,
        x == 0 ==> spec_exp(x) == SCALE,
{
    let x0 = if x < -16 * (SCALE as int) {
        -16 * (SCALE as int)
    } else if x > 0 {
        0
    } else {
        x
    };
    assert(0 <= -x0 <= 16 * (SCALE as int));
    lemma_div_is_ordered(-x0, 16 * (SCALE as int), 32);
    let b0 = SCALE as int + spec_tdiv(x0, 32);
    assert(0 <= b0 <= SCALE);
    lemma_ssq_bounds(b0);
    lemma_ssq_bounds(ssq(b0));
    lemma_ssq_bounds(ssq(ssq(b0)));
    lemma_ssq_bounds(ssq(ssq(ssq(b0))));
    lemma_ssq_bounds(ssq(ssq(ssq(ssq(b0)))));
    if x == 0 {
        assert(spec_tdiv(0, 32) == 0);
        assert(ssq(SCALE as int) == SCALE as int);
    }
}

/// Fixed-point `exp` of a logit difference.
pub fn exp_fx(x: i64) -> (r: i64)
    requires
        -0x7fff_ffff_ffff_0000 <= x <= 0x7fff_ffff_ffff_0000,
    ensures
        r == spec_exp(x as int),
        0 <= r <= SCALE,
        x == 0 ==> r == SCALE,
{
    proof {
        lemma_exp_bounds(x as int);
    }
    let x0: i64 = if x < -16 * SCALE {
        -16 * SCALE
    } else if x > 0 {
        0
    } else {
        x
    };
    let d: i64 = (-x0) / 32;
    proof {
        lemma_div_is_ordered(-x0 as int, 16 * (SCALE as int), 32);
    }
    let b0: i64 = SCALE - d;
    let b1: i64 = sq_step(b0);
    let b2: i64 = sq_step(b1);
    let b3: i64 = sq_step(b2);
    let b4: i64 = sq_step(b3);
    sq_step(b4)
}

fn sq_step(v: i64) -> (r: i64)
    requires
        0 <= v <= SCALE,
    ensures
        r == ssq(v as int),
        0 <= r <= SCALE,
{
    proof {
        assert(0 <= (v as int) * (v as int) <= (SCALE as int) * (SCALE as int))
            by (nonlinear_arith)
            requires
                0 <= v <= SCALE,
        ;
        lemma_ssq_bounds(v as int);
    }
    (v * v) / SCALE
}

/// How many halvings bring a value below `2.0`.
pub open spec fn slog2e(m: int) -> int
    decreases m,
{
    if m < 2 * (SCALE as int) {
        0
    } else {
        1 + slog2e(m / 2)
    }
}

/// What is left of a value after those halvings: its mantissa in `[1, 2)`.
pub open spec fn smant(m: int) -> int
    decreases m,
{
    if m < 2 * (SCALE as int) {
        m
    } else {
        smant(m / 2)
    }
}

/// Fixed-point natural logarithm for arguments at least `1.0`:
/// `e * ln 2` for the halving count `e`, plus a linear interpolation of the
/// mantissa between `ln 1` and `ln 2`.
pub open spec fn spec_log(y: int) -> int {
    slog2e(y) * (LN2_FX as int) + spec_tdiv((smant(y) - SCALE) * (LN2_FX as int), SCALE as int)
}

/// The mantissa of a value at least `1.0` lies in `[1, 2)`.
pub proof fn lemma_smant_bounds(y: int)
    requires
        SCALE <= y,
    ensures
        SCALE <= smant(y) < 2 * (SCALE as int),
        slog2e(y) >= 0,
    decreases y,
{
    if y >= 2 * (SCALE as int) {
        lemma_fundamental_div_mod(y, 2);
        lemma_smant_bounds(y / 2);
    }
}

/// The logarithm of a value at least `1.0` is non-negative.
pub proof fn lemma_log_nonneg(y: int)
    requires
        SCALE <= y,
    ensures
        spec_log(y) >= 0,
{
    lemma_smant_bounds(y);
    assert(slog2e(y) * (LN2_FX as int) >= 0) by (nonlinear_arith)
        requires
            slog2e(y) >= 0,
    ;
    assert(0 <= (smant(y) - SCALE) * (LN2_FX as int));
    lemma_div_is_ordered(0, (smant(y) - SCALE) * (LN2_FX as int), SCALE as int);
}

/// Fixed-point natural logarithm.
pub fn log_fx(y: i64) -> (r: i64)
    requires
        SCALE <= y <= CAP,
    ensures
        r == spec_log(y as int),
        0 <= r <= 3000000,
{
    let mut m: i64 = y;
    let mut e: u32 = 0;
    proof {
        lemma2_to64();
    }
    while m >= 2 * SCALE
        invariant
            SCALE <= m <= y <= CAP,
            slog2e(y as int) == e + slog2e(m as int),
            smant(y as int) == smant(m as int),
            pow2(e as nat) * (m as int) <= y as int,
            e <= 40,
        decreases m,
    {
        proof {
            let p = pow2(e as nat) as int;
            lemma_pow2_adds(e as nat, 1);
            lemma2_to64();
            assert(pow2((e + 1) as nat) == 2 * p);
            lemma_fundamental_div_mod(m as int, 2);
            assert(2 * ((m as int) / 2) <= m as int);
            assert((2 * p) * ((m as int) / 2) <= p * (m as int)) by (nonlinear_arith)
                requires
                    2 * ((m as int) / 2) <= m as int,
                    p >= 0,
            ;
            if e + 1 > 40 {
                lemma_pow2_strictly_increases(24, (e + 1) as nat);
                assert(pow2((e + 1) as nat) * ((m as int) / 2) >= pow2((e + 1) as nat) * (
                SCALE as int)) by (nonlinear_arith)
                    requires
                        (m as int) / 2 >= SCALE as int,
                        pow2((e + 1) as nat) >= 0,
                ;
            }
        }
        m = m / 2;
        e = e + 1;
    }
    let frac: i64 = ((m - SCALE) * LN2_FX) / SCALE;
    proof {
        assert(0 <= (m - SCALE) * (LN2_FX as int) <= (SCALE as int) * (LN2_FX as int))
            by (nonlinear_arith)
            requires
                0 <= m - SCALE <= SCALE,
        ;
        lemma_div_is_ordered(0, ((m - SCALE) * (LN2_FX as int)), SCALE as int);
        lemma_div_is_ordered(
            ((m - SCALE) * (LN2_FX as int)),
            (SCALE as int) * (LN2_FX as int),
            SCALE as int,
        );
        assert((SCALE as int) * (LN2_FX as int) / (SCALE as int) == LN2_FX as int);
    }
    (e as i64) * LN2_FX + frac
}

/// The largest entry among the first `n` of a row.
pub open spec fn srowmax(r: Seq<i64>, n: int) -> i64
    decreases n,
{
    if n <= 1 {
        r[0]
    } else if r[n - 1] > srowmax(r, n - 1) {
        r[n - 1]
    } else {
        srowmax(r, n - 1)
    }
}

/// The row maximum bounds every entry and is attained.
pub proof fn lemma_srowmax_attained(r: Seq<i64>, n: int)
    requires
        1 <= n <= r.len(),
    ensures
        forall|i: int| 0 <= i < n ==> r[i] <= srowmax(r, n),
        exists|i: int| 0 <= i < n && r[i] == srowmax(r, n),
    decreases n,
{
    if n <= 1 {
        assert(r[0] == srowmax(r, n));
    } else {
        lemma_srowmax_attained(r, n - 1);
        if r[n - 1] > srowmax(r, n - 1) {
            assert(r[n - 1] == srowmax(r, n));
        } else {
            let i = choose|i: int| 0 <= i < n - 1 && r[i] == srowmax(r, n - 1);
            assert(r[i] == srowmax(r, n));
        }
    }
}

/// Sum of the exponentials of the first `n` entries, shifted by `mx`.
pub open spec fn ssumexp(r: Seq<i64>, mx: int, n: int) -> int
    decreases n,
{
    if n <= 0 {
        0
    } else {
        ssumexp(r, mx, n - 1) + spec_exp(r[n - 1] - mx)
    }
}

pub proof fn lemma_ssumexp_bounds(r: Seq<i64>, mx: int, n: int)
    requires
        0 <= n,
    ensures
        0 <= ssumexp(r, mx, n) <= n * (SCALE as int),
    decreases n,
{
    if n > 0 {
        lemma_ssumexp_bounds(r, mx, n - 1);
        lemma_exp_bounds(r[n - 1] - mx);
    }
}

/// When the shift is attained, the shifted sum includes `exp(0) == 1`, so it
/// is at least `1.0`.
pub proof fn lemma_ssumexp_hit(r: Seq<i64>, mx: int, n: int, i: int)
    requires
        0 <= i < n,
        r[i] == mx,
    ensures
        ssumexp(r, mx, n) >= SCALE,
    decreases n,
{
    lemma_exp_bounds(r[n - 1] - mx);
    if i == n - 1 {
        lemma_ssumexp_bounds(r, mx, n - 1);
        lemma_exp_bounds(0);
    } else {
        lemma_ssumexp_hit(r, mx, n - 1, i);
    }
}

/// The loss of one row: the log of the shifted exponential sum minus the
/// shifted logit of the true class, saturated. Non-negative, since the log
/// term is non-negative and no logit exceeds the row maximum.
pub open spec fn srowloss(r: Seq<i64>, lbl: int) -> i64 {
    let mx = srowmax(r, r.len() as int) as int;
    clamp64(spec_log(ssumexp(r, mx, r.len() as int)) - (r[lbl] - mx))
}

/// Total loss of the first `n` rows.
pub open spec fn sloss_sum(l: Seq<Seq<i64>>, y: Seq<u32>, n: int) -> int
    decreases n,
{
    if n <= 0 {
        0
    } else {
        sloss_sum(l, y, n - 1) + srowloss(l[n - 1], y[n - 1] as int)
    }
}

/// The batch loss: the mean of the per-row negative log-likelihoods.
pub open spec fn sloss(l: Seq<Seq<i64>>, y: Seq<u32>) -> i64 {
    clamp64(spec_tdiv(sloss_sum(l, y, l.len() as int), l.len() as int))
}

/// One row's loss is non-negative.
pub proof fn lemma_srowloss_nonneg(r: Seq<i64>, lbl: int)
    requires
        1 <= r.len(),
        0 <= lbl < r.len(),
        forall|j: int| 0 <= j < r.len() ==> -CAP <= #[trigger] r[j] <= CAP,
    ensures
        0 <= srowloss(r, lbl) <= CAP,
{
    let n = r.len() as int;
    let mx = srowmax(r, n) as int;
    lemma_srowmax_attained(r, n);
    let i = choose|i: int| 0 <= i < n && r[i] == srowmax(r, n);
    lemma_ssumexp_hit(r, mx, n, i);
    lemma_log_nonneg(ssumexp(r, mx, n));
}

/// Negative log-likelihood loss of a batch of logits against true labels,
/// averaged over the batch. Never negative.
pub fn loss(logits: &Matrix, labels: &Vec<u32>) -> (r: i64)
    requires
        logits.wf(),
        logits.rows >= 1,
        logits.cols >= 1,
        labels@.len() == logits.rows,
        forall|i: int| 0 <= i < labels@.len() ==> (#[trigger] labels@[i] as int) < logits.cols,
    ensures
        r == sloss(logits.sv(), labels@),
        0 <= r <= CAP,
{
    let ghost lv = logits.sv();
    let mut acc: i128 = 0;
    let mut i: usize = 0;
    while i < logits.rows
        invariant
            logits.wf(),
            logits.rows >= 1,
            logits.cols >= 1,
            labels@.len() == logits.rows,
            forall|i0: int|
                0 <= i0 < labels@.len() ==> (#[trigger] labels@[i0] as int) < logits.cols,
            lv == logits.sv(),
            i <= logits.rows,
            acc == sloss_sum(lv, labels@, i as int),
            0 <= acc <= (i as int) * (CAP as int),
        decreases logits.rows - i,
    {
        let rl: i64 = row_loss(logits, i, labels[i]);
        acc = acc + (rl as i128);
        i = i + 1;
    }
    let mean: i128 = acc / (logits.rows as i128);
    let r = clamp_i128(mean);
    proof {
        assert(mean == spec_tdiv(acc as int, logits.rows as int));
        assert(mean >= 0) by {
            lemma_div_is_ordered(0, acc as int, logits.rows as int);
        }
    }
    r
}

/// The negative log-likelihood of one row of logits under its true label.
fn row_loss(logits: &Matrix, i: usize, lbl: u32) -> (r: i64)
    requires
        logits.wf(),
        logits.cols >= 1,
        i < logits.rows,
        (lbl as int) < logits.cols,
    ensures
        r == srowloss(logits.sv()[i as int], lbl as int),
        0 <= r <= CAP,
{
    let ghost rv = logits.sv()[i as int];
    proof {
        lemma_srowloss_nonneg(rv, lbl as int);
    }
    let stats = row_stats(logits, i);
    let mx: i64 = stats.0;
    let se: i64 = stats.1;
    let lg: i64 = log_fx(se);
    let shifted: i64 = logits.data[i][lbl as usize] - mx;
    clamp_i128((lg as i128) - (shifted as i128))
}

/// The row maximum and the sum of shifted exponentials of one row of
/// logits: the two quantities the loss and the softmax residual both start
/// from. The sum is at least `1.0`, since the shifted maximum contributes
/// `exp(0)`.
fn row_stats(logits: &Matrix, i: usize) -> (r: (i64, i64))
    requires
        logits.wf(),
        logits.cols >= 1,
        i < logits.rows,
    ensures
        r.0 == srowmax(logits.sv()[i as int], logits.cols as int),
        -CAP <= r.0 <= CAP,
        r.1 == ssumexp(logits.sv()[i as int], r.0 as int, logits.cols as int),
        SCALE <= r.1 <= CAP,
{
    let ghost rv = logits.sv()[i as int];
    let n: usize = logits.cols;
    let mut mx: i64 = logits.data[i][0];
    let mut k: usize = 1;
    while k < n
        invariant
            logits.wf(),
            logits.cols >= 1,
            i < logits.rows,
            rv == logits.sv()[i as int],
            n == logits.cols,
            1 <= k <= n,
            mx == srowmax(rv, k as int),
            -CAP <= mx <= CAP,
        decreases n - k,
    {
        let v: i64 = logits.data[i][k];
        if v > mx {
            mx = v;
        }
        k = k + 1;
    }
    proof {
        lemma_srowmax_attained(rv, n as int);
    }
    let mut se: i64 = 0;
    let mut j: usize = 0;
    while j < n
        invariant
            logits.wf(),
            logits.cols >= 1,
            i < logits.rows,
            rv == logits.sv()[i as int],
            n == logits.cols,
            j <= n,
            -CAP <= mx <= CAP,
            se == ssumexp(rv, mx as int, j as int),
            0 <= se <= (j as int) * (SCALE as int),
        decreases n - j,
    {
        proof {
            lemma_exp_bounds(rv[j as int] - mx);
        }
        let t: i64 = exp_fx(logits.data[i][j] - mx);
        se = se + t;
        j = j + 1;
    }
    proof {
        let w = choose|w: int| 0 <= w < n && rv[w] == srowmax(rv, n as int);
        lemma_ssumexp_hit(rv, mx as int, n as int, w);
        assert((n as int) * (SCALE as int) <= (DIM_MAX as int) * (SCALE as int))
            by (nonlinear_arith)
            requires
                0 <= n <= DIM_MAX,
        ;
    }
    (mx, se)
}


/// The index of the largest entry among the first `n`, lowest index on ties.
pub open spec fn sargmax(r: Seq<i64>, n: int) -> int
    decreases n,
{
    if n <= 1 {
        0
    } else if r[n - 1] > r[sargmax(r, n - 1)] {
        n - 1
    } else {
        sargmax(r, n - 1)
    }
}

pub proof fn lemma_sargmax_range(r: Seq<i64>, n: int)
    requires
        1 <= n,
    ensures
        0 <= sargmax(r, n) < n,
    decreases n,
{
    if n > 1 {
        lemma_sargmax_range(r, n - 1);
    }
}

/// How many of the first `n` rows are classified correctly: the predicted
/// class is the index of the largest logit, ties broken by lowest index.
pub open spec fn scorrect(l: Seq<Seq<i64>>, y: Seq<u32>, n: int) -> int
    decreases n,
{
    if n <= 0 {
        0
    } else {
        scorrect(l, y, n - 1) + if sargmax(l[n - 1], l[n - 1].len() as int) == y[n - 1] as int {
            1int
        } else {
            0int
        }
    }
}

/// The correct count never exceeds the batch size: the accuracy fraction
/// lies in `[0, 1]`.
pub proof fn lemma_accuracy_bounds(l: Seq<Seq<i64>>, y: Seq<u32>, n: int)
    requires
        0 <= n,
    ensures
        0 <= scorrect(l, y, n) <= n,
    decreases n,
{
    if n > 0 {
        lemma_accuracy_bounds(l, y, n - 1);
    }
}

/// The accuracy is exactly `1` when every row's predicted class matches its
/// label, and exactly `0` when none does.
pub proof fn lemma_accuracy_extremes(l: Seq<Seq<i64>>, y: Seq<u32>, n: int)
    requires
        0 <= n,
    ensures
        (forall|i: int|
            0 <= i < n ==> sargmax(#[trigger] l[i], l[i].len() as int) == y[i] as int) ==> scorrect(
            l,
            y,
            n,
        ) == n,
        (forall|i: int|
            0 <= i < n ==> sargmax(#[trigger] l[i], l[i].len() as int) != y[i] as int) ==> scorrect(
            l,
            y,
            n,
        ) == 0,
    decreases n,
{
    if n > 0 {
        lemma_accuracy_extremes(l, y, n - 1);
    }
}

/// The predicted class of one row of logits.
pub fn argmax_row(logits: &Matrix, i: usize) -> (r: usize)
    requires
        logits.wf(),
        logits.cols >= 1,
        i < logits.rows,
    ensures
        r == sargmax(logits.sv()[i as int], logits.cols as int),
        r < logits.cols,
{
    let ghost rv = logits.sv()[i as int];
    let mut best: usize = 0;
    let mut j: usize = 1;
    while j < logits.cols
        invariant
            logits.wf(),
            logits.cols >= 1,
            i < logits.rows,
            rv == logits.sv()[i as int],
            1 <= j <= logits.cols,
            best == sargmax(rv, j as int),
            best < j,
        decreases logits.cols - j,
    {
        proof {
            lemma_sargmax_range(rv, j as int);
        }
        if logits.data[i][j] > logits.data[i][best] {
            best = j;
        }
        j = j + 1;
    }
    best
}

/// The held-out accuracy of a batch of logits: how many rows' predicted
/// class equals the true label, out of how many rows. The fraction
/// `r.0 / r.1` always lies in `[0, 1]`.
pub fn accuracy(logits: &Matrix, labels: &Vec<u32>) -> (r: (usize, usize))
    requires
        logits.wf(),
        logits.cols >= 1,
        labels@.len() == logits.rows,
    ensures
        r.0 == scorrect(logits.sv(), labels@, logits.rows as int),
        r.1 == logits.rows,
        r.0 <= r.1,
{
    let ghost lv = logits.sv();
    let mut correct: usize = 0;
    let mut i: usize = 0;
    while i < logits.rows
        invariant
            logits.wf(),
            logits.cols >= 1,
            labels@.len() == logits.rows,
            lv == logits.sv(),
            i <= logits.rows,
            correct == scorrect(lv, labels@, i as int),
            correct <= i,
        decreases logits.rows - i,
    {
        let p: usize = argmax_row(logits, i);
        if (labels[i] as usize) == p {
            correct = correct + 1;
        }
        i = i + 1;
    }
    (correct, logits.rows)
}

/// The softmax probability of class `j` for one row, shifted by the row
/// maximum for stability.
pub open spec fn sprob(r: Seq<i64>, j: int) -> int {
    let mx = srowmax(r, r.len() as int) as int;
    spec_exp(r[j] - mx) * (SCALE as int) / ssumexp(r, mx, r.len() as int)
}

/// One entry of the loss gradient with respect to the logits: softmax
/// probability minus the true-class indicator, averaged over the batch.
pub open spec fn sdelta_entry(r: Seq<i64>, lbl: int, j: int, bsz: int) -> i64 {
    clamp64(
        spec_tdiv(
            sprob(r, j) - (if j == lbl {
                SCALE as int
            } else {
                0
            }),
            bsz,
        ),
    )
}

/// The batch loss gradient with respect to the logits.
pub open spec fn sdelta(l: Seq<Seq<i64>>, y: Seq<u32>, bsz: int) -> Seq<Seq<i64>> {
    Seq::new(
        l.len(),
        |i: int| Seq::new(l[i].len(), |j: int| sdelta_entry(l[i], y[i] as int, j, bsz)),
    )
}

/// The starting residual of backpropagation: for each row the softmax
/// probabilities minus the one-hot true label, divided by the batch size.
pub fn softmax_delta(logits: &Matrix, labels: &Vec<u32>) -> (r: Matrix)
    requires
        logits.wf(),
        logits.rows >= 1,
        logits.cols >= 1,
        labels@.len() == logits.rows,
    ensures
        r.wf(),
        r.rows == logits.rows,
        r.cols == logits.cols,
        r.sv() == sdelta(logits.sv(), labels@, logits.rows as int),
{
    let ghost lv = logits.sv();
    let bsz: usize = logits.rows;
    let mut data: Vec<Vec<i64>> = Vec::new();
    let mut i: usize = 0;
    while i < logits.rows
        invariant
            logits.wf(),
            logits.rows >= 1,
            logits.cols >= 1,
            labels@.len() == logits.rows,
            lv == logits.sv(),
            bsz == logits.rows,
            i <= logits.rows,
            data@.len() == i,
            forall|r0: int| 0 <= r0 < i ==> (#[trigger] data@[r0])@.len() == logits.cols,
            forall|r0: int, c0: int|
                0 <= r0 < i && 0 <= c0 < logits.cols ==> data@[r0]@[c0] == #[trigger] sdelta_entry(
                    lv[r0],
                    labels@[r0] as int,
                    c0,
                    bsz as int,
                ),
            forall|r0: int, c0: int|
                0 <= r0 < i && 0 <= c0 < logits.cols ==> -CAP <= #[trigger] data@[r0]@[c0] <= CAP,
        decreases logits.rows - i,
    {
        let row: Vec<i64> = delta_row(logits, i, labels[i], bsz);
        data.push(row);
        i = i + 1;
    }
    let r = Matrix { rows: logits.rows, cols: logits.cols, data };
    proof {
        assert(r.sv() =~~= sdelta(lv, labels@, bsz as int));
    }
    r
}

fn delta_row(logits: &Matrix, i: usize, lbl: u32, bsz: usize) -> (row: Vec<i64>)
    requires
        logits.wf(),
        logits.cols >= 1,
        i < logits.rows,
        bsz >= 1,
    ensures
        row@.len() == logits.cols,
        forall|c0: int|
            0 <= c0 < logits.cols ==> row@[c0] == #[trigger] sdelta_entry(
                logits.sv()[i as int],
                lbl as int,
                c0,
                bsz as int,
            ),
        forall|c0: int| 0 <= c0 < logits.cols ==> -CAP <= #[trigger] row@[c0] <= CAP,
{
    let ghost rv = logits.sv()[i as int];
    let n: usize = logits.cols;
    let stats = row_stats(logits, i);
    let mx: i64 = stats.0;
    let se: i64 = stats.1;
    let mut row: Vec<i64> = Vec::new();
    let mut c: usize = 0;
    while c < n
        invariant
            logits.wf(),
            logits.cols >= 1,
            i < logits.rows,
            bsz >= 1,
            rv == logits.sv()[i as int],
            n == logits.cols,
            -CAP <= mx <= CAP,
            mx == srowmax(rv, n as int),
            SCALE <= se,
            se == ssumexp(rv, mx as int, n as int),
            c <= n,
            row@.len() == c,
            forall|c0: int|
                0 <= c0 < c ==> row@[c0] == #[trigger] sdelta_entry(rv, lbl as int, c0, bsz as int),
            forall|c0: int| 0 <= c0 < c ==> -CAP <= #[trigger] row@[c0] <= CAP,
        decreases n - c,
    {
        proof {
            lemma_exp_bounds(rv[c as int] - mx);
        }
        let ex: i64 = exp_fx(logits.data[i][c] - mx);
        let num: i64 = ex * SCALE;
        let p: i64 = num / se;
        proof {
            lemma_div_is_ordered(0, num as int, se as int);
            lemma_div_is_ordered(num as int, (SCALE as int) * (SCALE as int), se as int);
            assert((SCALE as int) * (SCALE as int) / (se as int) <= (SCALE as int) * (
            SCALE as int));
        }
        let pm: i64 = if (lbl as usize) == c {
            p - SCALE
        } else {
            p
        };
        let d: i64 = div_trunc(pm, bsz);
        proof {
            assert(d == sdelta_entry(rv, lbl as int, c as int, bsz as int));
        }
        row.push(d);
        c = c + 1;
    }
    row
}

/// The fixed-point square of a value is never negative.
/// Sum of the raw squared differences of the first `n` entries, without
/// rescaling, so the sum is zero exactly when every compared pair is equal.
pub open spec fn ssqdiff_sum(a: Seq<i64>, b: Seq<i64>, n: int) -> int
    decreases n,
{
    if n <= 0 {
        0
    } else {
        ssqdiff_sum(a, b, n - 1) + (a[n - 1] - b[n - 1]) * (a[n - 1] - b[n - 1])
    }
}

/// The squared-difference sum is non-negative, and zero exactly when the
/// first `n` entries agree.
pub proof fn lemma_ssqdiff_sum_zero(a: Seq<i64>, b: Seq<i64>, n: int)
    ensures
        0 <= ssqdiff_sum(a, b, n),
        ssqdiff_sum(a, b, n) == 0 <==> (forall|i: int| 0 <= i < n ==> #[trigger] a[i] == b[i]),
    decreases n,
{
    if n > 0 {
        lemma_ssqdiff_sum_zero(a, b, n - 1);
        let d = a[n - 1] - b[n - 1];
        assert(d * d >= 0) by (nonlinear_arith);
        assert(d != 0 ==> d * d > 0) by (nonlinear_arith);
    }
}

/// The mean of the squared differences between two value vectors: the raw
/// sum divided once by `n * SCALE` to land back in fixed point, with a
/// nonzero mean rounded up to at least one fixed-point unit so that the
/// result is zero exactly when the vectors are equal.
pub open spec fn smse(a: Seq<i64>, b: Seq<i64>) -> i64 {
    let s = ssqdiff_sum(a, b, a.len() as int);
    let q = s / ((a.len() as int) * (SCALE as int));
    if s == 0 {
        0i64
    } else if q == 0 {
        1i64
    } else {
        clamp64(q)
    }
}

/// Mean squared error between true and predicted values, in fixed point.
/// Never negative, and zero exactly when the two vectors are equal.
pub fn mean_squared_error(y_true: &Vec<i64>, y_pred: &Vec<i64>) -> (r: i64)
    requires
        y_true@.len() == y_pred@.len(),
        1 <= y_true@.len() <= DIM_MAX,
        wf_vec(y_true@, y_true@.len() as int),
        wf_vec(y_pred@, y_pred@.len() as int),
    ensures
        r == smse(y_true@, y_pred@),
        0 <= r <= CAP,
        r == 0 <==> y_true@ == y_pred@,
{
    let n: usize = y_true.len();
    let mut acc: i128 = 0;
    let mut i: usize = 0;
    while i < n
        invariant
            y_true@.len() == y_pred@.len(),
            1 <= n == y_true@.len() <= DIM_MAX,
            wf_vec(y_true@, y_true@.len() as int),
            wf_vec(y_pred@, y_pred@.len() as int),
            i <= n,
            acc == ssqdiff_sum(y_true@, y_pred@, i as int),
            0 <= acc <= (i as int) * 0x400000000000000000000,
        decreases n - i,
    {
        let d: i64 = y_true[i] - y_pred[i];
        proof {
            assert(-CAP <= y_true@[i as int] <= CAP && -CAP <= y_pred@[i as int] <= CAP);
            assert(0 <= (d as int) * (d as int) <= 0x400000000000000000000) by (nonlinear_arith)
                requires
                    -2 * CAP <= d <= 2 * CAP,
            ;
        }
        let dd: i128 = (d as i128) * (d as i128);
        acc = acc + dd;
        i = i + 1;
    }
    let denom: i128 = (n as i128) * (SCALE as i128);
    let q: i128 = acc / denom;
    proof {
        lemma_ssqdiff_sum_zero(y_true@, y_pred@, n as int);
        assert(1 <= denom <= 0x10_0000_0000_0000) by (nonlinear_arith)
            requires
                1 <= n <= DIM_MAX,
                denom == (n as int) * (SCALE as int),
        ;
        lemma_div_is_ordered(0, acc as int, denom as int);
        if acc == 0 {
            assert(y_true@ =~= y_pred@);
        } else {
            if y_true@ == y_pred@ {
                assert(forall|i0: int|
                    0 <= i0 < n ==> #[trigger] y_true@[i0] == y_pred@[i0]);
                assert(false);
            }
        }
    }
    if acc == 0 {
        0
    } else if q == 0 {
        1
    } else {
        clamp_i128(q)
    }
}

} // verus!
