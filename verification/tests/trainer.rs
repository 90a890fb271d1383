use mlp_trainer::eval::{accuracy, argmax_row, exp_fx, log_fx, loss, mean_squared_error};
use mlp_trainer::fixed::{fx_mul, CAP, SCALE};
use mlp_trainer::matrix::Matrix;
use mlp_trainer::model::{Mlp, MlpConfig};
use mlp_trainer::partition::partition_indices;
use mlp_trainer::train::{
    train_run, train_until_success, Dataset, RunOutcome, Sample, SgdOptimizer, TrainConfig,
};
use mlp_trainer::TrainError;

fn small_config() -> MlpConfig {
    MlpConfig { input_dim: 2, h1: 4, h2: 4, output_dim: 2 }
}

fn fast_train_config(epochs: usize) -> TrainConfig {
    TrainConfig { epochs, target_num: 9, target_den: 10, lr_fx: 3277 }
}

/// Ten samples, even positions class 0 with features [8, 0], odd positions
/// class 1 with features [0, 8]: linearly separable.
fn separable_samples() -> Vec<Sample> {
    let mut samples = Vec::new();
    for i in 0..10u32 {
        if i % 2 == 0 {
            samples.push(Sample { features: vec![8, 0], label: 0 });
        } else {
            samples.push(Sample { features: vec![0, 8], label: 1 });
        }
    }
    samples
}

/// Twenty samples whose features are all identical while the labels
/// alternate: no model can tell the rows apart, so held-out accuracy is
/// pinned at one half.
fn hopeless_samples() -> Vec<Sample> {
    let mut samples = Vec::new();
    for i in 0..20u32 {
        samples.push(Sample { features: vec![3, 3], label: i % 2 });
    }
    samples
}

fn logits_matrix(rows: Vec<Vec<i64>>) -> Matrix {
    let cols = rows[0].len();
    Matrix { rows: rows.len(), cols, data: rows }
}

#[test]
fn partition_covers_all_indices_once() {
    let (train, test) = partition_indices(10, 5);
    assert_eq!(test, vec![0, 5]);
    assert_eq!(train, vec![1, 2, 3, 4, 6, 7, 8, 9]);
    assert_eq!(test.len() + train.len(), 10);

    let (train2, test2) = partition_indices(7, 3);
    assert_eq!(test2, vec![0, 3, 6]);
    assert_eq!(test2.len(), (7 + 3 - 1) / 3);
    assert_eq!(train2, vec![1, 2, 4, 5]);

    let (train0, test0) = partition_indices(0, 5);
    assert!(train0.is_empty());
    assert!(test0.is_empty());
}

#[test]
fn partition_is_deterministic() {
    let first = partition_indices(123, 5);
    let second = partition_indices(123, 5);
    assert_eq!(first.0, second.0);
    assert_eq!(first.1, second.1);
}

#[test]
fn forward_produces_batch_by_output_shape() {
    let cfg = MlpConfig::default();
    assert_eq!(cfg.input_dim, 7);
    assert_eq!(cfg.output_dim, 2);
    let model = Mlp::init(&cfg, 42);
    let x = logits_matrix(vec![vec![SCALE; 7], vec![0; 7], vec![2 * SCALE; 7]]);
    let logits = model.forward(&x).unwrap();
    assert_eq!(logits.rows, 3);
    assert_eq!(logits.cols, 2);
    for row in &logits.data {
        assert_eq!(row.len(), 2);
    }
}

#[test]
fn forward_rejects_mismatched_width() {
    let cfg = MlpConfig::default();
    let model = Mlp::init(&cfg, 42);
    for width in [1usize, 5, 6, 8, 12] {
        let x = logits_matrix(vec![vec![SCALE; width]]);
        assert_eq!(model.forward(&x).err(), Some(TrainError::DimensionMismatch));
    }
}

#[test]
fn loss_matches_expected_values_and_is_nonnegative() {
    let logits = logits_matrix(vec![vec![SCALE, 0], vec![0, SCALE]]);
    let confident = loss(&logits, &vec![0, 1]);
    assert_eq!(confident, 16445);
    let wrong = loss(&logits, &vec![1, 0]);
    assert_eq!(wrong, 81981);
    assert!(confident >= 0);
    assert!(wrong >= 0);
    assert!(wrong > confident);
}

#[test]
fn exponential_and_logarithm_fixed_points() {
    assert_eq!(exp_fx(0), SCALE);
    assert_eq!(exp_fx(-SCALE), 23726);
    assert!(exp_fx(-20 * SCALE) <= 1);
    assert_eq!(log_fx(SCALE), 0);
    assert_eq!(log_fx(2 * SCALE), 45426);
}

#[test]
fn accuracy_bounds_and_extremes() {
    let logits = logits_matrix(vec![vec![SCALE, 0], vec![0, SCALE]]);
    let all_right = accuracy(&logits, &vec![0, 1]);
    assert_eq!(all_right, (2, 2));
    let all_wrong = accuracy(&logits, &vec![1, 0]);
    assert_eq!(all_wrong, (0, 2));
    let half = accuracy(&logits, &vec![0, 0]);
    assert_eq!(half, (1, 2));
    assert!(all_right.0 <= all_right.1);
    assert!(all_wrong.0 <= all_wrong.1);
}

#[test]
fn argmax_breaks_ties_at_lowest_index() {
    let logits = logits_matrix(vec![vec![5, 5, 3], vec![1, 7, 7]]);
    assert_eq!(argmax_row(&logits, 0), 0);
    assert_eq!(argmax_row(&logits, 1), 1);
}

#[test]
fn fixed_point_product_and_saturation() {
    assert_eq!(fx_mul(2 * SCALE, 3 * SCALE), 6 * SCALE);
    assert_eq!(fx_mul(CAP, CAP), CAP);
    assert_eq!(fx_mul(-CAP, CAP), -CAP);
    assert_eq!(fx_mul(SCALE / 2, SCALE / 2), SCALE / 4);
}

#[test]
fn optimizer_step_changes_some_parameter() {
    let cfg = small_config();
    let ds = Dataset::from_samples(&separable_samples(), 5, 2);
    let mut model = Mlp::init(&cfg, 1);
    let before_w1 = model.w1.data.clone();
    let before_b1 = model.b1.clone();
    let before_w2 = model.w2.data.clone();
    let before_b2 = model.b2.clone();
    let before_w3 = model.w3.data.clone();
    let before_b3 = model.b3.clone();
    let opt = SgdOptimizer { lr_fx: 3277 };
    opt.step(&mut model, &ds.train_values, &ds.train_results);
    let changed = before_w1 != model.w1.data || before_b1 != model.b1 || before_w2
        != model.w2.data || before_b2 != model.b2 || before_w3 != model.w3.data || before_b3
        != model.b3;
    assert!(changed);
}

#[test]
fn training_stops_early_on_separable_data() {
    let cfg = small_config();
    let tc = fast_train_config(100);
    let ds = Dataset::from_samples(&separable_samples(), 5, 2);
    let (outcome, reports) = train_run(&cfg, &tc, &ds, 1).unwrap();
    match outcome {
        RunOutcome::Converged { correct, total, .. } => {
            assert_eq!((correct, total), (2, 2));
        }
        RunOutcome::Exhausted { .. } => panic!("expected early convergence"),
    }
    assert_eq!(reports.len(), 9);
    assert!(reports.len() < tc.epochs);
    for (i, rep) in reports.iter().enumerate() {
        assert_eq!(rep.epoch, i + 1);
        assert!(rep.train_loss >= 0);
        assert!(rep.correct <= rep.total);
    }
    assert_eq!(reports[0].train_loss, 40665);
    assert_eq!(reports[8].correct * 10 >= 9 * reports[8].total, true);
}

#[test]
fn training_exhausts_budget_on_unlearnable_data() {
    let cfg = small_config();
    let tc = fast_train_config(5);
    let ds = Dataset::from_samples(&hopeless_samples(), 5, 2);
    let (outcome, reports) = train_run(&cfg, &tc, &ds, 42).unwrap();
    match outcome {
        RunOutcome::Exhausted { correct, total } => {
            assert_eq!(total, 4);
            assert!(correct * 10 < 9 * total);
        }
        RunOutcome::Converged { .. } => panic!("expected exhaustion"),
    }
    assert_eq!(reports.len(), 5);
    for rep in &reports {
        assert!(rep.correct * 10 < 9 * rep.total);
    }
}

#[test]
fn supervisor_retries_with_fresh_initializations() {
    let cfg = small_config();
    let tc = fast_train_config(5);
    let ds = Dataset::from_samples(&hopeless_samples(), 5, 2);
    let (result, log) = train_until_success(&cfg, &tc, &ds, 2);
    assert_eq!(result.err(), Some(TrainError::ExhaustedRetries));
    assert_eq!(log.len(), 2);
    for attempt in &log {
        assert!(!attempt.converged);
        assert_eq!(attempt.epochs_run, 5);
        assert!(attempt.correct * 10 < 9 * attempt.total);
    }
}

#[test]
fn supervisor_succeeds_on_separable_data() {
    let cfg = small_config();
    let tc = fast_train_config(100);
    let ds = Dataset::from_samples(&separable_samples(), 5, 2);
    let (result, log) = train_until_success(&cfg, &tc, &ds, 50);
    if let Ok((model, correct, total)) = result {
        assert!(correct * 10 >= 9 * total);
        assert_eq!(total, 2);
        assert_eq!(model.cfg, cfg);
        assert!(log.last().unwrap().converged);
    } else {
        // Every drawn seed may fail to converge within the budget; the log
        // must then show one exhausted attempt per permitted retry.
        assert_eq!(log.len(), 50);
        assert!(log.iter().all(|a| !a.converged));
    }
}

#[test]
fn empty_dataset_is_fatal_and_not_retried() {
    let cfg = small_config();
    let tc = fast_train_config(5);
    let ds = Dataset::from_samples(&Vec::new(), 5, 2);
    assert_eq!(ds.train_values.rows, 0);
    assert_eq!(ds.test_values.rows, 0);
    assert_eq!(train_run(&cfg, &tc, &ds, 1).err(), Some(TrainError::EmptyDataset));
    let (result, log) = train_until_success(&cfg, &tc, &ds, 3);
    assert_eq!(result.err(), Some(TrainError::EmptyDataset));
    assert!(log.is_empty());
}

#[test]
fn mismatched_dataset_width_is_fatal() {
    let cfg = MlpConfig::default();
    let tc = fast_train_config(5);
    let ds = Dataset::from_samples(&separable_samples(), 5, 2);
    assert_eq!(train_run(&cfg, &tc, &ds, 1).err(), Some(TrainError::DimensionMismatch));
    let (result, log) = train_until_success(&cfg, &tc, &ds, 3);
    assert_eq!(result.err(), Some(TrainError::DimensionMismatch));
    assert!(log.is_empty());
}

#[test]
fn dataset_split_preserves_order_and_labels() {
    let mut samples = Vec::new();
    for i in 0..10i64 {
        samples.push(Sample { features: vec![i, i], label: (i % 2) as u32 });
    }
    let ds = Dataset::from_samples(&samples, 5, 2);
    assert_eq!(ds.train_values.rows, 8);
    assert_eq!(ds.test_values.rows, 2);
    assert_eq!(ds.test_values.data[0], vec![0, 0]);
    assert_eq!(ds.test_values.data[1], vec![5 * SCALE, 5 * SCALE]);
    assert_eq!(ds.test_results, vec![0, 1]);
    assert_eq!(ds.train_results, vec![1, 0, 1, 0, 0, 1, 0, 1]);
    assert_eq!(ds.train_values.data[0], vec![SCALE, SCALE]);
}

#[test]
fn initialization_is_reproducible_per_seed_and_differs_across_seeds() {
    let cfg = small_config();
    let first = Mlp::init(&cfg, 7);
    let again = Mlp::init(&cfg, 7);
    assert_eq!(first.w1.data, again.w1.data);
    assert_eq!(first.b1, again.b1);
    assert_eq!(first.w2.data, again.w2.data);
    assert_eq!(first.b2, again.b2);
    assert_eq!(first.w3.data, again.w3.data);
    assert_eq!(first.b3, again.b3);
    let other = Mlp::init(&cfg, 8);
    assert_ne!(first.w1.data[0][0], other.w1.data[0][0]);
    assert_eq!(first.w1.data[0][0], -32761);
    assert_eq!(other.w1.data[0][0], -32760);
}

#[test]
fn default_configurations_match_reference_values() {
    let cfg = MlpConfig::default();
    assert_eq!((cfg.input_dim, cfg.h1, cfg.h2, cfg.output_dim), (7, 32, 64, 2));
    let tc = TrainConfig::default();
    assert_eq!(tc.epochs, 100);
    assert_eq!((tc.target_num, tc.target_den), (9, 10));
    assert_eq!(tc.lr_fx, 3277);
}

#[test]
fn mean_squared_error_is_exact_and_zero_only_on_equal_inputs() {
    let truth = vec![SCALE, 2 * SCALE];
    let predicted = vec![0, SCALE];
    assert_eq!(mean_squared_error(&truth, &predicted), SCALE);
    assert_eq!(mean_squared_error(&truth, &truth), 0);
    let half_off = mean_squared_error(&vec![SCALE / 2, 0], &vec![0, 0]);
    assert_eq!(half_off, SCALE / 8);
    assert!(half_off >= 0);
    // A difference far below one fixed-point unit still registers: the
    // result is zero only when the vectors are equal.
    assert_eq!(mean_squared_error(&vec![100], &vec![0]), 1);
    assert_eq!(mean_squared_error(&vec![100], &vec![100]), 0);
}

#[test]
fn exhausted_outcome_converts_to_not_converged_error() {
    let cfg = small_config();
    let tc = fast_train_config(5);
    let ds = Dataset::from_samples(&hopeless_samples(), 5, 2);
    let (outcome, _reports) = train_run(&cfg, &tc, &ds, 9).unwrap();
    assert_eq!(
        outcome.into_result().err(),
        Some(TrainError::TrainingNotConverged)
    );
}
