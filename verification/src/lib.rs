//! A verified trainer for a small three-layer perceptron classifier.
//!
//! The library partitions a labelled sample collection into train and test
//! subsets by a fixed cadence rule, runs an epoch-bounded training loop with
//! an accuracy-based early stop over a fixed-point model, and restarts
//! training from a fresh random initialization when a run fails to reach the
//! target accuracy.

use vstd::prelude::*;

pub mod eval;
pub mod fixed;
pub mod matrix;
pub mod model;
pub mod partition;
pub mod train;

verus! {

/// The failures the trainer distinguishes.
#[derive(Clone, Copy, Debug, PartialEq, Eq, Structural)]
pub enum TrainError {
    /// The feature width of an input batch disagrees with the model's
    /// configured input width.
    DimensionMismatch,
    /// Zero samples were supplied; retrying cannot fix this.
    EmptyDataset,
    /// A training run spent its whole epoch budget below the accuracy target.
    TrainingNotConverged,
    /// Every permitted retry attempt ended without convergence.
    ExhaustedRetries,
}

} // verus!
