//! Prediction core of a one-vs-one multiclass support vector machine.
//!
//! A trained model holds, for every class, its support vectors and dual
//! coefficients, one decision threshold per unordered class pair, and a
//! kernel. Prediction computes kernel similarities between an input and
//! every support vector, combines them into one signed decision value per
//! class pair, lets every pair cast one vote, and returns the label of the
//! class with the most votes.
//!
//! All scalars are fixed-point values held in `i64`; decision values, which
//! accumulate sums of products, are held in `i128`.

pub mod kernel;
pub mod problem;
pub mod svm;
pub mod util;
pub mod vectors;

pub use kernel::{Kernel, LinearKernel};
pub use problem::Problem;
pub use svm::{Class, InstantiationError, PredictProblem, Probabilities, SVM};
pub use vectors::{IndexOutOfRange, SimdOptimized, Triangular};
