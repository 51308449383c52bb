//! K-means colour quantisation over fixed-point matrices.
//!
//! A feature matrix holds one row per data point and one column per
//! coordinate; a centroid matrix holds one row per coordinate and one
//! column per centroid. Cells are 32-bit fixed-point numbers with sixteen
//! fractional bits, so every distance, mean and convergence decision is
//! exact integer arithmetic, and the contracts state them as such.
//!
//! - [`matrix`]: the matrix type, kept in an `ndarray` array.
//! - [`random`]: drawing fresh centroids.
//! - [`distance`], [`assign`], [`partition`]: the assignment step and the
//!   proof that it splits the rows into groups.
//! - [`update`]: the update step.
//! - [`control`]: the convergence controller and the whole run.
//! - [`descent`], [`single`], [`replay`]: what holds of every run.
//! - [`pixels`]: colours as features and back.

pub mod error;
pub mod matrix;
pub mod random;
pub mod distance;
pub mod assign;
pub mod partition;
pub mod update;
pub mod control;
pub mod descent;
pub mod single;
pub mod replay;
pub mod pixels;
