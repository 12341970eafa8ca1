//! A single artificial neuron (perceptron) and a small layered extension,
//! trained by gradient descent with finite-difference gradient estimates.
//!
//! All scalars are exact fixed-point numbers: an `i64` counts millionths,
//! so `1_000_000` units stand for the real value one. Arithmetic saturates
//! symmetrically at `i64::MAX` and `-i64::MAX`, and every operation has an
//! exact specification, so the whole training pipeline is verified.

pub mod fixed;
pub mod netmath;
pub mod neuron;
pub mod neuralnet;
pub mod utils;
