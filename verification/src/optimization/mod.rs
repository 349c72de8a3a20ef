//! Outcomes of the nonlinear least-squares solvers.
pub mod lm;
pub mod nlls;
