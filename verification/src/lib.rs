//! Const-generic jets (hyperdual numbers) for forward-mode automatic
//! differentiation, with the index arithmetic, jet algebra and structural
//! linear algebra they rest on.
//!
//! - [`jets`]: `Jet1<N, S>`, `Jet2<N, H, S>`, `Jet3<N, H, T, S>` (value,
//!   gradient, packed Hessian, packed third-order tensor over a scalar `S`)
//!   and the packed lower-triangular storage (`hess_index`, `tens_index`,
//!   `hess_size`, `tens_size`).
//! - [`impls`]: jet arithmetic (`+ - * /`, negation, scalar operands) by
//!   the rules of calculus, and the chain rule (`compose`, `atan2_with`)
//!   through which elementary functions act on jets.
//! - [`differentiate`]: seed jets at a point, evaluate a function once, and
//!   read off its value, gradient, dense Hessian and dense third-order
//!   tensor.
//! - [`parameters`]: the physical parameters derivatives are taken with
//!   respect to, and which of them a computation tracks.
//! - [`scalar`]: the scalar types jets and matrices are built from and the
//!   model of their arithmetic.
//! - [`linalg`]: matrix and vector products, transposes, traces, quadratic
//!   forms, determinants of `3 × 3` matrices and Tikhonov damping, generic
//!   over the scalar type (jets included).
//! - [`optimization`], [`linalg::regularize`]: the outcome types of the
//!   least-squares solvers and of eigenvalue regularization.
//! - [`state`]: Cartesian state vectors.
use vstd::prelude::*;

pub mod differentiate;
pub mod impls;
pub mod jets;
pub mod linalg;
pub mod optimization;
pub mod parameters;
pub mod scalar;
pub mod state;

verus! {

} // verus!
