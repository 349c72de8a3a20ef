//! Outcomes of the Levenberg–Marquardt solver.
use vstd::prelude::*;

verus! {

/// Why the covariance could not be produced. The solution is still
/// returned: a rank-deficient but converged fit keeps its state; it just has
/// no finite σ in the unobservable subspace.
#[derive(Clone, Debug, PartialEq, Eq, Structural)]
#[non_exhaustive]
pub enum CovarianceFailure {
    /// The (prior-augmented) normal matrix at the returned point is
    /// singular to working precision.
    SingularNormalMatrix,
}

} // verus!
