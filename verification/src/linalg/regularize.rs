//! Covariance regularization: Tikhonov damping, and the failures of
//! eigenvalue-based regularization.
use crate::scalar::{Scalar, exact_arith, total_arith, sadd, add_ok};
use vstd::prelude::*;

verus! {

/// Error returned when an eigenvalue-based regularization of a covariance
/// cannot be carried out.
#[derive(Clone, Copy, Debug, PartialEq, Eq, Structural)]
pub enum RegularizationError {
    /// The Jacobi eigendecomposition failed to converge or produced
    /// non-finite eigenvalues / eigenvectors.
    EigendecompositionFailed,
    /// Input matrix contains NaN or Inf entries.
    NonFiniteInput,
}

/// Tikhonov damping `A + α I`: `α` is added to every diagonal entry; the
/// other entries are copied.
pub fn tikhonov<T: Scalar, const N: usize>(cov: &[[T; N]; N], alpha: T) -> (out: [[T; N]; N])
    requires
        total_arith::<T>() || (exact_arith::<T>() && forall|i: int|
            0 <= i < N ==> add_ok(#[trigger] cov[i][i], alpha)),
    ensures
        forall|i: int, j: int| 0 <= i < N && 0 <= j < N && i != j ==> out[i][j] == cov[i][j],
        exact_arith::<T>() ==> forall|i: int| 0 <= i < N ==> #[trigger] out[i][i] == sadd(cov[i][i], alpha),
{
    let mut out = *cov;
    for i in 0..N
        invariant
            total_arith::<T>() || (exact_arith::<T>() && forall|i: int|
                0 <= i < N ==> add_ok(#[trigger] cov[i][i], alpha)),
            forall|ii: int, j: int| 0 <= ii < N && 0 <= j < N && (ii != j || ii >= i) ==> out[ii][j] == cov[ii][j],
            exact_arith::<T>() ==> forall|ii: int| 0 <= ii < i ==> #[trigger] out[ii][ii] == sadd(cov[ii][ii], alpha),
    {
        out[i][i] = out[i][i] + alpha;
    }
    out
}

/// `out` is what `tikhonov(cov, alpha)` returns for a scalar with exact
/// arithmetic.
pub open spec fn is_tikhonov<T: Scalar, const N: usize>(
    cov: [[T; N]; N],
    alpha: T,
    out: [[T; N]; N],
) -> bool {
    &&& forall|i: int, j: int| 0 <= i < N && 0 <= j < N && i != j ==> out[i][j] == cov[i][j]
    &&& forall|i: int| 0 <= i < N ==> #[trigger] out[i][i] == sadd(cov[i][i], alpha)
}

/// For `i64` matrices, damping by zero returns the matrix unchanged.
pub proof fn lemma_tikhonov_zero_is_identity_i64<const N: usize>(
    cov: [[i64; N]; N],
    out: [[i64; N]; N],
)
    requires
        is_tikhonov(cov, 0i64, out),
    ensures
        out == cov,
{
    assert forall|i: int| 0 <= i < N implies out[i] == cov[i] by {
        assert forall|j: int| 0 <= j < N implies out[i][j] == cov[i][j] by {
            if i == j {
                assert(out[i][i] == sadd(cov[i][i], 0i64));
            }
        }
        crate::jets::lemma_array_ext(out[i], cov[i]);
    }
    crate::jets::lemma_array_ext(out, cov);
}

} // verus!
