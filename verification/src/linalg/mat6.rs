//! Fixed-size `6 × 6` matrix operations.
use crate::linalg::generic::{mat_add_square, mat_mul, mat_symmetrize, mat_transpose, mat_vec_mul, is_symmetrization, symmetrize_req};
use crate::scalar::Halve;
use crate::scalar::{Scalar, exact_arith, total_arith, is_zero, sadd, add_ok, dot_from, dot_from_req, column};
use vstd::prelude::*;

verus! {

/// Multiply two `6 × 6` matrices: `C = A B`, each entry summed from zero
/// over `k` in order.
pub fn mat6_mul<T: Scalar>(a: &[[T; 6]; 6], b: &[[T; 6]; 6]) -> (c: [[T; 6]; 6])
    requires
        total_arith::<T>() || (exact_arith::<T>() && forall|z: T|
            #[trigger] is_zero(z) ==> forall|i: int, j: int|
                0 <= i < 6 && 0 <= j < 6 ==> dot_from_req(z, a[i]@, column(*b, j), 6)),
    ensures
        exists|z: T|
            #[trigger] is_zero(z) && (exact_arith::<T>() ==> forall|i: int, j: int|
                0 <= i < 6 && 0 <= j < 6 ==> c[i][j] == dot_from(z, a[i]@, column(*b, j), 6)),
{
    mat_mul(a, b)
}

/// Transpose a `6 × 6` matrix: `T[i][j] = A[j][i]`.
pub fn mat6_transpose<T: Copy + Default>(a: &[[T; 6]; 6]) -> (t: [[T; 6]; 6])
    ensures
        forall|i: int, j: int| 0 <= i < 6 && 0 <= j < 6 ==> #[trigger] t[i][j] == a[j][i],
{
    let t = mat_transpose(a);
    assert forall|i: int, j: int| 0 <= i < 6 && 0 <= j < 6 implies #[trigger] t[i][j] == a[j][i] by {
        assert(t[i][j] == a[j][i]);
    }
    t
}

/// Multiply a `6 × 6` matrix by a 6-vector: `y = A x`, each entry
/// summed from zero over `k` in order.
pub fn mat6_vec_mul<T: Scalar>(a: &[[T; 6]; 6], x: &[T; 6]) -> (y: [T; 6])
    requires
        total_arith::<T>() || (exact_arith::<T>() && forall|z: T|
            #[trigger] is_zero(z) ==> forall|i: int|
                0 <= i < 6 ==> dot_from_req(z, a[i]@, x@, 6)),
    ensures
        exists|z: T|
            #[trigger] is_zero(z) && (exact_arith::<T>() ==> forall|i: int|
                0 <= i < 6 ==> y[i] == dot_from(z, a[i]@, x@, 6)),
{
    mat_vec_mul(a, x)
}

/// Add two `6 × 6` matrices: `C = A + B`.
pub fn mat6_add<T: Scalar>(a: &[[T; 6]; 6], b: &[[T; 6]; 6]) -> (c: [[T; 6]; 6])
    requires
        total_arith::<T>() || (exact_arith::<T>() && forall|i: int, j: int|
            0 <= i < 6 && 0 <= j < 6 ==> add_ok(#[trigger] a[i][j], b[i][j])),
    ensures
        exact_arith::<T>() ==> forall|i: int, j: int|
            0 <= i < 6 && 0 <= j < 6 ==> #[trigger] c[i][j] == sadd(a[i][j], b[i][j]),
{
    mat_add_square(a, b)
}

/// Symmetrize a `6 × 6` matrix: `S = (A + Aᵀ) / 2`, each pair `i <= j`
/// summed once, halved and written to both `(i, j)` and `(j, i)`.
pub fn mat6_symmetrize<T: Scalar + Halve>(a: &[[T; 6]; 6]) -> (s: [[T; 6]; 6])
    requires
        (total_arith::<T>() && forall|x: T| #[trigger] x.halve_req()) || (exact_arith::<T>()
            && symmetrize_req(*a)),
    ensures
        forall|i: int, j: int| 0 <= i < 6 && 0 <= j < 6 ==> s[i][j] == s[j][i],
        exact_arith::<T>() && T::obeys_halve_spec() ==> is_symmetrization(*a, s),
{
    mat_symmetrize(a)
}

} // verus!
