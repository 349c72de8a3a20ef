//! Fixed-size `9 × 9` matrix operations.
use crate::linalg::generic::{mat_add_square, mat_mul, mat_symmetrize, mat_transpose, mat_vec_mul, is_symmetrization, symmetrize_req};
use crate::scalar::Halve;
use crate::scalar::{Scalar, exact_arith, total_arith, is_zero, sadd, add_ok, dot_from, dot_from_req, column};
use vstd::prelude::*;

verus! {

/// Multiply two `9 × 9` matrices: `C = A B`, each entry summed from zero
/// over `k` in order.
pub fn mat9_mul<T: Scalar>(a: &[[T; 9]; 9], b: &[[T; 9]; 9]) -> (c: [[T; 9]; 9])
    requires
        total_arith::<T>() || (exact_arith::<T>() && forall|z: T|
            #[trigger] is_zero(z) ==> forall|i: int, j: int|
                0 <= i < 9 && 0 <= j < 9 ==> dot_from_req(z, a[i]@, column(*b, j), 9)),
    ensures
        exists|z: T|
            #[trigger] is_zero(z) && (exact_arith::<T>() ==> forall|i: int, j: int|
                0 <= i < 9 && 0 <= j < 9 ==> c[i][j] == dot_from(z, a[i]@, column(*b, j), 9)),
{
    mat_mul(a, b)
}

/// Transpose a `9 × 9` matrix: `T[i][j] = A[j][i]`.
pub fn mat9_transpose<T: Copy + Default>(a: &[[T; 9]; 9]) -> (t: [[T; 9]; 9])
    ensures
        forall|i: int, j: int| 0 <= i < 9 && 0 <= j < 9 ==> #[trigger] t[i][j] == a[j][i],
{
    let t = mat_transpose(a);
    assert forall|i: int, j: int| 0 <= i < 9 && 0 <= j < 9 implies #[trigger] t[i][j] == a[j][i] by {
        assert(t[i][j] == a[j][i]);
    }
    t
}

/// Multiply a `9 × 9` matrix by a 9-vector: `y = A x`, each entry
/// summed from zero over `k` in order.
pub fn mat9_vec_mul<T: Scalar>(a: &[[T; 9]; 9], x: &[T; 9]) -> (y: [T; 9])
    requires
        total_arith::<T>() || (exact_arith::<T>() && forall|z: T|
            #[trigger] is_zero(z) ==> forall|i: int|
                0 <= i < 9 ==> dot_from_req(z, a[i]@, x@, 9)),
    ensures
        exists|z: T|
            #[trigger] is_zero(z) && (exact_arith::<T>() ==> forall|i: int|
                0 <= i < 9 ==> y[i] == dot_from(z, a[i]@, x@, 9)),
{
    mat_vec_mul(a, x)
}

/// Add two `9 × 9` matrices: `C = A + B`.
pub fn mat9_add<T: Scalar>(a: &[[T; 9]; 9], b: &[[T; 9]; 9]) -> (c: [[T; 9]; 9])
    requires
        total_arith::<T>() || (exact_arith::<T>() && forall|i: int, j: int|
            0 <= i < 9 && 0 <= j < 9 ==> add_ok(#[trigger] a[i][j], b[i][j])),
    ensures
        exact_arith::<T>() ==> is_sum9(*a, *b, c),
{
    mat_add_square(a, b)
}

/// `c` is the entry-wise sum `A + B`, as `mat9_add(a, b)` returns it for a
/// scalar with exact arithmetic.
pub open spec fn is_sum9<T: Scalar>(a: [[T; 9]; 9], b: [[T; 9]; 9], c: [[T; 9]; 9]) -> bool {
    forall|i: int, j: int| 0 <= i < 9 && 0 <= j < 9 ==> #[trigger] c[i][j] == sadd(a[i][j], b[i][j])
}

/// Matrix addition is commutative wherever the scalar's addition is:
/// `A + B == B + A`, and `B + A` is permitted whenever `A + B` is.
pub proof fn lemma_mat9_add_commutative<T: Scalar>(
    a: [[T; 9]; 9],
    b: [[T; 9]; 9],
    c: [[T; 9]; 9],
    d: [[T; 9]; 9],
)
    requires
        forall|x: T, y: T| #[trigger] sadd(x, y) == sadd(y, x) && add_ok(x, y) == add_ok(y, x),
        is_sum9(a, b, c),
        is_sum9(b, a, d),
    ensures
        forall|i: int, j: int|
            0 <= i < 9 && 0 <= j < 9 ==> (add_ok(a[i][j], b[i][j]) <==> #[trigger] add_ok(b[i][j], a[i][j])),
        c == d,
{
    assert forall|i: int| 0 <= i < 9 implies c[i] == d[i] by {
        assert forall|j: int| 0 <= j < 9 implies c[i][j] == d[i][j] by {
            assert(sadd(a[i][j], b[i][j]) == sadd(b[i][j], a[i][j]));
        }
        crate::jets::lemma_array_ext(c[i], d[i]);
    }
    assert forall|i: int, j: int| 0 <= i < 9 && 0 <= j < 9 implies (add_ok(a[i][j], b[i][j])
        <==> #[trigger] add_ok(b[i][j], a[i][j])) by {
        assert(sadd(a[i][j], b[i][j]) == sadd(b[i][j], a[i][j]));
    }
    crate::jets::lemma_array_ext(c, d);
}

/// For `i64` matrices, `mat9_add` is commutative: `A + B == B + A`, and
/// `B + A` is computed without overflow whenever `A + B` is.
pub proof fn lemma_mat9_add_commutative_i64(
    a: [[i64; 9]; 9],
    b: [[i64; 9]; 9],
    c: [[i64; 9]; 9],
    d: [[i64; 9]; 9],
)
    requires
        is_sum9(a, b, c),
        is_sum9(b, a, d),
    ensures
        forall|i: int, j: int|
            0 <= i < 9 && 0 <= j < 9 ==> (add_ok(a[i][j], b[i][j]) <==> #[trigger] add_ok(b[i][j], a[i][j])),
        c == d,
{
    lemma_mat9_add_commutative(a, b, c, d);
}

/// Symmetrize a `9 × 9` matrix: `S = (A + Aᵀ) / 2`, each pair `i <= j`
/// summed once, halved and written to both `(i, j)` and `(j, i)`.
pub fn mat9_symmetrize<T: Scalar + Halve>(a: &[[T; 9]; 9]) -> (s: [[T; 9]; 9])
    requires
        (total_arith::<T>() && forall|x: T| #[trigger] x.halve_req()) || (exact_arith::<T>()
            && symmetrize_req(*a)),
    ensures
        forall|i: int, j: int| 0 <= i < 9 && 0 <= j < 9 ==> s[i][j] == s[j][i],
        exact_arith::<T>() && T::obeys_halve_spec() ==> is_symmetrization(*a, s),
{
    mat_symmetrize(a)
}

} // verus!
