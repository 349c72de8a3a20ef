//! Fixed-size `3 × 3` matrix operations.
use crate::scalar::{
    Scalar,
    exact_arith,
    total_arith,
    is_zero,
    column,
    dot_from,
    dot_from_req,
    dot3_spec,
    dot3_req,
    sadd,
    ssub,
    smul,
    add_ok,
    sub_ok,
    mul_ok,
    sum3_products,
    cross_term,
    cross_term_req,
    cross_term_exec,
};
use vstd::prelude::*;

verus! {

/// Entry `(i, j)` of `A B` for `3 × 3` matrices.
pub open spec fn mat3_mul_entry<T: Scalar>(a: [[T; 3]; 3], b: [[T; 3]; 3], i: int, j: int) -> T {
    dot3_spec(a[i][0], b[0][j], a[i][1], b[1][j], a[i][2], b[2][j])
}

/// Entry `i` of `A x` for a `3 × 3` matrix.
pub open spec fn mat3_vec_mul_entry<T: Scalar>(a: [[T; 3]; 3], x: [T; 3], i: int) -> T {
    dot3_spec(a[i][0], x[0], a[i][1], x[1], a[i][2], x[2])
}

/// Entry `i` of `Aᵀ x` for a `3 × 3` matrix.
pub open spec fn mat3_transpose_vec_mul_entry<T: Scalar>(a: [[T; 3]; 3], x: [T; 3], i: int) -> T {
    dot3_spec(a[0][i], x[0], a[1][i], x[1], a[2][i], x[2])
}

/// The determinant by cofactor expansion along the first row:
/// `m00 (m11 m22 - m12 m21) - m01 (m10 m22 - m12 m20) + m02 (m10 m21 - m11 m20)`.
pub open spec fn det3_spec<T: Scalar>(m: [[T; 3]; 3]) -> T {
    sadd(
        ssub(
            smul(m[0][0], ssub(smul(m[1][1], m[2][2]), smul(m[1][2], m[2][1]))),
            smul(m[0][1], ssub(smul(m[1][0], m[2][2]), smul(m[1][2], m[2][0]))),
        ),
        smul(m[0][2], ssub(smul(m[1][0], m[2][1]), smul(m[1][1], m[2][0]))),
    )
}

/// Every operation of `det3_spec(m)` is permitted.
pub open spec fn det3_req<T: Scalar>(m: [[T; 3]; 3]) -> bool {
    let c0 = cross_term(m[1][1], m[2][2], m[1][2], m[2][1]);
    let c1 = cross_term(m[1][0], m[2][2], m[1][2], m[2][0]);
    let c2 = cross_term(m[1][0], m[2][1], m[1][1], m[2][0]);
    &&& cross_term_req(m[1][1], m[2][2], m[1][2], m[2][1])
    &&& cross_term_req(m[1][0], m[2][2], m[1][2], m[2][0])
    &&& cross_term_req(m[1][0], m[2][1], m[1][1], m[2][0])
    &&& mul_ok(m[0][0], c0)
    &&& mul_ok(m[0][1], c1)
    &&& mul_ok(m[0][2], c2)
    &&& sub_ok(smul(m[0][0], c0), smul(m[0][1], c1))
    &&& add_ok(ssub(smul(m[0][0], c0), smul(m[0][1], c1)), smul(m[0][2], c2))
}

/// Multiply two `3 × 3` matrices: `C = A B`.
pub fn mat3_mul<T: Scalar>(a: &[[T; 3]; 3], b: &[[T; 3]; 3]) -> (c: [[T; 3]; 3])
    requires
        total_arith::<T>() || (exact_arith::<T>() && forall|i: int, j: int|
            0 <= i < 3 && 0 <= j < 3 ==> dot3_req(
                a[i][0],
                b[0][j],
                a[i][1],
                b[1][j],
                a[i][2],
                b[2][j],
            )),
    ensures
        exact_arith::<T>() ==> forall|i: int, j: int|
            0 <= i < 3 && 0 <= j < 3 ==> #[trigger] c[i][j] == mat3_mul_entry(*a, *b, i, j),
{
    let zero = T::default();
    let mut c = [[zero; 3]; 3];
    for i in 0..3
        invariant
            total_arith::<T>() || (exact_arith::<T>() && forall|i: int, j: int|
                0 <= i < 3 && 0 <= j < 3 ==> dot3_req(
                    a[i][0],
                    b[0][j],
                    a[i][1],
                    b[1][j],
                    a[i][2],
                    b[2][j],
                )),
            exact_arith::<T>() ==> forall|ii: int, j: int|
                0 <= ii < i && 0 <= j < 3 ==> #[trigger] c[ii][j] == mat3_mul_entry(*a, *b, ii, j),
    {
        for j in 0..3
            invariant
                total_arith::<T>() || (exact_arith::<T>() && forall|i: int, j: int|
                    0 <= i < 3 && 0 <= j < 3 ==> dot3_req(
                        a[i][0],
                        b[0][j],
                        a[i][1],
                        b[1][j],
                        a[i][2],
                        b[2][j],
                    )),
                exact_arith::<T>() ==> forall|ii: int, jj: int|
                    0 <= ii < i && 0 <= jj < 3 ==> #[trigger] c[ii][jj] == mat3_mul_entry(
                        *a,
                        *b,
                        ii,
                        jj,
                    ),
                i < 3,
                exact_arith::<T>() ==> forall|jj: int|
                    0 <= jj < j ==> #[trigger] c[i as int][jj] == mat3_mul_entry(*a, *b, i as int, jj),
        {
            c[i][j] = sum3_products(a[i][0], b[0][j], a[i][1], b[1][j], a[i][2], b[2][j]);
        }
    }
    c
}

/// Transpose a `3 × 3` matrix: `T[i][j] = A[j][i]`.
pub fn mat3_transpose<T: Copy>(a: &[[T; 3]; 3]) -> (t: [[T; 3]; 3])
    ensures
        forall|i: int, j: int| 0 <= i < 3 && 0 <= j < 3 ==> #[trigger] t[i][j] == a[j][i],
{
    [[a[0][0], a[1][0], a[2][0]], [a[0][1], a[1][1], a[2][1]], [a[0][2], a[1][2], a[2][2]]]
}

/// Multiply a `3 × 3` matrix by a 3-vector: `y = A x`.
pub fn mat3_vec_mul<T: Scalar>(a: &[[T; 3]; 3], x: &[T; 3]) -> (y: [T; 3])
    requires
        total_arith::<T>() || (exact_arith::<T>() && forall|i: int|
            0 <= i < 3 ==> dot3_req(a[i][0], x[0], a[i][1], x[1], a[i][2], x[2])),
    ensures
        exact_arith::<T>() ==> forall|i: int|
            0 <= i < 3 ==> #[trigger] y[i] == mat3_vec_mul_entry(*a, *x, i),
{
    let y0 = sum3_products(a[0][0], x[0], a[0][1], x[1], a[0][2], x[2]);
    let y1 = sum3_products(a[1][0], x[0], a[1][1], x[1], a[1][2], x[2]);
    let y2 = sum3_products(a[2][0], x[0], a[2][1], x[1], a[2][2], x[2]);
    [y0, y1, y2]
}

/// Multiply `Aᵀ x` without forming the transpose.
pub fn mat3_transpose_vec_mul<T: Scalar>(a: &[[T; 3]; 3], x: &[T; 3]) -> (y: [T; 3])
    requires
        total_arith::<T>() || (exact_arith::<T>() && forall|i: int|
            0 <= i < 3 ==> dot3_req(a[0][i], x[0], a[1][i], x[1], a[2][i], x[2])),
    ensures
        exact_arith::<T>() ==> forall|i: int|
            0 <= i < 3 ==> #[trigger] y[i] == mat3_transpose_vec_mul_entry(*a, *x, i),
{
    let y0 = sum3_products(a[0][0], x[0], a[1][0], x[1], a[2][0], x[2]);
    let y1 = sum3_products(a[0][1], x[0], a[1][1], x[1], a[2][1], x[2]);
    let y2 = sum3_products(a[0][2], x[0], a[1][2], x[1], a[2][2], x[2]);
    [y0, y1, y2]
}

/// Multiplying by the transpose without forming it is multiplying by the
/// transpose: for `t` the transpose of `a`, entry `i` of `Aᵀ x` is entry `i`
/// of `t x` (the same products added in the same order), and the one
/// product is permitted exactly when the other is.
pub proof fn lemma_transpose_vec_mul_matches<T: Scalar>(a: [[T; 3]; 3], t: [[T; 3]; 3], x: [T; 3])
    requires
        forall|i: int, j: int| 0 <= i < 3 && 0 <= j < 3 ==> #[trigger] t[i][j] == a[j][i],
    ensures
        forall|i: int|
            0 <= i < 3 ==> #[trigger] mat3_transpose_vec_mul_entry(a, x, i) == mat3_vec_mul_entry(t, x, i),
        forall|i: int|
            0 <= i < 3 ==> (dot3_req(a[0][i], x[0], a[1][i], x[1], a[2][i], x[2]) <==> #[trigger] dot3_req(
                t[i][0],
                x[0],
                t[i][1],
                x[1],
                t[i][2],
                x[2],
            )),
{
    assert forall|i: int| 0 <= i < 3 implies t[i][0] == a[0][i] && t[i][1] == a[1][i] && t[i][2]
        == a[2][i] by {
        assert(t[i][0] == a[0][i]);
        assert(t[i][1] == a[1][i]);
        assert(t[i][2] == a[2][i]);
    }
}

/// Determinant of a `3 × 3` matrix via cofactor expansion along the first
/// row.
pub fn mat3_det<T: Scalar>(m: &[[T; 3]; 3]) -> (d: T)
    requires
        total_arith::<T>() || (exact_arith::<T>() && det3_req(*m)),
    ensures
        exact_arith::<T>() ==> d == det3_spec(*m),
{
    let c0 = cross_term_exec(m[1][1], m[2][2], m[1][2], m[2][1]);
    let c1 = cross_term_exec(m[1][0], m[2][2], m[1][2], m[2][0]);
    let c2 = cross_term_exec(m[1][0], m[2][1], m[1][1], m[2][0]);
    let t0 = m[0][0] * c0;
    let t1 = m[0][1] * c1;
    let t2 = m[0][2] * c2;
    let s = t0 - t1;
    s + t2
}

/// `m` with rows `0` and `1` exchanged.
pub open spec fn swap_rows01<T>(m: [[T; 3]; 3], s: [[T; 3]; 3]) -> bool {
    s[0] == m[1] && s[1] == m[0] && s[2] == m[2]
}

/// The determinant of an `i64` matrix whose computation does not overflow
/// is the cofactor polynomial of its entries.
proof fn lemma_det3_i64(m: [[i64; 3]; 3])
    requires
        det3_req(m),
    ensures
        det3_spec(m) as int == m[0][0] * (m[1][1] * m[2][2] - m[1][2] * m[2][1]) - m[0][1] * (
        m[1][0] * m[2][2] - m[1][2] * m[2][0]) + m[0][2] * (m[1][0] * m[2][1] - m[1][1] * m[2][0]),
{
}

/// For `i64` matrices, exchanging two rows negates the determinant: when
/// `mat3_det` can compute both determinants without overflow,
/// `det(s) == -det(m)` for `s` the matrix `m` with rows 0 and 1 exchanged.
pub proof fn lemma_det3_row_swap_i64(m: [[i64; 3]; 3], s: [[i64; 3]; 3])
    requires
        swap_rows01(m, s),
        det3_req(m),
        det3_req(s),
    ensures
        det3_spec(s) == -det3_spec(m),
{
    lemma_det3_i64(m);
    lemma_det3_i64(s);
    let (m00, m01, m02) = (m[0][0] as int, m[0][1] as int, m[0][2] as int);
    let (m10, m11, m12) = (m[1][0] as int, m[1][1] as int, m[1][2] as int);
    let (m20, m21, m22) = (m[2][0] as int, m[2][1] as int, m[2][2] as int);
    let a = m00 * m11 * m22;
    let b = m00 * m12 * m21;
    let c = m01 * m10 * m22;
    let d = m01 * m12 * m20;
    let e = m02 * m10 * m21;
    let f = m02 * m11 * m20;
    assert(m00 * (m11 * m22 - m12 * m21) == a - b) by (nonlinear_arith)
        requires
            a == m00 * m11 * m22,
            b == m00 * m12 * m21,
    ;
    assert(m01 * (m10 * m22 - m12 * m20) == c - d) by (nonlinear_arith)
        requires
            c == m01 * m10 * m22,
            d == m01 * m12 * m20,
    ;
    assert(m02 * (m10 * m21 - m11 * m20) == e - f) by (nonlinear_arith)
        requires
            e == m02 * m10 * m21,
            f == m02 * m11 * m20,
    ;
    assert(m10 * (m01 * m22 - m02 * m21) == c - e) by (nonlinear_arith)
        requires
            c == m01 * m10 * m22,
            e == m02 * m10 * m21,
    ;
    assert(m11 * (m00 * m22 - m02 * m20) == a - f) by (nonlinear_arith)
        requires
            a == m00 * m11 * m22,
            f == m02 * m11 * m20,
    ;
    assert(m12 * (m00 * m21 - m01 * m20) == b - d) by (nonlinear_arith)
        requires
            b == m00 * m12 * m21,
            d == m01 * m12 * m20,
    ;
}

/// The generic product and the `3 × 3` product agree whenever the zero that
/// sums start from is an additive identity: entry `(i, j)` of `mat_mul`
/// (`((z + a_i0 b_0j) + a_i1 b_1j) + a_i2 b_2j`) equals entry `(i, j)` of
/// `mat3_mul`, and the one is permitted exactly when the other is.
pub proof fn lemma_mat_mul_matches_mat3_mul<T: Scalar>(
    z: T,
    a: [[T; 3]; 3],
    b: [[T; 3]; 3],
    i: int,
    j: int,
)
    requires
        is_zero(z),
        forall|x: T| #[trigger] sadd(z, x) == x && add_ok(z, x),
        0 <= i < 3,
        0 <= j < 3,
    ensures
        dot_from(z, a[i]@, column(b, j), 3) == mat3_mul_entry(a, b, i, j),
        dot_from_req(z, a[i]@, column(b, j), 3) <==> dot3_req(
            a[i][0],
            b[0][j],
            a[i][1],
            b[1][j],
            a[i][2],
            b[2][j],
        ),
{
    reveal_with_fuel(dot_from, 4);
    reveal_with_fuel(dot_from_req, 4);
    assert(column(b, j)[0] == b[0][j]);
    assert(column(b, j)[1] == b[1][j]);
    assert(column(b, j)[2] == b[2][j]);
    assert(sadd(z, smul(a[i][0], b[0][j])) == smul(a[i][0], b[0][j]));
    assert(add_ok(z, smul(a[i][0], b[0][j])));
}

/// For `i64` matrices the generic product and the `3 × 3` product agree:
/// entry `(i, j)` of `mat_mul` (a sum started from the zero) equals entry
/// `(i, j)` of `mat3_mul`, and the one overflows exactly when the other
/// does.
pub proof fn lemma_mat_mul_matches_mat3_mul_i64(
    z: i64,
    a: [[i64; 3]; 3],
    b: [[i64; 3]; 3],
    i: int,
    j: int,
)
    requires
        is_zero(z),
        0 <= i < 3,
        0 <= j < 3,
    ensures
        dot_from(z, a[i]@, column(b, j), 3) == mat3_mul_entry(a, b, i, j),
        dot_from_req(z, a[i]@, column(b, j), 3) <==> dot3_req(
            a[i][0],
            b[0][j],
            a[i][1],
            b[1][j],
            a[i][2],
            b[2][j],
        ),
{
    assert(z == 0);
    assert forall|x: i64| #[trigger] sadd(z, x) == x && add_ok(z, x) by {}
    lemma_mat_mul_matches_mat3_mul(z, a, b, i, j);
}

} // verus!
