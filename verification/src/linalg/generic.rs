//! Matrix operations for any dimension, generic over the scalar type.
//!
//! Sums start from the scalar's zero (`T::default()`) and add their terms
//! in index order; contracts state the result as that exact sequence of
//! operations.
use crate::scalar::{
    Scalar,
    exact_arith,
    total_arith,
    is_zero,
    sadd,
    div_ok,
    is_two,
    Halve,
    smul,
    ssub,
    add_ok,
    mul_ok,
    sub_ok,
    dot_from,
    dot_from_req,
    lemma_dot_from_req_prefix,
    sum_from,
    sum_from_req,
    lemma_sum_from_req_prefix,
    grid_sum,
    grid_sum_req,
    lemma_grid_sum_req_prefix,
    column,
};
use vstd::prelude::*;

verus! {

/// The diagonal of an `N × N` matrix.
pub open spec fn diagonal<T, const N: usize>(a: [[T; N]; N]) -> Seq<T> {
    Seq::new(N as nat, |i: int| a[i][i])
}

/// The terms `(x_i A_ij) x_j` of the quadratic form `xᵀ A x`.
pub open spec fn quadratic_term<T: Scalar, const N: usize>(x: Seq<T>, a: [[T; N]; N]) -> spec_fn(
    int,
    int,
) -> T {
    |i: int, j: int| smul(smul(x[i], a[i][j]), x[j])
}

/// The operations computing a term of `quadratic_term(x, a)` are permitted.
pub open spec fn quadratic_term_ok<T: Scalar, const N: usize>(
    x: Seq<T>,
    a: [[T; N]; N],
) -> spec_fn(int, int) -> bool {
    |i: int, j: int| mul_ok(x[i], a[i][j]) && mul_ok(smul(x[i], a[i][j]), x[j])
}

/// `xᵀ A x` summed over `(i, j)` in row-major order from `zero`.
pub open spec fn quadratic_form_spec<T: Scalar, const N: usize>(
    zero: T,
    x: Seq<T>,
    a: [[T; N]; N],
) -> T {
    grid_sum(zero, quadratic_term(x, a), N as nat, N as nat, 0)
}

/// Every operation of `quadratic_form_spec(zero, x, a)` is permitted.
pub open spec fn quadratic_form_req<T: Scalar, const N: usize>(
    zero: T,
    x: Seq<T>,
    a: [[T; N]; N],
) -> bool {
    grid_sum_req(zero, quadratic_term(x, a), quadratic_term_ok(x, a), N as nat, N as nat, 0)
}

/// The terms `A_ij B_ji` of `Tr(A B)`.
pub open spec fn trace_product_term<T: Scalar, const N: usize>(
    a: [[T; N]; N],
    b: [[T; N]; N],
) -> spec_fn(int, int) -> T {
    |i: int, j: int| smul(a[i][j], b[j][i])
}

/// The product computing a term of `trace_product_term(a, b)` is permitted.
pub open spec fn trace_product_term_ok<T: Scalar, const N: usize>(
    a: [[T; N]; N],
    b: [[T; N]; N],
) -> spec_fn(int, int) -> bool {
    |i: int, j: int| mul_ok(a[i][j], b[j][i])
}

/// Rectangular matrix multiplication: `C = A B` where `A` is `M × K`, `B` is
/// `K × N` and `C` is `M × N`.
#[verifier::loop_isolation(false)]
pub fn mat_mul<T: Scalar, const M: usize, const K: usize, const N: usize>(
    a: &[[T; K]; M],
    b: &[[T; N]; K],
) -> (c: [[T; N]; M])
    requires
        total_arith::<T>() || (exact_arith::<T>() && forall|z: T|
            #[trigger] is_zero(z) ==> forall|i: int, j: int|
                0 <= i < M && 0 <= j < N ==> dot_from_req(z, a[i]@, column(*b, j), K as nat)),
    ensures
        exists|z: T|
            #[trigger] is_zero(z) && (exact_arith::<T>() ==> forall|i: int, j: int|
                0 <= i < M && 0 <= j < N ==> c[i][j] == dot_from(
                    z,
                    a[i]@,
                    column(*b, j),
                    K as nat,
                )),
{
    let zero = T::default();
    assert(is_zero(zero));
    let mut c = [[zero; N]; M];
    for i in 0..M
        invariant
            exact_arith::<T>() ==> forall|ii: int, j: int|
                0 <= ii < i && 0 <= j < N ==> c[ii][j] == dot_from(
                    zero,
                    a[ii]@,
                    column(*b, j),
                    K as nat,
                ),
    {
        for j in 0..N
            invariant
                exact_arith::<T>() ==> forall|ii: int, jj: int|
                    0 <= ii < i && 0 <= jj < N ==> c[ii][jj] == dot_from(
                        zero,
                        a[ii]@,
                        column(*b, jj),
                        K as nat,
                    ),
                exact_arith::<T>() ==> forall|jj: int|
                    0 <= jj < j ==> c[i as int][jj] == dot_from(
                        zero,
                        a[i as int]@,
                        column(*b, jj),
                        K as nat,
                    ),
        {
            let mut s = zero;
            for k in 0..K
                invariant
                    exact_arith::<T>() ==> s == dot_from(
                        zero,
                        a[i as int]@,
                        column(*b, j as int),
                        k as nat,
                    ),
            {
                proof {
                    if !total_arith::<T>() {
                        lemma_dot_from_req_prefix(
                            zero,
                            a[i as int]@,
                            column(*b, j as int),
                            (k + 1) as nat,
                            K as nat,
                        );
                    }
                }
                let p = a[i][k] * b[k][j];
                s = s + p;
            }
            c[i][j] = s;
        }
    }
    c
}

/// Transpose of an `M × N` matrix: returns `Aᵀ`, of shape `N × M`.
pub fn mat_transpose<T: Copy + Default, const M: usize, const N: usize>(a: &[[T; N]; M]) -> (t: [[T;
    M]; N])
    ensures
        forall|i: int, j: int| 0 <= i < M && 0 <= j < N ==> #[trigger] t[j][i] == a[i][j],
{
    let zero = T::default();
    let mut t = [[zero; M]; N];
    for i in 0..M
        invariant
            forall|ii: int, j: int| 0 <= ii < i && 0 <= j < N ==> #[trigger] t[j][ii] == a[ii][j],
    {
        for j in 0..N
            invariant
                i < M,
                forall|ii: int, jj: int|
                    0 <= ii < i && 0 <= jj < N ==> #[trigger] t[jj][ii] == a[ii][jj],
                forall|jj: int| 0 <= jj < j ==> #[trigger] t[jj][i as int] == a[i as int][jj],
        {
            t[j][i] = a[i][j];
        }
    }
    t
}

/// `t` is the transpose of `a`.
pub open spec fn is_transpose<T, const M: usize, const N: usize>(a: [[T; N]; M], t: [[T; M]; N]) -> bool {
    forall|i: int, j: int| 0 <= i < M && 0 <= j < N ==> #[trigger] t[j][i] == a[i][j]
}

/// Transposing twice gives back the matrix: if `t = Aᵀ` and `u = tᵀ` (as
/// `mat_transpose` returns them), then `u = A`.
pub proof fn lemma_transpose_involutive<T, const M: usize, const N: usize>(
    a: [[T; N]; M],
    t: [[T; M]; N],
    u: [[T; N]; M],
)
    requires
        is_transpose(a, t),
        is_transpose(t, u),
    ensures
        u == a,
{
    assert forall|i: int| 0 <= i < M implies u[i] == a[i] by {
        assert forall|j: int| 0 <= j < N implies u[i][j] == a[i][j] by {
            assert(t[j][i] == a[i][j]);
            assert(u[i][j] == t[j][i]);
        }
        crate::jets::lemma_array_ext(u[i], a[i]);
    }
    crate::jets::lemma_array_ext(u, a);
}

/// Symmetric product `AᵀA` of an `M × N` matrix: the lower triangle is
/// computed (entry `(i, j)`, `j <= i`, is column `i` dotted with column
/// `j`) and mirrored into the upper triangle.
#[verifier::loop_isolation(false)]
pub fn mat_ata<T: Scalar, const M: usize, const N: usize>(a: &[[T; N]; M]) -> (c: [[T; N]; N])
    requires
        total_arith::<T>() || (exact_arith::<T>() && forall|z: T|
            #[trigger] is_zero(z) ==> forall|i: int, j: int|
                0 <= j <= i < N ==> dot_from_req(z, column(*a, i), column(*a, j), M as nat)),
    ensures
        forall|i: int, j: int| 0 <= i < N && 0 <= j < N ==> c[i][j] == c[j][i],
        exists|z: T|
            #[trigger] is_zero(z) && (exact_arith::<T>() ==> forall|i: int, j: int|
                0 <= j <= i < N ==> c[i][j] == dot_from(
                    z,
                    column(*a, i),
                    column(*a, j),
                    M as nat,
                )),
{
    let zero = T::default();
    assert(is_zero(zero));
    let mut c = [[zero; N]; N];
    for i in 0..N
        invariant
            forall|ii: int, jj: int| 0 <= ii < N && 0 <= jj < N ==> c[ii][jj] == c[jj][ii],
            forall|ii: int, jj: int| 0 <= jj < N && i <= ii < N && jj <= ii ==> c[ii][jj] == zero,
            exact_arith::<T>() ==> forall|ii: int, jj: int|
                0 <= jj <= ii < i ==> c[ii][jj] == dot_from(
                    zero,
                    column(*a, ii),
                    column(*a, jj),
                    M as nat,
                ),
    {
        for j in 0..i + 1
            invariant
                forall|ii: int, jj: int| 0 <= ii < N && 0 <= jj < N ==> c[ii][jj] == c[jj][ii],
                forall|ii: int, jj: int|
                    0 <= jj < N && i <= ii < N && jj <= ii && (ii > i || jj >= j) ==> c[ii][jj]
                        == zero,
                exact_arith::<T>() ==> forall|ii: int, jj: int|
                    0 <= jj <= ii < i ==> c[ii][jj] == dot_from(
                        zero,
                        column(*a, ii),
                        column(*a, jj),
                        M as nat,
                    ),
                exact_arith::<T>() ==> forall|jj: int|
                    0 <= jj < j ==> c[i as int][jj] == dot_from(
                        zero,
                        column(*a, i as int),
                        column(*a, jj),
                        M as nat,
                    ),
        {
            let mut s = zero;
            for k in 0..M
                invariant
                    exact_arith::<T>() ==> s == dot_from(
                        zero,
                        column(*a, i as int),
                        column(*a, j as int),
                        k as nat,
                    ),
            {
                proof {
                    if !total_arith::<T>() {
                        lemma_dot_from_req_prefix(
                            zero,
                            column(*a, i as int),
                            column(*a, j as int),
                            (k + 1) as nat,
                            M as nat,
                        );
                    }
                }
                let p = a[k][i] * a[k][j];
                s = s + p;
            }
            c[i][j] = s;
            c[j][i] = s;
        }
    }
    c
}

/// Matrix-vector product `y = A x` for an `N × N` matrix.
#[verifier::loop_isolation(false)]
pub fn mat_vec_mul<T: Scalar, const N: usize>(a: &[[T; N]; N], x: &[T; N]) -> (y: [T; N])
    requires
        total_arith::<T>() || (exact_arith::<T>() && forall|z: T|
            #[trigger] is_zero(z) ==> forall|i: int|
                0 <= i < N ==> dot_from_req(z, a[i]@, x@, N as nat)),
    ensures
        exists|z: T|
            #[trigger] is_zero(z) && (exact_arith::<T>() ==> forall|i: int|
                0 <= i < N ==> y[i] == dot_from(z, a[i]@, x@, N as nat)),
{
    let zero = T::default();
    assert(is_zero(zero));
    let mut y = [zero; N];
    for i in 0..N
        invariant
            forall|ii: int| i <= ii < N ==> y[ii] == zero,
            exact_arith::<T>() ==> forall|ii: int|
                0 <= ii < i ==> y[ii] == dot_from(zero, a[ii]@, x@, N as nat),
    {
        for j in 0..N
            invariant
                forall|ii: int| i < ii < N ==> y[ii] == zero,
                exact_arith::<T>() ==> forall|ii: int|
                    0 <= ii < i ==> y[ii] == dot_from(zero, a[ii]@, x@, N as nat),
                exact_arith::<T>() ==> y[i as int] == dot_from(zero, a[i as int]@, x@, j as nat),
        {
            proof {
                if !total_arith::<T>() {
                    lemma_dot_from_req_prefix(zero, a[i as int]@, x@, (j + 1) as nat, N as nat);
                }
            }
            let p = a[i][j] * x[j];
            y[i] = y[i] + p;
        }
    }
    y
}

/// Trace of an `N × N` matrix: the diagonal summed from zero.
#[verifier::loop_isolation(false)]
pub fn mat_trace<T: Scalar, const N: usize>(a: &[[T; N]; N]) -> (t: T)
    requires
        total_arith::<T>() || (exact_arith::<T>() && forall|z: T|
            #[trigger] is_zero(z) ==> sum_from_req(z, diagonal(*a), N as nat)),
    ensures
        exists|z: T|
            #[trigger] is_zero(z) && (exact_arith::<T>() ==> t == sum_from(
                z,
                diagonal(*a),
                N as nat,
            )),
{
    let zero = T::default();
    assert(is_zero(zero));
    let mut t = zero;
    for i in 0..N
        invariant
            exact_arith::<T>() ==> t == sum_from(zero, diagonal(*a), i as nat),
    {
        proof {
            if !total_arith::<T>() {
                lemma_sum_from_req_prefix(zero, diagonal(*a), (i + 1) as nat, N as nat);
            }
        }
        t = t + a[i][i];
    }
    t
}

/// Trace of the product of two `N × N` matrices, `Tr(A B)`: the terms
/// `A_ij B_ji` summed over `(i, j)` in row-major order, without forming the
/// product.
#[verifier::loop_isolation(false)]
pub fn mat_trace_product<T: Scalar, const N: usize>(a: &[[T; N]; N], b: &[[T; N]; N]) -> (t: T)
    requires
        total_arith::<T>() || (exact_arith::<T>() && forall|z: T|
            #[trigger] is_zero(z) ==> grid_sum_req(
                z,
                trace_product_term(*a, *b),
                trace_product_term_ok(*a, *b),
                N as nat,
                N as nat,
                0,
            )),
    ensures
        exists|z: T|
            #[trigger] is_zero(z) && (exact_arith::<T>() ==> t == grid_sum(
                z,
                trace_product_term(*a, *b),
                N as nat,
                N as nat,
                0,
            )),
{
    let zero = T::default();
    assert(is_zero(zero));
    let ghost term = trace_product_term(*a, *b);
    let ghost term_ok = trace_product_term_ok(*a, *b);
    let mut trace = zero;
    for i in 0..N
        invariant
            exact_arith::<T>() ==> trace == grid_sum(zero, term, N as nat, i as nat, 0),
    {
        for j in 0..N
            invariant
                exact_arith::<T>() ==> trace == grid_sum(zero, term, N as nat, i as nat, j as nat),
        {
            proof {
                if !total_arith::<T>() {
                    lemma_grid_sum_req_prefix(
                        zero,
                        term,
                        term_ok,
                        N as nat,
                        i as nat,
                        (j + 1) as nat,
                        N as nat,
                    );
                }
            }
            let p = a[i][j] * b[j][i];
            trace = trace + p;
        }
        assert(grid_sum(zero, term, N as nat, (i + 1) as nat, 0) == grid_sum(
            zero,
            term,
            N as nat,
            i as nat,
            N as nat,
        ));
    }
    trace
}

/// Entry `(i, j)` of the product `A B` as `mat_mul` computes it, summed from
/// `zero`.
pub open spec fn product_entry<T: Scalar, const N: usize>(
    zero: T,
    a: [[T; N]; N],
    b: [[T; N]; N],
) -> spec_fn(int, int) -> T {
    |i: int, j: int| dot_from(zero, a[i]@, column(b, j), N as nat)
}

/// The terms `M_ij M_jk M_ki` of `Tr(M³)`, indexed by the flattened row
/// `r = i N + j` and the column `k`.
pub open spec fn trace_cube_term<T: Scalar>(m: spec_fn(int, int) -> T, n: int) -> spec_fn(
    int,
    int,
) -> T {
    |r: int, k: int| smul(smul(m(r / n, r % n), m(r % n, k)), m(k, r / n))
}

/// The products computing a term of `trace_cube_term(m, n)` are permitted.
pub open spec fn trace_cube_term_ok<T: Scalar>(m: spec_fn(int, int) -> T, n: int) -> spec_fn(
    int,
    int,
) -> bool {
    |r: int, k: int|
        mul_ok(m(r / n, r % n), m(r % n, k)) && mul_ok(
            smul(m(r / n, r % n), m(r % n, k)),
            m(k, r / n),
        )
}

/// Trace of the cube of the product `M = A B`:
/// `Tr(M³) = Σ_{i,j,k} M_ij M_jk M_ki`, computed from `M` without forming
/// `M³`, the terms added in `(i, j, k)` lexicographic order.
#[verifier::loop_isolation(false)]
pub fn mat_trace_cube<T: Scalar, const N: usize>(a: &[[T; N]; N], b: &[[T; N]; N]) -> (t: T)
    requires
        N * N <= usize::MAX,
        total_arith::<T>() || (exact_arith::<T>() && forall|zm: T, zs: T|
            #[trigger] is_zero(zm) && #[trigger] is_zero(zs) ==> {
                &&& forall|i: int, j: int|
                    0 <= i < N && 0 <= j < N ==> dot_from_req(
                        zm,
                        a[i]@,
                        column(*b, j),
                        N as nat,
                    )
                &&& grid_sum_req(
                    zs,
                    trace_cube_term(product_entry(zm, *a, *b), N as int),
                    trace_cube_term_ok(product_entry(zm, *a, *b), N as int),
                    N as nat,
                    (N * N) as nat,
                    0,
                )
            }),
    ensures
        exists|zm: T, zs: T|
            #[trigger] is_zero(zm) && #[trigger] is_zero(zs) && (exact_arith::<T>() ==> t
                == grid_sum(
                zs,
                trace_cube_term(product_entry(zm, *a, *b), N as int),
                N as nat,
                (N * N) as nat,
                0,
            )),
{
    let m = mat_mul(a, b);
    let ghost zm = choose|zm: T|
        #[trigger] is_zero(zm) && (exact_arith::<T>() ==> forall|i: int, j: int|
            0 <= i < N && 0 <= j < N ==> m[i][j] == dot_from(zm, a[i]@, column(*b, j), N as nat));
    let zero = T::default();
    assert(is_zero(zero));
    let ghost pm = product_entry(zm, *a, *b);
    let ghost term = trace_cube_term(pm, N as int);
    let ghost term_ok = trace_cube_term_ok(pm, N as int);
    let mut trace = zero;
    assert(0 * N == 0) by (nonlinear_arith);
    for i in 0..N
        invariant
            exact_arith::<T>() ==> trace == grid_sum(zero, term, N as nat, (i * N) as nat, 0),
    {
        for j in 0..N
            invariant
                exact_arith::<T>() ==> trace == grid_sum(
                    zero,
                    term,
                    N as nat,
                    (i * N + j) as nat,
                    0,
                ),
        {
            let ghost r = i * N + j;
            assert(r < N * N) by (nonlinear_arith)
                requires
                    r == i * N + j,
                    i < N,
                    j < N,
            ;
            proof {
                vstd::arithmetic::div_mod::lemma_fundamental_div_mod_converse(
                    r as int,
                    N as int,
                    i as int,
                    j as int,
                );
            }
            for k in 0..N
                invariant
                    exact_arith::<T>() ==> trace == grid_sum(
                        zero,
                        term,
                        N as nat,
                        r as nat,
                        k as nat,
                    ),
            {
                proof {
                    if !total_arith::<T>() {
                        lemma_grid_sum_req_prefix(
                            zero,
                            term,
                            term_ok,
                            N as nat,
                            r as nat,
                            (k + 1) as nat,
                            (N * N) as nat,
                        );
                    }
                }
                let p = m[i][j] * m[j][k] * m[k][i];
                trace = trace + p;
            }
            assert(grid_sum(zero, term, N as nat, (r + 1) as nat, 0) == grid_sum(
                zero,
                term,
                N as nat,
                r as nat,
                N as nat,
            ));
        }
        assert((i * N + N) as nat == ((i + 1) * N) as nat) by (nonlinear_arith);
    }
    trace
}

/// Compute the quadratic form `xᵀ A x`: the terms `(x_i A_ij) x_j` summed
/// over `(i, j)` in row-major order.
#[verifier::loop_isolation(false)]
pub fn mat_quadratic_form<T: Scalar, const N: usize>(x: &[T; N], a: &[[T; N]; N]) -> (r: T)
    requires
        total_arith::<T>() || (exact_arith::<T>() && forall|z: T|
            #[trigger] is_zero(z) ==> quadratic_form_req(z, x@, *a)),
    ensures
        exists|z: T|
            #[trigger] is_zero(z) && (exact_arith::<T>() ==> r == quadratic_form_spec(z, x@, *a)),
{
    let zero = T::default();
    assert(is_zero(zero));
    let ghost term = quadratic_term(x@, *a);
    let ghost term_ok = quadratic_term_ok(x@, *a);
    let mut result = zero;
    for i in 0..N
        invariant
            exact_arith::<T>() ==> result == grid_sum(zero, term, N as nat, i as nat, 0),
    {
        for j in 0..N
            invariant
                exact_arith::<T>() ==> result == grid_sum(
                    zero,
                    term,
                    N as nat,
                    i as nat,
                    j as nat,
                ),
        {
            proof {
                if !total_arith::<T>() {
                    lemma_grid_sum_req_prefix(
                        zero,
                        term,
                        term_ok,
                        N as nat,
                        i as nat,
                        (j + 1) as nat,
                        N as nat,
                    );
                }
            }
            let p = x[i] * a[i][j] * x[j];
            result = result + p;
        }
        assert(grid_sum(zero, term, N as nat, (i + 1) as nat, 0) == grid_sum(
            zero,
            term,
            N as nat,
            i as nat,
            N as nat,
        ));
    }
    result
}

/// Entry-wise sum `C = A + B` of two `N × N` matrices.
pub(crate) fn mat_add_square<T: Scalar, const N: usize>(a: &[[T; N]; N], b: &[[T; N]; N]) -> (c: [[T;
    N]; N])
    requires
        total_arith::<T>() || (exact_arith::<T>() && forall|i: int, j: int|
            0 <= i < N && 0 <= j < N ==> add_ok(#[trigger] a[i][j], b[i][j])),
    ensures
        exact_arith::<T>() ==> forall|i: int, j: int|
            0 <= i < N && 0 <= j < N ==> #[trigger] c[i][j] == sadd(a[i][j], b[i][j]),
{
    let zero = T::default();
    let mut c = [[zero; N]; N];
    for i in 0..N
        invariant
            total_arith::<T>() || (exact_arith::<T>() && forall|i: int, j: int|
                0 <= i < N && 0 <= j < N ==> add_ok(#[trigger] a[i][j], b[i][j])),
            exact_arith::<T>() ==> forall|ii: int, j: int|
                0 <= ii < i && 0 <= j < N ==> #[trigger] c[ii][j] == sadd(a[ii][j], b[ii][j]),
    {
        for j in 0..N
            invariant
                i < N,
                total_arith::<T>() || (exact_arith::<T>() && forall|i: int, j: int|
                    0 <= i < N && 0 <= j < N ==> add_ok(#[trigger] a[i][j], b[i][j])),
                exact_arith::<T>() ==> forall|ii: int, jj: int|
                    0 <= ii < i && 0 <= jj < N ==> #[trigger] c[ii][jj] == sadd(a[ii][jj], b[ii][jj]),
                exact_arith::<T>() ==> forall|jj: int|
                    0 <= jj < j ==> #[trigger] c[i as int][jj] == sadd(a[i as int][jj], b[i as int][jj]),
        {
            c[i][j] = a[i][j] + b[i][j];
        }
    }
    c
}

/// The average `(A_ij + A_ji) / 2` for `i <= j`, the upper-triangle
/// entry first: the sum, halved.
pub open spec fn symmetrized_entry<T: Scalar + Halve, const N: usize>(
    a: [[T; N]; N],
    i: int,
    j: int,
) -> T {
    sadd(a[i][j], a[j][i]).halve_spec()
}

/// Every operation of symmetrizing `a` is permitted.
pub open spec fn symmetrize_req<T: Scalar + Halve, const N: usize>(a: [[T; N]; N]) -> bool {
    forall|i: int, j: int|
        0 <= i <= j < N ==> add_ok(#[trigger] a[i][j], a[j][i]) && sadd(a[i][j], a[j][i]).halve_req()
}

/// `s` is symmetric and holds the averages of `a`: what `mat_symmetrize(a)`
/// returns for a scalar whose addition and halving are exact.
pub open spec fn is_symmetrization<T: Scalar + Halve, const N: usize>(
    a: [[T; N]; N],
    s: [[T; N]; N],
) -> bool {
    &&& forall|i: int, j: int| 0 <= i < N && 0 <= j < N ==> s[i][j] == s[j][i]
    &&& forall|i: int, j: int| 0 <= i <= j < N ==> s[i][j] == symmetrized_entry(a, i, j)
}

/// Symmetrize an `N × N` matrix: `S = (A + Aᵀ) / 2`. Each pair `i <= j` is
/// summed once and the sum halved (a jet is halved derivative by
/// derivative), and the average written to both `(i, j)` and `(j, i)`, so
/// the result is exactly symmetric.
#[verifier::loop_isolation(false)]
pub fn mat_symmetrize<T: Scalar + Halve, const N: usize>(a: &[[T; N]; N]) -> (s: [[T; N]; N])
    requires
        (total_arith::<T>() && forall|x: T| #[trigger] x.halve_req()) || (exact_arith::<T>()
            && symmetrize_req(*a)),
    ensures
        forall|i: int, j: int| 0 <= i < N && 0 <= j < N ==> s[i][j] == s[j][i],
        exact_arith::<T>() && T::obeys_halve_spec() ==> is_symmetrization(*a, s),
{
    let zero = T::default();
    let mut s = [[zero; N]; N];
    for i in 0..N
        invariant
            forall|ii: int, jj: int| 0 <= ii < N && 0 <= jj < N ==> s[ii][jj] == s[jj][ii],
            forall|ii: int, jj: int| i <= ii < N && i <= jj < N ==> s[ii][jj] == zero,
            exact_arith::<T>() && T::obeys_halve_spec() ==> forall|ii: int, jj: int|
                0 <= ii < i && ii <= jj < N ==> s[ii][jj] == symmetrized_entry(*a, ii, jj),
    {
        for j in i..N
            invariant
                i < N,
                forall|ii: int, jj: int| 0 <= ii < N && 0 <= jj < N ==> s[ii][jj] == s[jj][ii],
                forall|ii: int, jj: int|
                    i <= ii < N && i <= jj < N && (ii > i || jj >= j) && (jj > i || ii >= j) ==> s[ii][jj]
                        == zero,
                exact_arith::<T>() && T::obeys_halve_spec() ==> forall|ii: int, jj: int|
                    0 <= ii < i && ii <= jj < N ==> s[ii][jj] == symmetrized_entry(*a, ii, jj),
                exact_arith::<T>() && T::obeys_halve_spec() ==> forall|jj: int|
                    i <= jj < j ==> s[i as int][jj] == symmetrized_entry(*a, i as int, jj),
        {
            assert(add_ok(a[i as int][j as int], a[j as int][i as int]) || total_arith::<T>());
            let sum = a[i][j] + a[j][i];
            let avg = sum.halve();
            s[i][j] = avg;
            s[j][i] = avg;
        }
    }
    s
}

/// Symmetrizing is idempotent (for `u64` matrices): the symmetrization of
/// a symmetrization is the same matrix, and symmetrizing it again is
/// always permitted.
pub proof fn lemma_symmetrize_idempotent_u64<const N: usize>(
    a: [[u64; N]; N],
    s: [[u64; N]; N],
    s2: [[u64; N]; N],
)
    requires
        is_symmetrization(a, s),
        is_symmetrization(s, s2),
    ensures
        symmetrize_req(s),
        s2 == s,
{
    assert forall|i: int, j: int| 0 <= i <= j < N implies add_ok(#[trigger] s[i][j], s[j][i])
        && sadd(s[i][j], s[j][i]).halve_req() && s2[i][j] == s[i][j] by {
        let m: u64 = sadd(a[i][j], a[j][i]);
        assert(s[i][j] == symmetrized_entry(a, i, j));
        assert(s[i][j] == m / 2);
        assert(s[j][i] == s[i][j]);
        assert(s2[i][j] == symmetrized_entry(s, i, j));
        assert(s[i][j] + s[j][i] <= u64::MAX);
        assert(sadd(s[i][j], s[j][i]) == 2 * s[i][j]);
        assert forall|two: u64| #[trigger] is_two(two) implies div_ok(sadd(s[i][j], s[j][i]), two) by {
            assert(two == 2);
        }
    }
    assert forall|i: int| 0 <= i < N implies s2[i] == s[i] by {
        assert forall|j: int| 0 <= j < N implies s2[i][j] == s[i][j] by {
            if j < i {
                assert(s2[j][i] == s[j][i]);
            }
        }
        crate::jets::lemma_array_ext(s2[i], s[i]);
    }
    crate::jets::lemma_array_ext(s2, s);
}

/// The differences `x_i - μ_i`.
pub open spec fn difference<T: Scalar, const N: usize>(x: [T; N], mu: [T; N]) -> Seq<T> {
    Seq::new(N as nat, |i: int| ssub(x[i], mu[i]))
}

/// Squared Mahalanobis distance using a pre-computed inverse covariance:
/// `(x - μ)ᵀ Σ⁻¹ (x - μ)`.
#[verifier::loop_isolation(false)]
pub fn mahalanobis_distance_squared_with_inv<T: Scalar, const N: usize>(
    x: &[T; N],
    mu: &[T; N],
    cov_inv: &[[T; N]; N],
) -> (r: T)
    requires
        total_arith::<T>() || (exact_arith::<T>() && (forall|i: int|
            0 <= i < N ==> sub_ok(#[trigger] x[i], mu[i])) && forall|z: T|
            #[trigger] is_zero(z) ==> quadratic_form_req(z, difference(*x, *mu), *cov_inv)),
    ensures
        exists|z: T|
            #[trigger] is_zero(z) && (exact_arith::<T>() ==> r == quadratic_form_spec(
                z,
                difference(*x, *mu),
                *cov_inv,
            )),
{
    let zero = T::default();
    let mut delta = [zero; N];
    for i in 0..N
        invariant
            exact_arith::<T>() ==> forall|ii: int|
                0 <= ii < i ==> delta[ii] == ssub(x[ii], mu[ii]),
    {
        delta[i] = x[i] - mu[i];
    }
    assert(exact_arith::<T>() ==> delta@ == difference(*x, *mu));
    mat_quadratic_form(&delta, cov_inv)
}

} // verus!
