//! What the linear-algebra specifications compute, stated in plain integer
//! arithmetic: for `i64` entries small enough that nothing overflows
//! (`small`: magnitude at most `2^15`), dot products, sums, cross terms and
//! determinants are the integer expressions of their textbook definitions.
use crate::impls::jet_laws::small;
use crate::linalg::generic::{quadratic_form_spec, quadratic_term, trace_product_term};
use crate::linalg::mat3::{det3_spec, det3_req};
use crate::scalar::{
    cross_term,
    cross_term_req,
    dot3_req,
    dot3_spec,
    dot_from,
    dot_from_req,
    grid_sum,
    smul,
    sum_from,
    sum_from_req,
};
use vstd::prelude::*;

verus! {

/// `x[0] y[0] + ... + x[n-1] y[n-1]` over the integers.
pub open spec fn int_dot(x: Seq<i64>, y: Seq<i64>, n: nat) -> int
    decreases n,
{
    if n == 0 {
        0
    } else {
        int_dot(x, y, (n - 1) as nat) + x[n - 1] * y[n - 1]
    }
}

/// `x[0] + ... + x[n-1]` over the integers.
pub open spec fn int_sum(x: Seq<i64>, n: nat) -> int
    decreases n,
{
    if n == 0 {
        0
    } else {
        int_sum(x, (n - 1) as nat) + x[n - 1]
    }
}

/// A product of two small values is at most `2^30` in magnitude.
proof fn lemma_small_product(a: i64, b: i64)
    requires
        small(a),
        small(b),
    ensures
        -1073741824 <= a * b <= 1073741824,
{
    assert(-1073741824 <= a * b <= 1073741824) by (nonlinear_arith)
        requires
            -32768 <= a <= 32768,
            -32768 <= b <= 32768,
    ;
}

/// The generic dot product of small `i64` vectors of length at most `2^16`
/// is the integer dot product added to the starting value, and every
/// operation of it is permitted.
pub proof fn lemma_dot_from_i64(acc: i64, x: Seq<i64>, y: Seq<i64>, n: nat)
    requires
        n <= x.len(),
        n <= y.len(),
        n <= 65536,
        small(acc),
        forall|k: int| 0 <= k < n ==> small(#[trigger] x[k]) && small(y[k]),
    ensures
        dot_from(acc, x, y, n) == acc + int_dot(x, y, n),
        dot_from_req(acc, x, y, n),
        -(n * 1073741824) <= int_dot(x, y, n) <= n * 1073741824,
    decreases n,
{
    if n > 0 {
        lemma_dot_from_i64(acc, x, y, (n - 1) as nat);
        let k: int = n - 1;
        assert(0 <= k < n);
        assert(small(x[k]));
        assert(small(y[k]));
        lemma_small_product(x[k], y[k]);
    }
}

/// The generic sum of `small` `i64` values, at most `2^16` of them, is the
/// integer sum added to the starting value, and every addition of it is
/// permitted.
pub proof fn lemma_sum_from_i64(acc: i64, x: Seq<i64>, n: nat)
    requires
        n <= x.len(),
        n <= 65536,
        small(acc),
        forall|k: int| 0 <= k < n ==> small(#[trigger] x[k]),
    ensures
        sum_from(acc, x, n) == acc + int_sum(x, n),
        sum_from_req(acc, x, n),
        -(n * 32768) <= int_sum(x, n) <= n * 32768,
    decreases n,
{
    if n > 0 {
        lemma_sum_from_i64(acc, x, (n - 1) as nat);
        let k: int = n - 1;
        assert(small(x[k]));
    }
}

/// The three-term dot product of small values is `x0 y0 + x1 y1 + x2 y2`,
/// and every operation of it is permitted.
pub proof fn lemma_dot3_i64(x0: i64, y0: i64, x1: i64, y1: i64, x2: i64, y2: i64)
    requires
        small(x0),
        small(y0),
        small(x1),
        small(y1),
        small(x2),
        small(y2),
    ensures
        dot3_spec(x0, y0, x1, y1, x2, y2) == x0 * y0 + x1 * y1 + x2 * y2,
        dot3_req(x0, y0, x1, y1, x2, y2),
{
    lemma_small_product(x0, y0);
    lemma_small_product(x1, y1);
    lemma_small_product(x2, y2);
}

/// A cross term of small values is `a b - c d`, and its operations are
/// permitted.
pub proof fn lemma_cross_term_i64(a: i64, b: i64, c: i64, d: i64)
    requires
        small(a),
        small(b),
        small(c),
        small(d),
    ensures
        cross_term(a, b, c, d) == a * b - c * d,
        cross_term_req(a, b, c, d),
{
    lemma_small_product(a, b);
    lemma_small_product(c, d);
}

/// The determinant of a `3 × 3` matrix of small entries is the cofactor
/// expansion along the first row, and computing it is permitted.
pub proof fn lemma_det3_small_i64(m: [[i64; 3]; 3])
    requires
        forall|i: int, j: int| 0 <= i < 3 && 0 <= j < 3 ==> small(#[trigger] m[i][j]),
    ensures
        det3_req(m),
        det3_spec(m) as int == m[0][0] * (m[1][1] * m[2][2] - m[1][2] * m[2][1]) - m[0][1] * (
        m[1][0] * m[2][2] - m[1][2] * m[2][0]) + m[0][2] * (m[1][0] * m[2][1] - m[1][1] * m[2][0]),
{
    assert(small(m[0][0]) && small(m[0][1]) && small(m[0][2]));
    assert(small(m[1][0]) && small(m[1][1]) && small(m[1][2]));
    assert(small(m[2][0]) && small(m[2][1]) && small(m[2][2]));
    lemma_cross_term_i64(m[1][1], m[2][2], m[1][2], m[2][1]);
    lemma_cross_term_i64(m[1][0], m[2][2], m[1][2], m[2][0]);
    lemma_cross_term_i64(m[1][0], m[2][1], m[1][1], m[2][0]);
    lemma_small_product(m[1][1], m[2][2]);
    lemma_small_product(m[1][2], m[2][1]);
    lemma_small_product(m[1][0], m[2][2]);
    lemma_small_product(m[1][2], m[2][0]);
    lemma_small_product(m[1][0], m[2][1]);
    lemma_small_product(m[1][1], m[2][0]);
    let c0: int = m[1][1] * m[2][2] - m[1][2] * m[2][1];
    let c1: int = m[1][0] * m[2][2] - m[1][2] * m[2][0];
    let c2: int = m[1][0] * m[2][1] - m[1][1] * m[2][0];
    assert(-(2147483648 * 32768) <= m[0][0] * c0 <= 2147483648 * 32768) by (nonlinear_arith)
        requires
            -32768 <= m[0][0] <= 32768,
            -2147483648 <= c0 <= 2147483648,
    ;
    assert(-(2147483648 * 32768) <= m[0][1] * c1 <= 2147483648 * 32768) by (nonlinear_arith)
        requires
            -32768 <= m[0][1] <= 32768,
            -2147483648 <= c1 <= 2147483648,
    ;
    assert(-(2147483648 * 32768) <= m[0][2] * c2 <= 2147483648 * 32768) by (nonlinear_arith)
        requires
            -32768 <= m[0][2] <= 32768,
            -2147483648 <= c2 <= 2147483648,
    ;
}

/// `term(r, c)` summed over the integers in row-major order: all of rows
/// `0..i` (columns `0..ncols`), then row `i` up to column `j`.
pub open spec fn int_grid(term: spec_fn(int, int) -> int, ncols: nat, i: nat, j: nat) -> int
    decreases i, j,
{
    if j == 0 {
        if i == 0 {
            0
        } else {
            int_grid(term, ncols, (i - 1) as nat, ncols)
        }
    } else {
        int_grid(term, ncols, i, (j - 1) as nat) + term(i as int, j - 1)
    }
}

/// On the `nr × ncols` grid, the `i64` terms equal the integer terms, which
/// are at most `2^45` in magnitude.
pub open spec fn grid_terms_match(
    term: spec_fn(int, int) -> i64,
    iterm: spec_fn(int, int) -> int,
    nr: nat,
    ncols: nat,
) -> bool {
    forall|r: int, c: int|
        0 <= r < nr && 0 <= c < ncols ==> #[trigger] term(r, c) as int == iterm(r, c)
            && -35184372088832 <= iterm(r, c) <= 35184372088832
}

/// The generic grid sum of `i64` terms equal to integer terms of magnitude
/// at most `2^45`, over a grid of `nr` rows of `ncols` columns with at most
/// `2^16` cells, is the integer grid sum added to the starting value.
pub proof fn lemma_grid_sum_i64(
    acc: i64,
    term: spec_fn(int, int) -> i64,
    iterm: spec_fn(int, int) -> int,
    nr: nat,
    ncols: nat,
    i: nat,
    j: nat,
)
    requires
        j <= ncols,
        i < nr || (i == nr && j == 0),
        nr * ncols <= 65536,
        small(acc),
        grid_terms_match(term, iterm, nr, ncols),
    ensures
        grid_sum(acc, term, ncols, i, j) == acc + int_grid(iterm, ncols, i, j),
        -((i * ncols + j) * 35184372088832) <= int_grid(iterm, ncols, i, j) <= (i * ncols + j)
            * 35184372088832,
    decreases i, j,
{
    if j == 0 {
        if i > 0 {
            assert((i - 1) * ncols + ncols == i * ncols) by (nonlinear_arith);
            let i1: nat = (i - 1) as nat;
            assert(i1 < nr);
            lemma_grid_sum_i64(acc, term, iterm, nr, ncols, i1, ncols);
        }
    } else {
        lemma_grid_sum_i64(acc, term, iterm, nr, ncols, i, (j - 1) as nat);
        let k: int = (i * ncols + j) as int;
        assert((k - 1) * 35184372088832 + 35184372088832 == k * 35184372088832) by (nonlinear_arith);
        assert(term(i as int, j - 1) as int == iterm(i as int, j - 1));
        assert(k <= nr * ncols) by (nonlinear_arith)
            requires
                k == i * ncols + j,
                i < nr,
                j <= ncols,
        ;
        assert(k * 35184372088832 <= 65536 * 35184372088832) by (nonlinear_arith)
            requires
                k <= 65536,
        ;
    }
}

/// The quadratic form of small `i64` values, `N² <= 2^16`, summed from
/// zero, is `Σ_ij x_i A_ij x_j` over the integers.
pub proof fn lemma_quadratic_form_i64<const N: usize>(x: Seq<i64>, a: [[i64; N]; N])
    requires
        N * N <= 65536,
        x.len() == N,
        forall|i: int| 0 <= i < N ==> small(#[trigger] x[i]),
        forall|i: int, j: int| 0 <= i < N && 0 <= j < N ==> small(#[trigger] a[i][j]),
    ensures
        quadratic_form_spec(0i64, x, a) == int_grid(
            |i: int, j: int| x[i] * a[i][j] * x[j],
            N as nat,
            N as nat,
            0,
        ),
{
    let iterm = |i: int, j: int| x[i] * a[i][j] * x[j];
    assert forall|r: int, c: int| 0 <= r < N && 0 <= c < N implies #[trigger] quadratic_term(x, a)(
        r,
        c,
    ) as int == iterm(r, c) && -35184372088832 <= iterm(r, c) <= 35184372088832 by {
        assert(small(x[r]) && small(x[c]) && small(a[r][c]));
        lemma_small_product(x[r], a[r][c]);
        let p: int = x[r] * a[r][c];
        assert(-35184372088832 <= p * x[c] <= 35184372088832) by (nonlinear_arith)
            requires
                -1073741824 <= p <= 1073741824,
                -32768 <= x[c] <= 32768,
        ;
    }
    lemma_grid_sum_i64(0i64, quadratic_term(x, a), iterm, N as nat, N as nat, N as nat, 0);
}

/// The trace of a product of small `i64` matrices, `N² <= 2^16`, summed
/// from zero, is `Σ_ij A_ij B_ji` over the integers.
pub proof fn lemma_trace_product_i64<const N: usize>(a: [[i64; N]; N], b: [[i64; N]; N])
    requires
        N * N <= 65536,
        forall|i: int, j: int| 0 <= i < N && 0 <= j < N ==> small(#[trigger] a[i][j]),
        forall|i: int, j: int| 0 <= i < N && 0 <= j < N ==> small(#[trigger] b[i][j]),
    ensures
        grid_sum(0i64, trace_product_term(a, b), N as nat, N as nat, 0) == int_grid(
            |i: int, j: int| a[i][j] * b[j][i],
            N as nat,
            N as nat,
            0,
        ),
{
    let iterm = |i: int, j: int| a[i][j] * b[j][i];
    assert forall|r: int, c: int| 0 <= r < N && 0 <= c < N implies #[trigger] trace_product_term(a, b)(
        r,
        c,
    ) as int == iterm(r, c) && -35184372088832 <= iterm(r, c) <= 35184372088832 by {
        assert(small(a[r][c]) && small(b[c][r]));
        lemma_small_product(a[r][c], b[c][r]);
        assert(trace_product_term(a, b)(r, c) == smul(a[r][c], b[c][r]));
        assert(iterm(r, c) == a[r][c] * b[c][r]);
    }
    assert(grid_terms_match(trace_product_term(a, b), iterm, N as nat, N as nat));
    lemma_grid_sum_i64(0i64, trace_product_term(a, b), iterm, N as nat, N as nat, N as nat, 0);
}

} // verus!
