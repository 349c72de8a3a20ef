//! Jets and the packed storage of their symmetric derivative arrays.
//!
//! A jet over `N` parameters carries a value and its derivatives with
//! respect to the parameters: `Jet1` the gradient, `Jet2` also the
//! Hessian, `Jet3` also the third-order tensor. A Hessian is stored as its
//! lower triangle (`i >= j`), `hess_size(n) = n(n+1)/2` entries; a
//! third-order tensor as its canonical entries (`i >= j >= k`),
//! `tens_size(n) = n(n+1)(n+2)/6` entries. The packing is a bijection
//! between canonical index tuples and slots, and every permutation of a
//! tuple reads the same slot.
use crate::scalar::{Scalar, is_one, is_zero};
use vstd::prelude::*;

verus! {

/// `n(n+1)/2`: the number of pairs `(i, j)` with `j <= i < n`.
pub open spec fn triangular(n: int) -> int {
    n * (n + 1) / 2
}

/// `n(n+1)(n+2)/6`: the number of triples `(i, j, k)` with `k <= j <= i < n`.
pub open spec fn tetrahedral(n: int) -> int {
    n * (n + 1) * (n + 2) / 6
}

pub open spec fn max2(a: int, b: int) -> int {
    if a >= b { a } else { b }
}

pub open spec fn min2(a: int, b: int) -> int {
    if a <= b { a } else { b }
}

pub open spec fn max3(a: int, b: int, c: int) -> int {
    max2(a, max2(b, c))
}

pub open spec fn min3(a: int, b: int, c: int) -> int {
    min2(a, min2(b, c))
}

/// The middle value of three (the one left after removing a largest and a
/// smallest).
pub open spec fn mid3(a: int, b: int, c: int) -> int {
    a + b + c - max3(a, b, c) - min3(a, b, c)
}

/// Offset of the canonical Hessian entry `(i, j)`, `i >= j`.
pub open spec fn hess_offset(i: int, j: int) -> int {
    triangular(i) + j
}

/// Offset of the canonical tensor entry `(i, j, k)`, `i >= j >= k`.
pub open spec fn tens_offset(i: int, j: int, k: int) -> int {
    tetrahedral(i) + triangular(j) + k
}

/// `triangular(n)` is exact: `2 * triangular(n) == n(n+1)`.
pub proof fn lemma_triangular_exact(n: int)
    requires
        n >= 0,
    ensures
        2 * triangular(n) == n * (n + 1),
        triangular(n) >= 0,
{
    let q = n / 2;
    if n % 2 == 0 {
        assert(n * (n + 1) == 2 * (q * (n + 1))) by (nonlinear_arith)
            requires
                n == 2 * q,
        ;
    } else {
        assert(n * (n + 1) == 2 * (n * (q + 1))) by (nonlinear_arith)
            requires
                n == 2 * q + 1,
        ;
    }
    assert(n * (n + 1) >= 0) by (nonlinear_arith)
        requires
            n >= 0,
    ;
}

/// One more row of the triangle: `triangular(n + 1) == triangular(n) + n + 1`.
pub proof fn lemma_triangular_step(n: int)
    requires
        n >= 0,
    ensures
        triangular(n + 1) == triangular(n) + n + 1,
{
    lemma_triangular_exact(n);
    lemma_triangular_exact(n + 1);
    assert((n + 1) * (n + 2) == n * (n + 1) + 2 * (n + 1)) by (nonlinear_arith);
}

/// `triangular` is monotone on the naturals.
pub proof fn lemma_triangular_monotone(a: int, b: int)
    requires
        0 <= a <= b,
    ensures
        triangular(a) <= triangular(b),
    decreases b - a,
{
    if a < b {
        lemma_triangular_monotone(a, b - 1);
        lemma_triangular_step(b - 1);
    }
}

/// `tetrahedral(n)` is exact: `6 * tetrahedral(n) == n(n+1)(n+2)`.
pub proof fn lemma_tetrahedral_exact(n: int)
    requires
        n >= 0,
    ensures
        6 * tetrahedral(n) == n * (n + 1) * (n + 2),
        tetrahedral(n) >= 0,
    decreases n,
{
    if n == 0 {
        assert(0int * (0 + 1) * (0 + 2) == 0);
    } else {
        lemma_tetrahedral_exact(n - 1);
        lemma_triangular_exact(n);
        let a = tetrahedral(n - 1);
        let b = triangular(n);
        assert(n * (n + 1) * (n + 2) == 6 * (a + b)) by (nonlinear_arith)
            requires
                6 * a == (n - 1) * (n - 1 + 1) * (n - 1 + 2),
                2 * b == n * (n + 1),
        ;
    }
}

/// One more layer of the tetrahedron:
/// `tetrahedral(n + 1) == tetrahedral(n) + triangular(n + 1)`.
pub proof fn lemma_tetrahedral_step(n: int)
    requires
        n >= 0,
    ensures
        tetrahedral(n + 1) == tetrahedral(n) + triangular(n + 1),
{
    lemma_tetrahedral_exact(n);
    lemma_tetrahedral_exact(n + 1);
    lemma_triangular_exact(n + 1);
    let a = tetrahedral(n);
    let b = triangular(n + 1);
    let c = tetrahedral(n + 1);
    assert(c == a + b) by (nonlinear_arith)
        requires
            6 * a == n * (n + 1) * (n + 2),
            2 * b == (n + 1) * (n + 1 + 1),
            6 * c == (n + 1) * (n + 1 + 1) * (n + 1 + 2),
    ;
}

/// `tetrahedral` is monotone on the naturals.
pub proof fn lemma_tetrahedral_monotone(a: int, b: int)
    requires
        0 <= a <= b,
    ensures
        tetrahedral(a) <= tetrahedral(b),
    decreases b - a,
{
    if a < b {
        lemma_tetrahedral_monotone(a, b - 1);
        lemma_tetrahedral_step(b - 1);
        lemma_triangular_exact(b);
    }
}

/// Computes `n(n+1)/2` with the product formed first, as usize arithmetic.
fn half_product(n: usize) -> (r: usize)
    requires
        n * (n + 1) <= usize::MAX,
    ensures
        r == triangular(n as int),
{
    assert(n + 1 <= usize::MAX) by (nonlinear_arith)
        requires
            n * (n + 1) <= usize::MAX,
            n >= 0,
    ;
    n * (n + 1) / 2
}

/// Lower-triangular index assuming canonical ordering (`i >= j`):
/// `i(i+1)/2 + j`.
pub fn hess_idx(i: usize, j: usize) -> (r: usize)
    requires
        i * (i + 1) <= usize::MAX,
        hess_offset(i as int, j as int) <= usize::MAX,
    ensures
        r == hess_offset(i as int, j as int),
{
    half_product(i) + j
}

/// Linear index of the Hessian entry `(i, j)` in lower-triangular storage.
/// The pair is put in canonical order first, so `(i, j)` and `(j, i)` share
/// an index. The result is always `Some`.
pub fn hess_index(i: usize, j: usize) -> (r: Option<usize>)
    requires
        max2(i as int, j as int) * (max2(i as int, j as int) + 1) <= usize::MAX,
        hess_offset(max2(i as int, j as int), min2(i as int, j as int)) <= usize::MAX,
    ensures
        r == Some(hess_offset(max2(i as int, j as int), min2(i as int, j as int)) as usize),
    decreases (if i < j { 1int } else { 0int }),
{
    if i < j {
        hess_index(j, i)
    } else {
        Some(half_product(i) + j)
    }
}

/// Size of the flattened Hessian for `n` parameters: `n(n+1)/2`.
pub fn hess_size(n: usize) -> (r: usize)
    requires
        n * (n + 1) <= usize::MAX,
    ensures
        r == triangular(n as int),
{
    half_product(n)
}


/// Computes `n(n+1)(n+2)/6` with the product formed left to right first.
fn third_product(n: usize) -> (r: usize)
    requires
        n * (n + 1) * (n + 2) <= usize::MAX,
    ensures
        r == tetrahedral(n as int),
{
    assert(n + 2 <= usize::MAX && n * (n + 1) <= usize::MAX) by (nonlinear_arith)
        requires
            n * (n + 1) * (n + 2) <= usize::MAX,
            n >= 0,
    ;
    n * (n + 1) * (n + 2) / 6
}

/// From the bound on the largest index's cubic product, the quadratic
/// product of any smaller index fits as well.
proof fn lemma_quadratic_fits(a: int, b: int)
    requires
        0 <= b <= a,
        a * (a + 1) * (a + 2) <= usize::MAX,
    ensures
        b * (b + 1) <= usize::MAX,
        a * (a + 1) <= usize::MAX,
{
    assert(b * (b + 1) <= a * (a + 1) <= a * (a + 1) * (a + 2)) by (nonlinear_arith)
        requires
            0 <= b <= a,
    ;
}

/// Third-order tensor index assuming canonical ordering (`i >= j >= k`):
/// `i(i+1)(i+2)/6 + j(j+1)/2 + k`.
pub fn tens_idx(i: usize, j: usize, k: usize) -> (r: usize)
    requires
        i * (i + 1) * (i + 2) <= usize::MAX,
        j * (j + 1) <= usize::MAX,
        tens_offset(i as int, j as int, k as int) <= usize::MAX,
    ensures
        r == tens_offset(i as int, j as int, k as int),
{
    proof {
        lemma_tetrahedral_exact(i as int);
        lemma_triangular_exact(j as int);
    }
    third_product(i) + half_product(j) + k
}

/// Linear index of the tensor entry `(i, j, k)` in canonical storage. The
/// three indices are sorted into `a >= b >= c` first, so all permutations of
/// a triple share an index. The result is always `Some`.
pub fn tens_index(i: usize, j: usize, k: usize) -> (r: Option<usize>)
    requires
        max3(i as int, j as int, k as int) * (max3(i as int, j as int, k as int) + 1) * (max3(
            i as int,
            j as int,
            k as int,
        ) + 2) <= usize::MAX,
        tens_offset(
            max3(i as int, j as int, k as int),
            mid3(i as int, j as int, k as int),
            min3(i as int, j as int, k as int),
        ) <= usize::MAX,
    ensures
        r == Some(
            tens_offset(
                max3(i as int, j as int, k as int),
                mid3(i as int, j as int, k as int),
                min3(i as int, j as int, k as int),
            ) as usize,
        ),
{
    let (mut a, mut b, mut c) = (i, j, k);
    if a < b {
        let t = a;
        a = b;
        b = t;
    }
    if b < c {
        let t = b;
        b = c;
        c = t;
    }
    if a < b {
        let t = a;
        a = b;
        b = t;
    }
    assert(a as int == max3(i as int, j as int, k as int));
    assert(c as int == min3(i as int, j as int, k as int));
    assert(b as int == mid3(i as int, j as int, k as int));
    proof {
        lemma_quadratic_fits(a as int, b as int);
        lemma_tetrahedral_exact(a as int);
        lemma_triangular_exact(b as int);
    }
    Some(third_product(a) + half_product(b) + c)
}

/// Size of the flattened third-order tensor for `n` parameters:
/// `n(n+1)(n+2)/6`.
pub fn tens_size(n: usize) -> (r: usize)
    requires
        n * (n + 1) * (n + 2) <= usize::MAX,
    ensures
        r == tetrahedral(n as int),
{
    third_product(n)
}


/// The Hessian index does not depend on the order of its two arguments.
pub proof fn lemma_hess_index_symmetric(i: int, j: int)
    ensures
        hess_offset(max2(i, j), min2(i, j)) == hess_offset(max2(j, i), min2(j, i)),
{
}

/// On canonically ordered pairs (`i >= j`), `hess_index` and `hess_idx`
/// agree.
pub proof fn lemma_hess_index_canonical(i: int, j: int)
    requires
        j <= i,
    ensures
        hess_offset(max2(i, j), min2(i, j)) == hess_offset(i, j),
{
}

/// Every canonical pair `j <= i < n` lands inside storage of size
/// `hess_size(n)`.
pub proof fn lemma_hess_offset_in_bounds(n: int, i: int, j: int)
    requires
        0 <= j <= i < n,
    ensures
        0 <= hess_offset(i, j) < triangular(n),
{
    lemma_triangular_exact(i);
    lemma_triangular_step(i);
    lemma_triangular_monotone(i + 1, n);
}

/// Distinct canonical pairs occupy distinct slots.
pub proof fn lemma_hess_offset_injective(i1: int, j1: int, i2: int, j2: int)
    requires
        0 <= j1 <= i1,
        0 <= j2 <= i2,
        hess_offset(i1, j1) == hess_offset(i2, j2),
    ensures
        i1 == i2,
        j1 == j2,
{
    if i1 < i2 {
        lemma_hess_offset_in_bounds(i2, i1, j1);
        lemma_triangular_exact(i2);
    } else if i2 < i1 {
        lemma_hess_offset_in_bounds(i1, i2, j2);
        lemma_triangular_exact(i1);
    }
}

/// Every slot of storage of size `hess_size(n)` belongs to some canonical
/// pair `j <= i < n`: the packing has no holes.
pub proof fn lemma_hess_offset_onto(n: int, idx: int)
    requires
        0 <= idx < triangular(n),
        n >= 0,
    ensures
        exists|i: int, j: int| 0 <= j <= i < n && #[trigger] hess_offset(i, j) == idx,
    decreases n,
{
    if n == 0 {
        assert(0int * (0int + 1) / 2 == 0) by (nonlinear_arith);
        assert(triangular(0) == 0);
    } else {
        lemma_triangular_step(n - 1);
        if idx < triangular(n - 1) {
            lemma_hess_offset_onto(n - 1, idx);
            let (i, j) = choose|i: int, j: int|
                0 <= j <= i < n - 1 && #[trigger] hess_offset(i, j) == idx;
            assert(hess_offset(i, j) == idx);
        } else {
            let j = idx - triangular(n - 1);
            assert(0 <= j <= n - 1);
            assert(hess_offset(n - 1, j) == idx);
        }
    }
}

/// The tensor index does not depend on the order of its three arguments:
/// all six permutations give the same canonical triple.
pub proof fn lemma_tens_index_symmetric(i: int, j: int, k: int)
    ensures
        max3(i, j, k) == max3(i, k, j) == max3(j, i, k) == max3(j, k, i) == max3(k, i, j) == max3(
            k,
            j,
            i,
        ),
        min3(i, j, k) == min3(i, k, j) == min3(j, i, k) == min3(j, k, i) == min3(k, i, j) == min3(
            k,
            j,
            i,
        ),
        mid3(i, j, k) == mid3(i, k, j) == mid3(j, i, k) == mid3(j, k, i) == mid3(k, i, j) == mid3(
            k,
            j,
            i,
        ),
        min3(i, j, k) <= mid3(i, j, k) <= max3(i, j, k),
{
}

/// On canonically ordered triples (`i >= j >= k`), `tens_index` and
/// `tens_idx` agree.
pub proof fn lemma_tens_index_canonical(i: int, j: int, k: int)
    requires
        k <= j <= i,
    ensures
        max3(i, j, k) == i,
        mid3(i, j, k) == j,
        min3(i, j, k) == k,
{
}

/// Every canonical triple `k <= j <= i < n` lands inside storage of size
/// `tens_size(n)`.
pub proof fn lemma_tens_offset_in_bounds(n: int, i: int, j: int, k: int)
    requires
        0 <= k <= j <= i < n,
    ensures
        0 <= tens_offset(i, j, k) < tetrahedral(n),
{
    lemma_tetrahedral_exact(i);
    lemma_hess_offset_in_bounds(i + 1, j, k);
    lemma_tetrahedral_step(i);
    lemma_tetrahedral_monotone(i + 1, n);
}

/// Distinct canonical triples occupy distinct slots.
pub proof fn lemma_tens_offset_injective(i1: int, j1: int, k1: int, i2: int, j2: int, k2: int)
    requires
        0 <= k1 <= j1 <= i1,
        0 <= k2 <= j2 <= i2,
        tens_offset(i1, j1, k1) == tens_offset(i2, j2, k2),
    ensures
        i1 == i2,
        j1 == j2,
        k1 == k2,
{
    lemma_tetrahedral_exact(i1);
    lemma_tetrahedral_exact(i2);
    lemma_triangular_exact(j1);
    lemma_triangular_exact(j2);
    if i1 < i2 {
        lemma_tens_offset_in_bounds(i2, i1, j1, k1);
    } else if i2 < i1 {
        lemma_tens_offset_in_bounds(i1, i2, j2, k2);
    } else {
        lemma_hess_offset_injective(j1, k1, j2, k2);
    }
}

/// Every slot of storage of size `tens_size(n)` belongs to some canonical
/// triple `k <= j <= i < n`: the packing has no holes.
pub proof fn lemma_tens_offset_onto(n: int, idx: int)
    requires
        0 <= idx < tetrahedral(n),
        n >= 0,
    ensures
        exists|i: int, j: int, k: int|
            0 <= k <= j <= i < n && #[trigger] tens_offset(i, j, k) == idx,
    decreases n,
{
    if n == 0 {
        lemma_tetrahedral_exact(0);
        assert(0int * (0 + 1) * (0 + 2) == 0);
    } else {
        lemma_tetrahedral_step(n - 1);
        if idx < tetrahedral(n - 1) {
            lemma_tens_offset_onto(n - 1, idx);
            let (i, j, k) = choose|i: int, j: int, k: int|
                0 <= k <= j <= i < n - 1 && #[trigger] tens_offset(i, j, k) == idx;
            assert(tens_offset(i, j, k) == idx);
        } else {
            let r = idx - tetrahedral(n - 1);
            lemma_hess_offset_onto(n, r);
            let (j, k) = choose|j: int, k: int| 0 <= k <= j < n && #[trigger] hess_offset(j, k) == r;
            assert(tens_offset(n - 1, j, k) == idx);
        }
    }
}


/// The canonical pair `(i, j)`, `0 <= j <= i`, whose Hessian entry is
/// stored at slot `idx`.
pub open spec fn hess_pair(idx: int) -> (int, int) {
    choose|i: int, j: int| 0 <= j <= i && #[trigger] hess_offset(i, j) == idx
}

/// The slot of a canonical pair leads back to that pair.
pub proof fn lemma_hess_pair(i: int, j: int)
    requires
        0 <= j <= i,
    ensures
        #[trigger] hess_pair(hess_offset(i, j)) == (i, j),
{
    let idx = hess_offset(i, j);
    assert(0 <= j <= i && hess_offset(i, j) == idx);
    let (i2, j2) = hess_pair(idx);
    lemma_hess_offset_injective(i, j, i2, j2);
}

/// The canonical triple `(i, j, k)`, `0 <= k <= j <= i`, whose tensor entry
/// is stored at slot `idx`.
pub open spec fn tens_triple(idx: int) -> (int, int, int) {
    choose|i: int, j: int, k: int| 0 <= k <= j <= i && #[trigger] tens_offset(i, j, k) == idx
}

/// The slot of a canonical triple leads back to that triple.
pub proof fn lemma_tens_triple(i: int, j: int, k: int)
    requires
        0 <= k <= j <= i,
    ensures
        #[trigger] tens_triple(tens_offset(i, j, k)) == (i, j, k),
{
    let idx = tens_offset(i, j, k);
    assert(0 <= k <= j <= i && tens_offset(i, j, k) == idx);
    let (i2, j2, k2) = tens_triple(idx);
    lemma_tens_offset_injective(i, j, k, i2, j2, k2);
}

// ─── Tabulated arrays ───────────────────────────────────────────────────

/// `base` with its first `n` entries replaced by `f(0), ..., f(n - 1)`.
pub open spec fn tabulate_from<S, const N: usize>(
    base: [S; N],
    f: spec_fn(int) -> S,
    n: nat,
) -> [S; N]
    decreases n,
{
    if n == 0 {
        base
    } else {
        vstd::array::spec_array_update(tabulate_from(base, f, (n - 1) as nat), n - 1, f(n - 1))
    }
}

/// The array `[f(0), ..., f(N - 1)]`.
pub open spec fn tabulate<S: Copy, const N: usize>(f: spec_fn(int) -> S) -> [S; N] {
    tabulate_from(vstd::array::spec_array_fill_for_copy_type::<S, N>(f(0)), f, N as nat)
}

proof fn lemma_tabulate_from<S, const N: usize>(base: [S; N], f: spec_fn(int) -> S, n: nat)
    requires
        n <= N,
    ensures
        forall|i: int| 0 <= i < n ==> #[trigger] tabulate_from(base, f, n)[i] == f(i),
    decreases n,
{
    if n > 0 {
        lemma_tabulate_from(base, f, (n - 1) as nat);
        let prev = tabulate_from(base, f, (n - 1) as nat);
        assert(tabulate_from(base, f, n)@ == prev@.update(n - 1, f(n - 1)));
    }
}

/// Entry `i` of `tabulate(f)` is `f(i)`.
pub proof fn lemma_tabulate<S: Copy, const N: usize>(f: spec_fn(int) -> S)
    ensures
        forall|i: int| 0 <= i < N ==> #[trigger] tabulate::<S, N>(f)[i] == f(i),
{
    lemma_tabulate_from(vstd::array::spec_array_fill_for_copy_type::<S, N>(f(0)), f, N as nat);
}

/// Arrays with equal entries are equal.
pub proof fn lemma_array_ext<S, const N: usize>(a: [S; N], b: [S; N])
    requires
        forall|i: int| 0 <= i < N ==> a[i] == b[i],
    ensures
        a == b,
{
    assert(a =~= b);
}

// ─── Jets ───────────────────────────────────────────────────────────────

/// First-order jet over `N` parameters: a value and its gradient.
#[derive(Clone, Copy)]
pub struct Jet1<const N: usize, S> {
    /// Function value `f`.
    pub value: S,
    /// First derivatives `∂f/∂p_i`.
    pub grad: [S; N],
}

impl<const N: usize, S: Scalar> Jet1<N, S> {
    /// Constant: the given value, every derivative zero.
    pub fn constant(value: S) -> (r: Self)
        ensures
            r.value == value,
            forall|i: int| 0 <= i < N ==> is_zero(#[trigger] r.grad[i]),
    {
        let zero = S::default();
        Jet1 { value, grad: [zero; N] }
    }
}

impl<const N: usize, S: Scalar + From<u8>> Jet1<N, S> {
    /// Variable seeded at `param_idx`: unit derivative there, zero elsewhere.
    pub fn variable(value: S, param_idx: usize) -> (r: Self)
        requires
            param_idx < N,
        ensures
            r.value == value,
            is_one(r.grad[param_idx as int]),
            forall|i: int| 0 <= i < N && i != param_idx ==> is_zero(#[trigger] r.grad[i]),
    {
        let mut jet = Self::constant(value);
        jet.grad[param_idx] = S::from(1u8);
        jet
    }
}

/// The index arithmetic of a Hessian over `n` parameters fits in `usize`
/// and `h` is its packed size `n(n+1)/2`.
pub open spec fn hess_dims(n: int, h: int) -> bool {
    n * (n + 1) <= usize::MAX && h == triangular(n)
}

/// The index arithmetic of a third-order tensor over `n` parameters fits
/// in `usize`, `h` is the packed Hessian size and `t` the packed tensor size
/// `n(n+1)(n+2)/6`.
pub open spec fn tens_dims(n: int, h: int, t: int) -> bool {
    n * (n + 1) * (n + 2) <= usize::MAX && h == triangular(n) && t == tetrahedral(n)
}

/// Second-order jet over `N` parameters: value, gradient and Hessian.
///
/// `H` must equal `hess_size(N)`; the Hessian is stored as its lower
/// triangle, entry `(i, j)` (`i >= j`) at `hess_idx(i, j)`.
#[derive(Clone, Copy)]
pub struct Jet2<const N: usize, const H: usize, S> {
    /// Function value `f`.
    pub value: S,
    /// First derivatives `∂f/∂p_i`.
    pub grad: [S; N],
    /// Second derivatives `∂²f/∂p_i∂p_j`, lower triangle.
    pub hess: [S; H],
}

impl<const N: usize, const H: usize, S: Scalar> Jet2<N, H, S> {
    /// Constant: the given value, every derivative zero.
    pub fn constant(value: S) -> (r: Self)
        ensures
            r.value == value,
            forall|i: int| 0 <= i < N ==> is_zero(#[trigger] r.grad[i]),
            forall|i: int| 0 <= i < H ==> is_zero(#[trigger] r.hess[i]),
    {
        let zero = S::default();
        Jet2 { value, grad: [zero; N], hess: [zero; H] }
    }
}

impl<const N: usize, const H: usize, S: Scalar + From<u8>> Jet2<N, H, S> {
    /// Variable seeded at `param_idx`: unit first derivative there, every
    /// other derivative zero.
    pub fn variable(value: S, param_idx: usize) -> (r: Self)
        requires
            param_idx < N,
        ensures
            r.value == value,
            is_one(r.grad[param_idx as int]),
            forall|i: int| 0 <= i < N && i != param_idx ==> is_zero(#[trigger] r.grad[i]),
            forall|i: int| 0 <= i < H ==> is_zero(#[trigger] r.hess[i]),
    {
        let mut jet = Self::constant(value);
        jet.grad[param_idx] = S::from(1u8);
        jet
    }
}

/// Third-order jet over `N` parameters: value, gradient, Hessian and
/// third-order tensor.
///
/// `H` must equal `hess_size(N)` and `T` must equal `tens_size(N)`; the
/// tensor is stored by canonical triples, entry `(i, j, k)` (`i >= j >= k`)
/// at `tens_idx(i, j, k)`.
#[derive(Clone, Copy)]
pub struct Jet3<const N: usize, const H: usize, const T: usize, S> {
    /// Function value `f`.
    pub value: S,
    /// First derivatives `∂f/∂p_i`.
    pub grad: [S; N],
    /// Second derivatives `∂²f/∂p_i∂p_j`, lower triangle.
    pub hess: [S; H],
    /// Third derivatives `∂³f/∂p_i∂p_j∂p_k`, canonical triples.
    pub tens: [S; T],
}

impl<const N: usize, const H: usize, const T: usize, S: Scalar> Jet3<N, H, T, S> {
    /// Constant: the given value, every derivative zero.
    pub fn constant(value: S) -> (r: Self)
        ensures
            r.value == value,
            forall|i: int| 0 <= i < N ==> is_zero(#[trigger] r.grad[i]),
            forall|i: int| 0 <= i < H ==> is_zero(#[trigger] r.hess[i]),
            forall|i: int| 0 <= i < T ==> is_zero(#[trigger] r.tens[i]),
    {
        let zero = S::default();
        Jet3 { value, grad: [zero; N], hess: [zero; H], tens: [zero; T] }
    }
}

impl<const N: usize, const H: usize, const T: usize, S: Scalar + From<u8>> Jet3<N, H, T, S> {
    /// Variable seeded at `param_idx`: unit first derivative there, every
    /// other derivative zero.
    pub fn variable(value: S, param_idx: usize) -> (r: Self)
        requires
            param_idx < N,
        ensures
            r.value == value,
            is_one(r.grad[param_idx as int]),
            forall|i: int| 0 <= i < N && i != param_idx ==> is_zero(#[trigger] r.grad[i]),
            forall|i: int| 0 <= i < H ==> is_zero(#[trigger] r.hess[i]),
            forall|i: int| 0 <= i < T ==> is_zero(#[trigger] r.tens[i]),
    {
        let mut jet = Self::constant(value);
        jet.grad[param_idx] = S::from(1u8);
        jet
    }
}

// ─── Reading derivatives ────────────────────────────────────────────────

/// Slot of the Hessian entry `(i, j)`, in either order.
pub open spec fn hess_slot(i: int, j: int) -> int {
    hess_offset(max2(i, j), min2(i, j))
}

/// Slot of the tensor entry `(i, j, k)`, in any order.
pub open spec fn tens_slot(i: int, j: int, k: int) -> int {
    tens_offset(max3(i, j, k), mid3(i, j, k), min3(i, j, k))
}

/// Slot of a pair inside packed Hessian storage over `n` parameters.
proof fn lemma_hess_slot_in_bounds(n: int, h: int, i: int, j: int)
    requires
        hess_dims(n, h),
        0 <= i < n,
        0 <= j < n,
    ensures
        0 <= hess_slot(i, j) < h,
        max2(i, j) * (max2(i, j) + 1) <= usize::MAX,
{
    lemma_hess_offset_in_bounds(n, max2(i, j), min2(i, j));
    let a = max2(i, j);
    assert(a * (a + 1) <= n * (n + 1)) by (nonlinear_arith)
        requires
            0 <= a < n,
    ;
}

/// Slot of a triple inside packed tensor storage over `n` parameters.
proof fn lemma_tens_slot_in_bounds(n: int, h: int, t: int, i: int, j: int, k: int)
    requires
        tens_dims(n, h, t),
        0 <= i < n,
        0 <= j < n,
        0 <= k < n,
    ensures
        0 <= tens_slot(i, j, k) < t,
        max3(i, j, k) * (max3(i, j, k) + 1) * (max3(i, j, k) + 2) <= usize::MAX,
        hess_dims(n, h),
{
    lemma_tens_index_symmetric(i, j, k);
    lemma_tens_offset_in_bounds(n, max3(i, j, k), mid3(i, j, k), min3(i, j, k));
    let a = max3(i, j, k);
    assert(a * (a + 1) * (a + 2) <= n * (n + 1) * (n + 2)) by (nonlinear_arith)
        requires
            0 <= a < n,
    ;
    assert(n * (n + 1) <= n * (n + 1) * (n + 2)) by (nonlinear_arith)
        requires
            0 <= n,
    ;
}

impl<const N: usize, S: Scalar> Jet1<N, S> {
    /// `∂f/∂p_i`.
    pub fn grad_at(&self, i: usize) -> (r: S)
        requires
            i < N,
        ensures
            r == self.grad[i as int],
    {
        self.grad[i]
    }

    /// The gradient as an array.
    pub fn extract_grad(&self) -> (g: [S; N])
        ensures
            g == self.grad,
    {
        self.grad
    }
}

impl<const N: usize, const H: usize, S: Scalar> Jet2<N, H, S> {
    /// `∂f/∂p_i`.
    pub fn grad_at(&self, i: usize) -> (r: S)
        requires
            i < N,
        ensures
            r == self.grad[i as int],
    {
        self.grad[i]
    }

    /// `∂²f/∂p_i∂p_j`, for the indices in either order.
    pub fn hess_at(&self, i: usize, j: usize) -> (r: S)
        requires
            hess_dims(N as int, H as int),
            i < N,
            j < N,
        ensures
            r == self.hess[hess_slot(i as int, j as int)],
    {
        proof {
            lemma_hess_slot_in_bounds(N as int, H as int, i as int, j as int);
        }
        let idx = hess_index(i, j).unwrap();
        self.hess[idx]
    }

    /// The gradient as an array.
    pub fn extract_grad(&self) -> (g: [S; N])
        ensures
            g == self.grad,
    {
        self.grad
    }

    /// The Hessian as a dense `N × N` matrix, both triangles filled from the
    /// packed lower triangle.
    pub fn extract_hess(&self) -> (h: [[S; N]; N])
        requires
            hess_dims(N as int, H as int),
        ensures
            forall|i: int, j: int|
                0 <= i < N && 0 <= j < N ==> #[trigger] h[i][j] == self.hess[hess_slot(i, j)],
            forall|i: int, j: int| 0 <= i < N && 0 <= j < N ==> #[trigger] h[i][j] == h[j][i],
    {
        let zero = S::default();
        let mut h = [[zero; N]; N];
        for i in 0..N
            invariant
                hess_dims(N as int, H as int),
                forall|ii: int, jj: int|
                    0 <= ii < i && 0 <= jj < N ==> #[trigger] h[ii][jj] == self.hess[hess_slot(ii, jj)],
        {
            for j in 0..N
                invariant
                    hess_dims(N as int, H as int),
                    i < N,
                    forall|ii: int, jj: int|
                        0 <= ii < i && 0 <= jj < N ==> #[trigger] h[ii][jj]
                            == self.hess[hess_slot(ii, jj)],
                    forall|jj: int|
                        0 <= jj < j ==> #[trigger] h[i as int][jj] == self.hess[hess_slot(
                            i as int,
                            jj,
                        )],
            {
                h[i][j] = self.hess_at(i, j);
            }
        }
        proof {
            assert forall|i: int, j: int| 0 <= i < N && 0 <= j < N implies #[trigger] h[i][j]
                == h[j][i] by {
                lemma_hess_index_symmetric(i, j);
            }
        }
        h
    }
}

impl<const N: usize, const H: usize, const T: usize, S: Scalar> Jet3<N, H, T, S> {
    /// `∂f/∂p_i`.
    pub fn grad_at(&self, i: usize) -> (r: S)
        requires
            i < N,
        ensures
            r == self.grad[i as int],
    {
        self.grad[i]
    }

    /// `∂²f/∂p_i∂p_j`, for the indices in either order.
    pub fn hess_at(&self, i: usize, j: usize) -> (r: S)
        requires
            tens_dims(N as int, H as int, T as int),
            i < N,
            j < N,
        ensures
            r == self.hess[hess_slot(i as int, j as int)],
    {
        proof {
            lemma_tens_slot_in_bounds(N as int, H as int, T as int, i as int, j as int, j as int);
            lemma_hess_slot_in_bounds(N as int, H as int, i as int, j as int);
        }
        let idx = hess_index(i, j).unwrap();
        self.hess[idx]
    }

    /// `∂³f/∂p_i∂p_j∂p_k`, for the indices in any order.
    pub fn tens_at(&self, i: usize, j: usize, k: usize) -> (r: S)
        requires
            tens_dims(N as int, H as int, T as int),
            i < N,
            j < N,
            k < N,
        ensures
            r == self.tens[tens_slot(i as int, j as int, k as int)],
    {
        proof {
            lemma_tens_slot_in_bounds(N as int, H as int, T as int, i as int, j as int, k as int);
        }
        let idx = tens_index(i, j, k).unwrap();
        self.tens[idx]
    }

    /// The gradient as an array.
    pub fn extract_grad(&self) -> (g: [S; N])
        ensures
            g == self.grad,
    {
        self.grad
    }

    /// The Hessian as a dense `N × N` matrix, both triangles filled from the
    /// packed lower triangle.
    pub fn extract_hess(&self) -> (h: [[S; N]; N])
        requires
            tens_dims(N as int, H as int, T as int),
        ensures
            forall|i: int, j: int|
                0 <= i < N && 0 <= j < N ==> #[trigger] h[i][j] == self.hess[hess_slot(i, j)],
            forall|i: int, j: int| 0 <= i < N && 0 <= j < N ==> #[trigger] h[i][j] == h[j][i],
    {
        let zero = S::default();
        let mut h = [[zero; N]; N];
        for i in 0..N
            invariant
                tens_dims(N as int, H as int, T as int),
                forall|ii: int, jj: int|
                    0 <= ii < i && 0 <= jj < N ==> #[trigger] h[ii][jj] == self.hess[hess_slot(ii, jj)],
        {
            for j in 0..N
                invariant
                    tens_dims(N as int, H as int, T as int),
                    i < N,
                    forall|ii: int, jj: int|
                        0 <= ii < i && 0 <= jj < N ==> #[trigger] h[ii][jj]
                            == self.hess[hess_slot(ii, jj)],
                    forall|jj: int|
                        0 <= jj < j ==> #[trigger] h[i as int][jj] == self.hess[hess_slot(
                            i as int,
                            jj,
                        )],
            {
                h[i][j] = self.hess_at(i, j);
            }
        }
        proof {
            assert forall|i: int, j: int| 0 <= i < N && 0 <= j < N implies #[trigger] h[i][j]
                == h[j][i] by {
                lemma_hess_index_symmetric(i, j);
            }
        }
        h
    }

    /// The third-order tensor as a dense `N × N × N` array, every
    /// permutation filled from the packed canonical entries.
    pub fn extract_tens(&self) -> (t: [[[S; N]; N]; N])
        requires
            tens_dims(N as int, H as int, T as int),
        ensures
            forall|i: int, j: int, k: int|
                0 <= i < N && 0 <= j < N && 0 <= k < N ==> #[trigger] t[i][j][k]
                    == self.tens[tens_slot(i, j, k)],
            forall|i: int, j: int, k: int|
                0 <= i < N && 0 <= j < N && 0 <= k < N ==> {
                    &&& #[trigger] t[i][j][k] == t[i][k][j]
                    &&& t[i][j][k] == t[j][i][k]
                    &&& t[i][j][k] == t[j][k][i]
                    &&& t[i][j][k] == t[k][i][j]
                    &&& t[i][j][k] == t[k][j][i]
                },
    {
        let zero = S::default();
        let mut t = [[[zero; N]; N]; N];
        for i in 0..N
            invariant
                tens_dims(N as int, H as int, T as int),
                forall|ii: int, jj: int, kk: int|
                    0 <= ii < i && 0 <= jj < N && 0 <= kk < N ==> #[trigger] t[ii][jj][kk]
                        == self.tens[tens_slot(ii, jj, kk)],
        {
            for j in 0..N
                invariant
                    tens_dims(N as int, H as int, T as int),
                    i < N,
                    forall|ii: int, jj: int, kk: int|
                        0 <= ii < i && 0 <= jj < N && 0 <= kk < N ==> #[trigger] t[ii][jj][kk]
                            == self.tens[tens_slot(ii, jj, kk)],
                    forall|jj: int, kk: int|
                        0 <= jj < j && 0 <= kk < N ==> #[trigger] t[i as int][jj][kk]
                            == self.tens[tens_slot(i as int, jj, kk)],
            {
                for k in 0..N
                    invariant
                        tens_dims(N as int, H as int, T as int),
                        i < N,
                        j < N,
                        forall|ii: int, jj: int, kk: int|
                            0 <= ii < i && 0 <= jj < N && 0 <= kk < N ==> #[trigger] t[ii][jj][kk]
                                == self.tens[tens_slot(ii, jj, kk)],
                        forall|jj: int, kk: int|
                            0 <= jj < j && 0 <= kk < N ==> #[trigger] t[i as int][jj][kk]
                                == self.tens[tens_slot(i as int, jj, kk)],
                        forall|kk: int|
                            0 <= kk < k ==> #[trigger] t[i as int][j as int][kk]
                                == self.tens[tens_slot(i as int, j as int, kk)],
                {
                    t[i][j][k] = self.tens_at(i, j, k);
                }
            }
        }
        proof {
            assert forall|i: int, j: int, k: int|
                0 <= i < N && 0 <= j < N && 0 <= k < N implies {
                &&& #[trigger] t[i][j][k] == t[i][k][j]
                &&& t[i][j][k] == t[j][i][k]
                &&& t[i][j][k] == t[j][k][i]
                &&& t[i][j][k] == t[k][i][j]
                &&& t[i][j][k] == t[k][j][i]
            } by {
                lemma_tens_index_symmetric(i, j, k);
                assert(t[i][k][j] == self.tens[tens_slot(i, k, j)]);
                assert(t[j][i][k] == self.tens[tens_slot(j, i, k)]);
                assert(t[j][k][i] == self.tens[tens_slot(j, k, i)]);
                assert(t[k][i][j] == self.tens[tens_slot(k, i, j)]);
                assert(t[k][j][i] == self.tens[tens_slot(k, j, i)]);
            }
        }
        t
    }
}

impl<const N: usize, S: Scalar> Default for Jet1<N, S> {
    /// The zero jet: zero value, every derivative zero.
    fn default() -> (r: Self)
        ensures
            is_zero(r.value),
            forall|i: int| 0 <= i < N ==> is_zero(#[trigger] r.grad[i]),
    {
        let zero = S::default();
        Jet1 { value: zero, grad: [zero; N] }
    }
}

impl<const N: usize, const H: usize, S: Scalar> Default for Jet2<N, H, S> {
    /// The zero jet: zero value, every derivative zero.
    fn default() -> (r: Self)
        ensures
            is_zero(r.value),
            forall|i: int| 0 <= i < N ==> is_zero(#[trigger] r.grad[i]),
            forall|i: int| 0 <= i < H ==> is_zero(#[trigger] r.hess[i]),
    {
        let zero = S::default();
        Jet2 { value: zero, grad: [zero; N], hess: [zero; H] }
    }
}

impl<const N: usize, const H: usize, const T: usize, S: Scalar> Default for Jet3<N, H, T, S> {
    /// The zero jet: zero value, every derivative zero.
    fn default() -> (r: Self)
        ensures
            is_zero(r.value),
            forall|i: int| 0 <= i < N ==> is_zero(#[trigger] r.grad[i]),
            forall|i: int| 0 <= i < H ==> is_zero(#[trigger] r.hess[i]),
            forall|i: int| 0 <= i < T ==> is_zero(#[trigger] r.tens[i]),
    {
        let zero = S::default();
        Jet3 { value: zero, grad: [zero; N], hess: [zero; H], tens: [zero; T] }
    }
}

/// Single-parameter first-order jet.
pub type Dual<S> = Jet1<1, S>;

/// Two-parameter second-order jet.
pub type HyperDual<S> = Jet2<2, 3, S>;

/// Two-parameter third-order jet.
pub type HyperHyperDual<S> = Jet3<2, 3, 4, S>;

} // verus!
