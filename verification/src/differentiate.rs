//! Derivatives of functions written over jets.
//!
//! Each `differentiate*` function seeds one jet per input (value `x[i]`,
//! unit derivative with respect to parameter `i`), evaluates the function
//! once on the seeded jets, and reads the value and derivatives off the
//! result. Gradients are returned as arrays; Hessians and third-order
//! tensors as dense arrays with every permutation of the indices filled
//! from the packed symmetric storage.
use crate::jets::{Jet1, Jet2, Jet3, hess_dims, hess_slot, lemma_array_ext, tens_dims, tens_slot};
use crate::scalar::{Scalar, is_one, is_zero};
use core::ops::{Div, Neg};
use vstd::prelude::*;

verus! {

/// Gradient `∇f`: `[∂f/∂p_0, ..., ∂f/∂p_{N-1}]`.
pub type Gradient<const N: usize, S> = [S; N];

/// Hessian `∇²f`: dense `N × N`, `H_ij = ∂²f/∂p_i∂p_j`, both triangles
/// filled.
pub type Hessian<const N: usize, S> = [[S; N]; N];

/// Third-order tensor: dense `N × N × N`, `T_ijk = ∂³f/∂p_i∂p_j∂p_k`, all
/// permutations filled.
pub type ThirdOrderTensor<const N: usize, S> = [[[S; N]; N]; N];

/// Selects which order of derivatives to compute at runtime.
#[derive(Clone, Copy, Debug, PartialEq, Eq, Structural)]
pub enum Order {
    First,
    Second,
    Third,
}

/// `xs` are first-order jets seeded at `x`: jet `i` has value `x[i]`, a
/// unit derivative with respect to parameter `i` and zero derivatives with
/// respect to the others.
pub open spec fn seeded1<const N: usize, S: Scalar + From<u8>>(
    x: [S; N],
    xs: [Jet1<N, S>; N],
) -> bool {
    forall|i: int|
        0 <= i < N ==> {
            &&& (#[trigger] xs[i]).value == x[i]
            &&& is_one(xs[i].grad[i])
            &&& forall|j: int| 0 <= j < N && j != i ==> is_zero(#[trigger] xs[i].grad[j])
        }
}

/// `xs` are second-order jets seeded at `x` (as for `seeded1`, with every
/// second derivative zero).
pub open spec fn seeded2<const N: usize, const H: usize, S: Scalar + From<u8>>(
    x: [S; N],
    xs: [Jet2<N, H, S>; N],
) -> bool {
    forall|i: int|
        0 <= i < N ==> {
            &&& (#[trigger] xs[i]).value == x[i]
            &&& is_one(xs[i].grad[i])
            &&& forall|j: int| 0 <= j < N && j != i ==> is_zero(#[trigger] xs[i].grad[j])
            &&& forall|j: int| 0 <= j < H ==> is_zero(#[trigger] xs[i].hess[j])
        }
}

/// `xs` are third-order jets seeded at `x` (as for `seeded1`, with every
/// second and third derivative zero).
pub open spec fn seeded3<const N: usize, const H: usize, const T: usize, S: Scalar + From<u8>>(
    x: [S; N],
    xs: [Jet3<N, H, T, S>; N],
) -> bool {
    forall|i: int|
        0 <= i < N ==> {
            &&& (#[trigger] xs[i]).value == x[i]
            &&& is_one(xs[i].grad[i])
            &&& forall|j: int| 0 <= j < N && j != i ==> is_zero(#[trigger] xs[i].grad[j])
            &&& forall|j: int| 0 <= j < H ==> is_zero(#[trigger] xs[i].hess[j])
            &&& forall|j: int| 0 <= j < T ==> is_zero(#[trigger] xs[i].tens[j])
        }
}

fn seed_jet1<const N: usize, S: Scalar + From<u8>>(x: [S; N]) -> (xs: [Jet1<N, S>; N])
    ensures
        seeded1(x, xs),
{
    let zero = S::default();
    let mut xs = [Jet1::constant(zero); N];
    for i in 0..N
        invariant
            forall|ii: int|
                0 <= ii < i ==> {
                    &&& (#[trigger] xs[ii]).value == x[ii]
                    &&& is_one(xs[ii].grad[ii])
                    &&& forall|j: int| 0 <= j < N && j != ii ==> is_zero(#[trigger] xs[ii].grad[j])
                },
    {
        xs[i] = Jet1::variable(x[i], i);
    }
    xs
}

fn seed_jet2<const N: usize, const H: usize, S: Scalar + From<u8>>(x: [S; N]) -> (xs: [Jet2<
    N,
    H,
    S,
>; N])
    ensures
        seeded2(x, xs),
{
    let zero = S::default();
    let mut xs = [Jet2::constant(zero); N];
    for i in 0..N
        invariant
            forall|ii: int|
                0 <= ii < i ==> {
                    &&& (#[trigger] xs[ii]).value == x[ii]
                    &&& is_one(xs[ii].grad[ii])
                    &&& forall|j: int| 0 <= j < N && j != ii ==> is_zero(#[trigger] xs[ii].grad[j])
                    &&& forall|j: int| 0 <= j < H ==> is_zero(#[trigger] xs[ii].hess[j])
                },
    {
        xs[i] = Jet2::variable(x[i], i);
    }
    xs
}

fn seed_jet3<const N: usize, const H: usize, const T: usize, S: Scalar + From<u8>>(x: [S; N]) -> (xs: [Jet3<
    N,
    H,
    T,
    S,
>; N])
    ensures
        seeded3(x, xs),
{
    let zero = S::default();
    let mut xs = [Jet3::constant(zero); N];
    for i in 0..N
        invariant
            forall|ii: int|
                0 <= ii < i ==> {
                    &&& (#[trigger] xs[ii]).value == x[ii]
                    &&& is_one(xs[ii].grad[ii])
                    &&& forall|j: int| 0 <= j < N && j != ii ==> is_zero(#[trigger] xs[ii].grad[j])
                    &&& forall|j: int| 0 <= j < H ==> is_zero(#[trigger] xs[ii].hess[j])
                    &&& forall|j: int| 0 <= j < T ==> is_zero(#[trigger] xs[ii].tens[j])
                },
    {
        xs[i] = Jet3::variable(x[i], i);
    }
    xs
}

/// `r` is what evaluating `f` on the first-order jets seeded at `x` reads
/// off: the value and the gradient of one possible result of `f`.
pub open spec fn differentiated1<const N: usize, S: Scalar + From<u8>, F: FnOnce(
    [Jet1<N, S>; N],
) -> Jet1<N, S>>(x: [S; N], f: F, r: (S, [S; N])) -> bool {
    exists|xs: [Jet1<N, S>; N], y: Jet1<N, S>|
        seeded1(x, xs) && call_ensures(f, (xs,), y) && r.0 == y.value && r.1 == y.grad
}

/// `r` is what evaluating `f` on the second-order jets seeded at `x` reads
/// off: value, gradient and dense Hessian of one possible result of `f`.
pub open spec fn differentiated2<const N: usize, const H: usize, S: Scalar + From<u8>, F: FnOnce(
    [Jet2<N, H, S>; N],
) -> Jet2<N, H, S>>(x: [S; N], f: F, r: (S, [S; N], [[S; N]; N])) -> bool {
    exists|xs: [Jet2<N, H, S>; N], y: Jet2<N, H, S>|
        {
            &&& seeded2(x, xs)
            &&& call_ensures(f, (xs,), y)
            &&& r.0 == y.value
            &&& r.1 == y.grad
            &&& forall|i: int, j: int|
                0 <= i < N && 0 <= j < N ==> #[trigger] r.2[i][j] == y.hess[hess_slot(i, j)]
        }
}

/// `r` is what evaluating `f` on the third-order jets seeded at `x` reads
/// off: value, gradient, dense Hessian and dense third-order tensor of one
/// possible result of `f`.
pub open spec fn differentiated3<
    const N: usize,
    const H: usize,
    const T: usize,
    S: Scalar + From<u8>,
    F: FnOnce([Jet3<N, H, T, S>; N]) -> Jet3<N, H, T, S>,
>(x: [S; N], f: F, r: (S, [S; N], [[S; N]; N], [[[S; N]; N]; N])) -> bool {
    exists|xs: [Jet3<N, H, T, S>; N], y: Jet3<N, H, T, S>|
        {
            &&& seeded3(x, xs)
            &&& call_ensures(f, (xs,), y)
            &&& r.0 == y.value
            &&& r.1 == y.grad
            &&& forall|i: int, j: int|
                0 <= i < N && 0 <= j < N ==> #[trigger] r.2[i][j] == y.hess[hess_slot(i, j)]
            &&& forall|i: int, j: int, k: int|
                0 <= i < N && 0 <= j < N && 0 <= k < N ==> #[trigger] r.3[i][j][k]
                    == y.tens[tens_slot(i, j, k)]
        }
}

// ─── Scalar: f: R^N → R ──────────────────────────────────────────────────

/// Evaluates scalar-valued `f` at `x` and returns `(value, gradient)`.
pub fn differentiate1<const N: usize, S: Scalar + From<u8>, F>(x: [S; N], f: F) -> (r: (
    S,
    [S; N],
)) where F: FnOnce([Jet1<N, S>; N]) -> Jet1<N, S>
    requires
        forall|xs: [Jet1<N, S>; N]| seeded1(x, xs) ==> call_requires(f, (xs,)),
    ensures
        differentiated1(x, f, r),
{
    let seeded = seed_jet1::<N, S>(x);
    let y = f(seeded);
    (y.value, y.extract_grad())
}

/// Evaluates scalar-valued `f` at `x` and returns
/// `(value, gradient, Hessian)`; `H` must equal `hess_size(N)`.
pub fn differentiate2<const N: usize, const H: usize, S: Scalar + From<u8>, F>(x: [S; N], f: F) -> (r: (
    S,
    [S; N],
    [[S; N]; N],
)) where F: FnOnce([Jet2<N, H, S>; N]) -> Jet2<N, H, S>
    requires
        hess_dims(N as int, H as int),
        forall|xs: [Jet2<N, H, S>; N]| seeded2(x, xs) ==> call_requires(f, (xs,)),
    ensures
        differentiated2(x, f, r),
{
    let seeded = seed_jet2::<N, H, S>(x);
    let y = f(seeded);
    (y.value, y.extract_grad(), y.extract_hess())
}

/// Evaluates scalar-valued `f` at `x` and returns
/// `(value, gradient, Hessian, third-order tensor)`; `H` must equal
/// `hess_size(N)` and `T` must equal `tens_size(N)`.
pub fn differentiate3<const N: usize, const H: usize, const T: usize, S: Scalar + From<u8>, F>(
    x: [S; N],
    f: F,
) -> (r: (S, [S; N], [[S; N]; N], [[[S; N]; N]; N])) where
    F: FnOnce([Jet3<N, H, T, S>; N]) -> Jet3<N, H, T, S>,

    requires
        tens_dims(N as int, H as int, T as int),
        forall|xs: [Jet3<N, H, T, S>; N]| seeded3(x, xs) ==> call_requires(f, (xs,)),
    ensures
        differentiated3(x, f, r),
{
    let seeded = seed_jet3::<N, H, T, S>(x);
    let y = f(seeded);
    (y.value, y.extract_grad(), y.extract_hess(), y.extract_tens())
}

// ─── Vector: f: R^N → R^M ────────────────────────────────────────────────

/// Evaluates vector-valued `f` at `x` and returns `(values, Jacobian)`,
/// `jacobian[m][i] = ∂f_m/∂p_i`.
pub fn differentiate1_vec<const N: usize, const M: usize, S: Scalar + From<u8>, F>(
    x: [S; N],
    f: F,
) -> (r: ([S; M], [[S; N]; M])) where F: FnOnce([Jet1<N, S>; N]) -> [Jet1<N, S>; M]
    requires
        forall|xs: [Jet1<N, S>; N]| seeded1(x, xs) ==> call_requires(f, (xs,)),
    ensures
        exists|xs: [Jet1<N, S>; N], ys: [Jet1<N, S>; M]|
            {
                &&& seeded1(x, xs)
                &&& call_ensures(f, (xs,), ys)
                &&& read_first(ys, r.0, r.1)
            },
{
    let seeded = seed_jet1::<N, S>(x);
    let ys = f(seeded);
    let zero = S::default();
    let mut values = [zero; M];
    let mut jacobian = [[zero; N]; M];
    for m in 0..M
        invariant
            forall|mm: int| 0 <= mm < m ==> #[trigger] values[mm] == ys[mm].value,
            forall|mm: int| 0 <= mm < m ==> #[trigger] jacobian[mm] == ys[mm].grad,
    {
        values[m] = ys[m].value;
        jacobian[m] = ys[m].extract_grad();
    }
    (values, jacobian)
}

/// Evaluates vector-valued `f` at `x` and returns
/// `(values, Jacobian, Hessians)`,
/// `hessians[m][i][j] = ∂²f_m/∂p_i∂p_j`.
pub fn differentiate2_vec<const N: usize, const H: usize, const M: usize, S: Scalar + From<u8>, F>(
    x: [S; N],
    f: F,
) -> (r: ([S; M], [[S; N]; M], [[[S; N]; N]; M])) where
    F: FnOnce([Jet2<N, H, S>; N]) -> [Jet2<N, H, S>; M],

    requires
        hess_dims(N as int, H as int),
        forall|xs: [Jet2<N, H, S>; N]| seeded2(x, xs) ==> call_requires(f, (xs,)),
    ensures
        exists|xs: [Jet2<N, H, S>; N], ys: [Jet2<N, H, S>; M]|
            {
                &&& seeded2(x, xs)
                &&& call_ensures(f, (xs,), ys)
                &&& read_second(ys, r.0, r.1, r.2)
            },
{
    let seeded = seed_jet2::<N, H, S>(x);
    let ys = f(seeded);
    let zero = S::default();
    let mut values = [zero; M];
    let mut jacobian = [[zero; N]; M];
    let mut hessians = [[[zero; N]; N]; M];
    for m in 0..M
        invariant
            hess_dims(N as int, H as int),
            forall|mm: int| 0 <= mm < m ==> #[trigger] values[mm] == ys[mm].value,
            forall|mm: int| 0 <= mm < m ==> #[trigger] jacobian[mm] == ys[mm].grad,
            forall|mm: int, i: int, j: int|
                0 <= mm < m && 0 <= i < N && 0 <= j < N ==> #[trigger] hessians[mm][i][j]
                    == ys[mm].hess[hess_slot(i, j)],
    {
        values[m] = ys[m].value;
        jacobian[m] = ys[m].extract_grad();
        hessians[m] = ys[m].extract_hess();
    }
    (values, jacobian, hessians)
}

/// Evaluates vector-valued `f` at `x` and returns
/// `(values, Jacobian, Hessians, third-order tensors)`,
/// `tensors[m][i][j][k] = ∂³f_m/∂p_i∂p_j∂p_k`.
pub fn differentiate3_vec<
    const N: usize,
    const H: usize,
    const T: usize,
    const M: usize,
    S: Scalar + From<u8>,
    F,
>(x: [S; N], f: F) -> (r: ([S; M], [[S; N]; M], [[[S; N]; N]; M], [[[[S; N]; N]; N]; M])) where
    F: FnOnce([Jet3<N, H, T, S>; N]) -> [Jet3<N, H, T, S>; M],

    requires
        tens_dims(N as int, H as int, T as int),
        forall|xs: [Jet3<N, H, T, S>; N]| seeded3(x, xs) ==> call_requires(f, (xs,)),
    ensures
        exists|xs: [Jet3<N, H, T, S>; N], ys: [Jet3<N, H, T, S>; M]|
            {
                &&& seeded3(x, xs)
                &&& call_ensures(f, (xs,), ys)
                &&& read_third(ys, r.0, r.1, r.2, r.3)
            },
{
    let seeded = seed_jet3::<N, H, T, S>(x);
    let ys = f(seeded);
    let zero = S::default();
    let mut values = [zero; M];
    let mut jacobian = [[zero; N]; M];
    let mut hessians = [[[zero; N]; N]; M];
    let mut tensors = [[[[zero; N]; N]; N]; M];
    for m in 0..M
        invariant
            tens_dims(N as int, H as int, T as int),
            forall|mm: int| 0 <= mm < m ==> #[trigger] values[mm] == ys[mm].value,
            forall|mm: int| 0 <= mm < m ==> #[trigger] jacobian[mm] == ys[mm].grad,
            forall|mm: int, i: int, j: int|
                0 <= mm < m && 0 <= i < N && 0 <= j < N ==> #[trigger] hessians[mm][i][j]
                    == ys[mm].hess[hess_slot(i, j)],
            forall|mm: int, i: int, j: int, k: int|
                0 <= mm < m && 0 <= i < N && 0 <= j < N && 0 <= k < N
                    ==> #[trigger] tensors[mm][i][j][k] == ys[mm].tens[tens_slot(i, j, k)],
    {
        values[m] = ys[m].value;
        jacobian[m] = ys[m].extract_grad();
        hessians[m] = ys[m].extract_hess();
        tensors[m] = ys[m].extract_tens();
    }
    (values, jacobian, hessians, tensors)
}

// ─── Specialized N=6 / N=9 helpers ───────────────────────────────────────

/// `differentiate2` for 6 parameters (`H = 21`).
pub fn differentiate2_6<S: Scalar + From<u8>, F>(x: [S; 6], f: F) -> (r: (S, [S; 6], [[S; 6]; 6])) where
    F: FnOnce([Jet2<6, 21, S>; 6]) -> Jet2<6, 21, S>,

    requires
        forall|xs: [Jet2<6, 21, S>; 6]| seeded2(x, xs) ==> call_requires(f, (xs,)),
    ensures
        differentiated2(x, f, r),
{
    assert(hess_dims(6, 21)) by {
        assert(6int * 7 / 2 == 21) by (nonlinear_arith);
    }
    differentiate2::<6, 21, S, F>(x, f)
}

/// `differentiate2` for 9 parameters (`H = 45`).
pub fn differentiate2_9<S: Scalar + From<u8>, F>(x: [S; 9], f: F) -> (r: (S, [S; 9], [[S; 9]; 9])) where
    F: FnOnce([Jet2<9, 45, S>; 9]) -> Jet2<9, 45, S>,

    requires
        forall|xs: [Jet2<9, 45, S>; 9]| seeded2(x, xs) ==> call_requires(f, (xs,)),
    ensures
        differentiated2(x, f, r),
{
    assert(hess_dims(9, 45)) by {
        assert(9int * 10 / 2 == 45) by (nonlinear_arith);
    }
    differentiate2::<9, 45, S, F>(x, f)
}

/// `differentiate3` for 6 parameters (`H = 21`, `T = 56`).
pub fn differentiate3_6<S: Scalar + From<u8>, F>(x: [S; 6], f: F) -> (r: (
    S,
    [S; 6],
    [[S; 6]; 6],
    [[[S; 6]; 6]; 6],
)) where F: FnOnce([Jet3<6, 21, 56, S>; 6]) -> Jet3<6, 21, 56, S>
    requires
        forall|xs: [Jet3<6, 21, 56, S>; 6]| seeded3(x, xs) ==> call_requires(f, (xs,)),
    ensures
        differentiated3(x, f, r),
{
    assert(tens_dims(6, 21, 56)) by {
        assert(6int * 7 / 2 == 21) by (nonlinear_arith);
        assert(6int * 7 * 8 / 6 == 56) by (nonlinear_arith);
    }
    differentiate3::<6, 21, 56, S, F>(x, f)
}

/// `differentiate3` for 9 parameters (`H = 45`, `T = 165`).
pub fn differentiate3_9<S: Scalar + From<u8>, F>(x: [S; 9], f: F) -> (r: (
    S,
    [S; 9],
    [[S; 9]; 9],
    [[[S; 9]; 9]; 9],
)) where F: FnOnce([Jet3<9, 45, 165, S>; 9]) -> Jet3<9, 45, 165, S>
    requires
        forall|xs: [Jet3<9, 45, 165, S>; 9]| seeded3(x, xs) ==> call_requires(f, (xs,)),
    ensures
        differentiated3(x, f, r),
{
    assert(tens_dims(9, 45, 165)) by {
        assert(9int * 10 / 2 == 45) by (nonlinear_arith);
        assert(9int * 10 * 11 / 6 == 165) by (nonlinear_arith);
    }
    differentiate3::<9, 45, 165, S, F>(x, f)
}

/// A scalar type that runtime-order differentiation evaluates functions
/// over: arithmetic with division, negation and small-integer constants.
/// Plain scalars and jets of every order are `AutoDiff`.
pub trait AutoDiff: Scalar + Neg<Output = Self> + Div<Output = Self> + From<u8> {

}

impl<T: Scalar + Neg<Output = T> + Div<Output = T> + From<u8>> AutoDiff for T {

}

/// A function `f: S^N -> S^M` written once over any `AutoDiff` type, so
/// that `differentiate_dyn` can evaluate it on jets of the order chosen at
/// run time.
pub trait AutoDiffFn<const N: usize, const M: usize> {
    /// The function's value at `xs`.
    fn eval<T: AutoDiff>(&self, xs: [T; N]) -> [T; M];
}

/// Values and derivatives of `f: S^N -> S^M` for the order chosen at run
/// time. The Hessians and tensors are boxed so that the enum stays small
/// whichever variant is returned.
#[derive(Clone, Debug)]
pub enum Derivatives<const N: usize, const M: usize, S> {
    /// Values and the Jacobian.
    First { values: [S; M], jacobian: [Gradient<N, S>; M] },
    /// Values, the Jacobian and one Hessian per output.
    Second {
        values: [S; M],
        jacobian: [Gradient<N, S>; M],
        hessians: Box<[Hessian<N, S>; M]>,
    },
    /// Values, the Jacobian, the Hessians and one third-order tensor per
    /// output.
    Third {
        values: [S; M],
        jacobian: [Gradient<N, S>; M],
        hessians: Box<[Hessian<N, S>; M]>,
        tensors: Box<[ThirdOrderTensor<N, S>; M]>,
    },
}

/// `values` and `jacobian` are read off the first-order jets `ys`.
pub open spec fn read_first<const N: usize, const M: usize, S>(
    ys: [Jet1<N, S>; M],
    values: [S; M],
    jacobian: [[S; N]; M],
) -> bool {
    &&& forall|m: int| 0 <= m < M ==> #[trigger] values[m] == ys[m].value
    &&& forall|m: int| 0 <= m < M ==> #[trigger] jacobian[m] == ys[m].grad
}

/// `values`, `jacobian` and `hessians` are read off the second-order jets
/// `ys`, every Hessian filled in both triangles from the packed storage.
pub open spec fn read_second<const N: usize, const H: usize, const M: usize, S>(
    ys: [Jet2<N, H, S>; M],
    values: [S; M],
    jacobian: [[S; N]; M],
    hessians: [[[S; N]; N]; M],
) -> bool {
    &&& forall|m: int| 0 <= m < M ==> #[trigger] values[m] == ys[m].value
    &&& forall|m: int| 0 <= m < M ==> #[trigger] jacobian[m] == ys[m].grad
    &&& forall|m: int, i: int, j: int|
        0 <= m < M && 0 <= i < N && 0 <= j < N ==> #[trigger] hessians[m][i][j]
            == ys[m].hess[hess_slot(i, j)]
}

/// `values`, `jacobian`, `hessians` and `tensors` are read off the
/// third-order jets `ys`, every permutation filled from the packed storage.
pub open spec fn read_third<const N: usize, const H: usize, const T: usize, const M: usize, S>(
    ys: [Jet3<N, H, T, S>; M],
    values: [S; M],
    jacobian: [[S; N]; M],
    hessians: [[[S; N]; N]; M],
    tensors: [[[[S; N]; N]; N]; M],
) -> bool {
    &&& forall|m: int| 0 <= m < M ==> #[trigger] values[m] == ys[m].value
    &&& forall|m: int| 0 <= m < M ==> #[trigger] jacobian[m] == ys[m].grad
    &&& forall|m: int, i: int, j: int|
        0 <= m < M && 0 <= i < N && 0 <= j < N ==> #[trigger] hessians[m][i][j]
            == ys[m].hess[hess_slot(i, j)]
    &&& forall|m: int, i: int, j: int, k: int|
        0 <= m < M && 0 <= i < N && 0 <= j < N && 0 <= k < N ==> #[trigger] tensors[m][i][j][k]
            == ys[m].tens[tens_slot(i, j, k)]
}

/// The order of derivatives that `d` holds.
pub open spec fn order_of<const N: usize, const M: usize, S>(d: Derivatives<N, M, S>) -> Order {
    match d {
        Derivatives::First { .. } => Order::First,
        Derivatives::Second { .. } => Order::Second,
        Derivatives::Third { .. } => Order::Third,
    }
}

impl<const N: usize, const M: usize, S> Derivatives<N, M, S> {
    /// The order of derivatives held.
    pub fn order(&self) -> (r: Order)
        ensures
            r == order_of(*self),
    {
        match self {
            Derivatives::First { .. } => Order::First,
            Derivatives::Second { .. } => Order::Second,
            Derivatives::Third { .. } => Order::Third,
        }
    }

    /// The function values, whatever the order.
    pub fn values(&self) -> (r: &[S; M])
        ensures
            *r == match *self {
                Derivatives::First { values, .. } => values,
                Derivatives::Second { values, .. } => values,
                Derivatives::Third { values, .. } => values,
            },
    {
        match self {
            Derivatives::First { values, .. } => values,
            Derivatives::Second { values, .. } => values,
            Derivatives::Third { values, .. } => values,
        }
    }

    /// The Jacobian, whatever the order.
    pub fn jacobian(&self) -> (r: &[Gradient<N, S>; M])
        ensures
            *r == match *self {
                Derivatives::First { jacobian, .. } => jacobian,
                Derivatives::Second { jacobian, .. } => jacobian,
                Derivatives::Third { jacobian, .. } => jacobian,
            },
    {
        match self {
            Derivatives::First { jacobian, .. } => jacobian,
            Derivatives::Second { jacobian, .. } => jacobian,
            Derivatives::Third { jacobian, .. } => jacobian,
        }
    }

    /// The Hessians when the order is second or third, else `None`.
    pub fn hessians(&self) -> (r: Option<&[Hessian<N, S>; M]>)
        ensures
            r == match *self {
                Derivatives::First { .. } => None,
                Derivatives::Second { hessians, .. } => Some(&*hessians),
                Derivatives::Third { hessians, .. } => Some(&*hessians),
            },
    {
        match self {
            Derivatives::First { .. } => None,
            Derivatives::Second { hessians, .. } => Some(&**hessians),
            Derivatives::Third { hessians, .. } => Some(&**hessians),
        }
    }

    /// The third-order tensors when the order is third, else `None`.
    pub fn tensors(&self) -> (r: Option<&[ThirdOrderTensor<N, S>; M]>)
        ensures
            r == match *self {
                Derivatives::Third { tensors, .. } => Some(&*tensors),
                _ => None,
            },
    {
        match self {
            Derivatives::Third { tensors, .. } => Some(&**tensors),
            _ => None,
        }
    }
}

/// `r` is what `differentiate_dyn` returns for `order`, `x` and `f`: the
/// derivatives of that order, read off one evaluation of `f` on jets
/// seeded at `x`.
pub open spec fn differentiated_dyn<
    const N: usize,
    const H: usize,
    const T: usize,
    const M: usize,
    S: AutoDiff,
    F: AutoDiffFn<N, M>,
>(order: Order, x: [S; N], f: &F, r: Derivatives<N, M, S>) -> bool {
    &&& order_of(r) == order
    &&& match r {
            Derivatives::First { values, jacobian } => exists|
                xs: [Jet1<N, S>; N],
                ys: [Jet1<N, S>; M],
            |
                {
                    &&& seeded1(x, xs)
                    &&& call_ensures(F::eval::<Jet1<N, S>>, (f, xs), ys)
                    &&& read_first(ys, values, jacobian)
                },
            Derivatives::Second { values, jacobian, hessians } => exists|
                xs: [Jet2<N, H, S>; N],
                ys: [Jet2<N, H, S>; M],
            |
                {
                    &&& seeded2(x, xs)
                    &&& call_ensures(F::eval::<Jet2<N, H, S>>, (f, xs), ys)
                    &&& read_second(ys, values, jacobian, *hessians)
                },
            Derivatives::Third { values, jacobian, hessians, tensors } => exists|
                xs: [Jet3<N, H, T, S>; N],
                ys: [Jet3<N, H, T, S>; M],
            |
                {
                    &&& seeded3(x, xs)
                    &&& call_ensures(F::eval::<Jet3<N, H, T, S>>, (f, xs), ys)
                    &&& read_third(ys, values, jacobian, *hessians, *tensors)
                },
        }
}

/// Runtime-dispatched differentiation: seeds first-, second- or
/// third-order jets at `x` according to `order`, evaluates `f` once on
/// them and reads the derivatives of that order off the result.
pub fn differentiate_dyn<
    const N: usize,
    const H: usize,
    const T: usize,
    const M: usize,
    S: AutoDiff,
    F: AutoDiffFn<N, M>,
>(order: Order, x: [S; N], f: &F) -> (r: Derivatives<N, M, S>)
    requires
        order == Order::Second ==> hess_dims(N as int, H as int),
        order == Order::Third ==> tens_dims(N as int, H as int, T as int),
    ensures
        differentiated_dyn::<N, H, T, M, S, F>(order, x, f, r),
{
    match order {
        Order::First => {
            let g = |xs: [Jet1<N, S>; N]| -> (ys: [Jet1<N, S>; M])
                ensures
                    call_ensures(F::eval::<Jet1<N, S>>, (f, xs), ys),
                { f.eval(xs) };
            let (values, jacobian) = differentiate1_vec::<N, M, S, _>(x, g);
            Derivatives::First { values, jacobian }
        },
        Order::Second => {
            let g = |xs: [Jet2<N, H, S>; N]| -> (ys: [Jet2<N, H, S>; M])
                ensures
                    call_ensures(F::eval::<Jet2<N, H, S>>, (f, xs), ys),
                { f.eval(xs) };
            let (values, jacobian, hessians) = differentiate2_vec::<N, H, M, S, _>(x, g);
            Derivatives::Second { values, jacobian, hessians: Box::new(hessians) }
        },
        Order::Third => {
            let g = |xs: [Jet3<N, H, T, S>; N]| -> (ys: [Jet3<N, H, T, S>; M])
                ensures
                    call_ensures(F::eval::<Jet3<N, H, T, S>>, (f, xs), ys),
                { f.eval(xs) };
            let (values, jacobian, hessians, tensors) = differentiate3_vec::<N, H, T, M, S, _>(
                x,
                g,
            );
            Derivatives::Third {
                values,
                jacobian,
                hessians: Box::new(hessians),
                tensors: Box::new(tensors),
            }
        },
    }
}

/// `f` gives one result on the first-order jets seeded at `x`, however the
/// seeds were built and however often it is called.
pub open spec fn eval_unique1<const N: usize, const M: usize, S: AutoDiff, F: AutoDiffFn<N, M>>(
    x: [S; N],
    f: &F,
) -> bool {
    forall|xs1: [Jet1<N, S>; N], xs2: [Jet1<N, S>; N], ys1: [Jet1<N, S>; M], ys2: [Jet1<N, S>; M]|
        #![trigger call_ensures(F::eval::<Jet1<N, S>>, (f, xs1), ys1), call_ensures(F::eval::<Jet1<N, S>>, (f, xs2), ys2)]
        seeded1(x, xs1) && seeded1(x, xs2) && call_ensures(F::eval::<Jet1<N, S>>, (f, xs1), ys1)
            && call_ensures(F::eval::<Jet1<N, S>>, (f, xs2), ys2) ==> ys1 == ys2
}

/// `f` gives one result on the second-order jets seeded at `x`.
pub open spec fn eval_unique2<
    const N: usize,
    const H: usize,
    const M: usize,
    S: AutoDiff,
    F: AutoDiffFn<N, M>,
>(x: [S; N], f: &F) -> bool {
    forall|
        xs1: [Jet2<N, H, S>; N],
        xs2: [Jet2<N, H, S>; N],
        ys1: [Jet2<N, H, S>; M],
        ys2: [Jet2<N, H, S>; M],
    |
        #![trigger call_ensures(F::eval::<Jet2<N, H, S>>, (f, xs1), ys1), call_ensures(F::eval::<Jet2<N, H, S>>, (f, xs2), ys2)]
        seeded2(x, xs1) && seeded2(x, xs2) && call_ensures(F::eval::<Jet2<N, H, S>>, (f, xs1), ys1)
            && call_ensures(F::eval::<Jet2<N, H, S>>, (f, xs2), ys2) ==> ys1 == ys2
}

/// `f` gives one result on the third-order jets seeded at `x`.
pub open spec fn eval_unique3<
    const N: usize,
    const H: usize,
    const T: usize,
    const M: usize,
    S: AutoDiff,
    F: AutoDiffFn<N, M>,
>(x: [S; N], f: &F) -> bool {
    forall|
        xs1: [Jet3<N, H, T, S>; N],
        xs2: [Jet3<N, H, T, S>; N],
        ys1: [Jet3<N, H, T, S>; M],
        ys2: [Jet3<N, H, T, S>; M],
    |
        #![trigger call_ensures(F::eval::<Jet3<N, H, T, S>>, (f, xs1), ys1), call_ensures(F::eval::<Jet3<N, H, T, S>>, (f, xs2), ys2)]
        seeded3(x, xs1) && seeded3(x, xs2) && call_ensures(
            F::eval::<Jet3<N, H, T, S>>,
            (f, xs1),
            ys1,
        ) && call_ensures(F::eval::<Jet3<N, H, T, S>>, (f, xs2), ys2) ==> ys1 == ys2
}

/// Arrays of arrays with equal entries are equal.
proof fn lemma_array2_ext<S, const N: usize, const M: usize>(a: [[S; N]; M], b: [[S; N]; M])
    requires
        forall|m: int, i: int| 0 <= m < M && 0 <= i < N ==> a[m][i] == b[m][i],
    ensures
        a == b,
{
    assert forall|m: int| 0 <= m < M implies a[m] == b[m] by {
        lemma_array_ext(a[m], b[m]);
    }
    lemma_array_ext(a, b);
}

/// Three-level arrays with equal entries are equal.
proof fn lemma_array3_ext<S, const N: usize, const M: usize>(a: [[[S; N]; N]; M], b: [[[S; N]; N]; M])
    requires
        forall|m: int, i: int, j: int|
            0 <= m < M && 0 <= i < N && 0 <= j < N ==> a[m][i][j] == b[m][i][j],
    ensures
        a == b,
{
    assert forall|m: int| 0 <= m < M implies a[m] == b[m] by {
        lemma_array2_ext(a[m], b[m]);
    }
    lemma_array_ext(a, b);
}

/// Four-level arrays with equal entries are equal.
proof fn lemma_array4_ext<S, const N: usize, const M: usize>(
    a: [[[[S; N]; N]; N]; M],
    b: [[[[S; N]; N]; N]; M],
)
    requires
        forall|m: int, i: int, j: int, k: int|
            0 <= m < M && 0 <= i < N && 0 <= j < N && 0 <= k < N ==> a[m][i][j][k] == b[m][i][j][k],
    ensures
        a == b,
{
    assert forall|m: int| 0 <= m < M implies a[m] == b[m] by {
        assert forall|i: int| 0 <= i < N implies a[m][i] == b[m][i] by {
            lemma_array2_ext(a[m][i], b[m][i]);
        }
        lemma_array_ext(a[m], b[m]);
    }
    lemma_array_ext(a, b);
}

/// Runtime dispatch at first order gives what `differentiate1_vec` gives
/// for a closure `g` that evaluates `f`, whenever `f` gives one result on
/// the seeded jets: `r` is a result of `differentiate1_vec(x, g)` and `d` of
/// `differentiate_dyn(Order::First, x, &f)`.
pub proof fn lemma_dyn_first_matches_vec<
    const N: usize,
    const H: usize,
    const T: usize,
    const M: usize,
    S: AutoDiff,
    F: AutoDiffFn<N, M>,
    G: FnOnce([Jet1<N, S>; N]) -> [Jet1<N, S>; M],
>(x: [S; N], f: &F, g: G, d: Derivatives<N, M, S>, r: ([S; M], [[S; N]; M]))
    requires
        eval_unique1(x, f),
        forall|xs: [Jet1<N, S>; N], ys: [Jet1<N, S>; M]|
            #[trigger] call_ensures(g, (xs,), ys) ==> call_ensures(F::eval::<Jet1<N, S>>, (f, xs), ys),
        differentiated_dyn::<N, H, T, M, S, F>(Order::First, x, f, d),
        exists|xs: [Jet1<N, S>; N], ys: [Jet1<N, S>; M]|
            seeded1(x, xs) && call_ensures(g, (xs,), ys) && read_first(ys, r.0, r.1),
    ensures
        d == (Derivatives::<N, M, S>::First { values: r.0, jacobian: r.1 }),
{
    let (xs2, ys2) = choose|xs: [Jet1<N, S>; N], ys: [Jet1<N, S>; M]|
        seeded1(x, xs) && call_ensures(g, (xs,), ys) && read_first(ys, r.0, r.1);
    match d {
        Derivatives::First { values, jacobian } => {
            let (xs1, ys1) = choose|xs: [Jet1<N, S>; N], ys: [Jet1<N, S>; M]|
                seeded1(x, xs) && call_ensures(F::eval::<Jet1<N, S>>, (f, xs), ys) && read_first(
                    ys,
                    values,
                    jacobian,
                );
            assert(call_ensures(F::eval::<Jet1<N, S>>, (f, xs2), ys2));
            assert(ys1 == ys2);
            lemma_array_ext(values, r.0);
            lemma_array_ext(jacobian, r.1);
        },
        _ => {},
    }
}

/// Runtime dispatch at second order gives what `differentiate2_vec` gives
/// for a closure `g` that evaluates `f`, whenever `f` gives one result on
/// the seeded jets.
pub proof fn lemma_dyn_second_matches_vec<
    const N: usize,
    const H: usize,
    const T: usize,
    const M: usize,
    S: AutoDiff,
    F: AutoDiffFn<N, M>,
    G: FnOnce([Jet2<N, H, S>; N]) -> [Jet2<N, H, S>; M],
>(x: [S; N], f: &F, g: G, d: Derivatives<N, M, S>, r: ([S; M], [[S; N]; M], [[[S; N]; N]; M]))
    requires
        eval_unique2::<N, H, M, S, F>(x, f),
        forall|xs: [Jet2<N, H, S>; N], ys: [Jet2<N, H, S>; M]|
            #[trigger] call_ensures(g, (xs,), ys) ==> call_ensures(F::eval::<Jet2<N, H, S>>, (f, xs), ys),
        differentiated_dyn::<N, H, T, M, S, F>(Order::Second, x, f, d),
        exists|xs: [Jet2<N, H, S>; N], ys: [Jet2<N, H, S>; M]|
            seeded2(x, xs) && call_ensures(g, (xs,), ys) && read_second(ys, r.0, r.1, r.2),
    ensures
        d == (Derivatives::<N, M, S>::Second {
            values: r.0,
            jacobian: r.1,
            hessians: Box::new(r.2),
        }),
{
    let (xs2, ys2) = choose|xs: [Jet2<N, H, S>; N], ys: [Jet2<N, H, S>; M]|
        seeded2(x, xs) && call_ensures(g, (xs,), ys) && read_second(ys, r.0, r.1, r.2);
    match d {
        Derivatives::Second { values, jacobian, hessians } => {
            let (xs1, ys1) = choose|xs: [Jet2<N, H, S>; N], ys: [Jet2<N, H, S>; M]|
                seeded2(x, xs) && call_ensures(F::eval::<Jet2<N, H, S>>, (f, xs), ys) && read_second(
                    ys,
                    values,
                    jacobian,
                    *hessians,
                );
            assert(call_ensures(F::eval::<Jet2<N, H, S>>, (f, xs2), ys2));
            assert(ys1 == ys2);
            lemma_array_ext(values, r.0);
            lemma_array_ext(jacobian, r.1);
            lemma_array3_ext(*hessians, r.2);
        },
        _ => {},
    }
}

/// Runtime dispatch at third order gives what `differentiate3_vec` gives
/// for a closure `g` that evaluates `f`, whenever `f` gives one result on
/// the seeded jets.
pub proof fn lemma_dyn_third_matches_vec<
    const N: usize,
    const H: usize,
    const T: usize,
    const M: usize,
    S: AutoDiff,
    F: AutoDiffFn<N, M>,
    G: FnOnce([Jet3<N, H, T, S>; N]) -> [Jet3<N, H, T, S>; M],
>(
    x: [S; N],
    f: &F,
    g: G,
    d: Derivatives<N, M, S>,
    r: ([S; M], [[S; N]; M], [[[S; N]; N]; M], [[[[S; N]; N]; N]; M]),
)
    requires
        eval_unique3::<N, H, T, M, S, F>(x, f),
        forall|xs: [Jet3<N, H, T, S>; N], ys: [Jet3<N, H, T, S>; M]|
            #[trigger] call_ensures(g, (xs,), ys) ==> call_ensures(
                F::eval::<Jet3<N, H, T, S>>,
                (f, xs),
                ys,
            ),
        differentiated_dyn::<N, H, T, M, S, F>(Order::Third, x, f, d),
        exists|xs: [Jet3<N, H, T, S>; N], ys: [Jet3<N, H, T, S>; M]|
            seeded3(x, xs) && call_ensures(g, (xs,), ys) && read_third(ys, r.0, r.1, r.2, r.3),
    ensures
        d == (Derivatives::<N, M, S>::Third {
            values: r.0,
            jacobian: r.1,
            hessians: Box::new(r.2),
            tensors: Box::new(r.3),
        }),
{
    let (xs2, ys2) = choose|xs: [Jet3<N, H, T, S>; N], ys: [Jet3<N, H, T, S>; M]|
        seeded3(x, xs) && call_ensures(g, (xs,), ys) && read_third(ys, r.0, r.1, r.2, r.3);
    match d {
        Derivatives::Third { values, jacobian, hessians, tensors } => {
            let (xs1, ys1) = choose|xs: [Jet3<N, H, T, S>; N], ys: [Jet3<N, H, T, S>; M]|
                seeded3(x, xs) && call_ensures(F::eval::<Jet3<N, H, T, S>>, (f, xs), ys)
                    && read_third(ys, values, jacobian, *hessians, *tensors);
            assert(call_ensures(F::eval::<Jet3<N, H, T, S>>, (f, xs2), ys2));
            assert(ys1 == ys2);
            lemma_array_ext(values, r.0);
            lemma_array_ext(jacobian, r.1);
            lemma_array3_ext(*hessians, r.2);
            lemma_array4_ext(*tensors, r.3);
        },
        _ => {},
    }
}

/// `differentiate_dyn` for 6 parameters (`H = 21`, `T = 56`).
pub fn differentiate_dyn_6<const M: usize, S: AutoDiff, F: AutoDiffFn<6, M>>(
    order: Order,
    x: [S; 6],
    f: &F,
) -> (r: Derivatives<6, M, S>)
    ensures
        differentiated_dyn::<6, 21, 56, M, S, F>(order, x, f, r),
{
    assert(tens_dims(6, 21, 56) && hess_dims(6, 21)) by {
        assert(6int * 7 / 2 == 21) by (nonlinear_arith);
        assert(6int * 7 * 8 / 6 == 56) by (nonlinear_arith);
    }
    differentiate_dyn::<6, 21, 56, M, S, F>(order, x, f)
}

/// `differentiate_dyn` for 9 parameters (`H = 45`, `T = 165`).
pub fn differentiate_dyn_9<const M: usize, S: AutoDiff, F: AutoDiffFn<9, M>>(
    order: Order,
    x: [S; 9],
    f: &F,
) -> (r: Derivatives<9, M, S>)
    ensures
        differentiated_dyn::<9, 45, 165, M, S, F>(order, x, f, r),
{
    assert(tens_dims(9, 45, 165) && hess_dims(9, 45)) by {
        assert(9int * 10 / 2 == 45) by (nonlinear_arith);
        assert(9int * 10 * 11 / 6 == 165) by (nonlinear_arith);
    }
    differentiate_dyn::<9, 45, 165, M, S, F>(order, x, f)
}

} // verus!
