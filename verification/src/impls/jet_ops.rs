//! Arithmetic on jets: sums, differences and products propagate the value
//! and every stored derivative by the rules of calculus (linearity and the
//! Leibniz product rule).
//!
//! Each operator has a model, a spec function computing the resulting jet
//! entry by entry with the scalar's specified operations. When the scalar's
//! arithmetic is exact (`exact_arith`), the operator returns its model, so
//! jets over such a scalar are themselves exact scalars.
use crate::jets::{
    Jet1,
    Jet2,
    Jet3,
    hess_dims,
    hess_idx,
    hess_offset,
    hess_pair,
    hess_size,
    lemma_array_ext,
    lemma_hess_offset_in_bounds,
    lemma_hess_offset_injective,
    lemma_hess_offset_onto,
    lemma_hess_pair,
    lemma_tabulate,
    lemma_triangular_exact,
    lemma_tens_offset_in_bounds,
    lemma_tens_offset_injective,
    lemma_tens_offset_onto,
    lemma_tens_triple,
    tabulate,
    tens_dims,
    tens_idx,
    tens_offset,
    tens_size,
    tens_triple,
};
use crate::scalar::{
    Scalar,
    is_one,
    exact_arith,
    exact_neg,
    exact_div,
    total_arith,
    total_div,
    sdiv,
    div_ok,
    total_neg,
    sadd,
    ssub,
    smul,
    sneg,
    add_ok,
    sub_ok,
    mul_ok,
    neg_ok,
};
use core::ops::{Add, Div, Mul, Neg, Sub};
use vstd::prelude::*;
use vstd::std_specs::ops::{AddSpecImpl, DivSpecImpl, MulSpecImpl, NegSpecImpl, SubSpecImpl};

verus! {

// ─── Jet1 ───────────────────────────────────────────────────────────────

/// `a + b` for first-order jets: values and gradients added entry by entry.
pub open spec fn jet1_add<const N: usize, S: Scalar>(a: Jet1<N, S>, b: Jet1<N, S>) -> Jet1<N, S> {
    Jet1 { value: sadd(a.value, b.value), grad: tabulate(|i: int| sadd(a.grad[i], b.grad[i])) }
}

/// Every addition made by `a + b` is permitted.
pub open spec fn jet1_add_ok<const N: usize, S: Scalar>(a: Jet1<N, S>, b: Jet1<N, S>) -> bool {
    &&& add_ok(a.value, b.value)
    &&& forall|i: int| 0 <= i < N ==> add_ok(#[trigger] a.grad[i], b.grad[i])
}

/// `a - b` for first-order jets: values and gradients subtracted entry by
/// entry.
pub open spec fn jet1_sub<const N: usize, S: Scalar>(a: Jet1<N, S>, b: Jet1<N, S>) -> Jet1<N, S> {
    Jet1 { value: ssub(a.value, b.value), grad: tabulate(|i: int| ssub(a.grad[i], b.grad[i])) }
}

/// Every subtraction made by `a - b` is permitted.
pub open spec fn jet1_sub_ok<const N: usize, S: Scalar>(a: Jet1<N, S>, b: Jet1<N, S>) -> bool {
    &&& sub_ok(a.value, b.value)
    &&& forall|i: int| 0 <= i < N ==> sub_ok(#[trigger] a.grad[i], b.grad[i])
}

/// First derivative of a product (product rule): `f ∂g + g ∂f`.
pub open spec fn product_grad<S: Scalar>(fv: S, fg: S, gv: S, gg: S) -> S {
    sadd(smul(fv, gg), smul(gv, fg))
}

/// Every operation of `product_grad(fv, fg, gv, gg)` is permitted.
pub open spec fn product_grad_ok<S: Scalar>(fv: S, fg: S, gv: S, gg: S) -> bool {
    mul_ok(fv, gg) && mul_ok(gv, fg) && add_ok(smul(fv, gg), smul(gv, fg))
}

/// `a * b` for first-order jets: the value is the product of the values and
/// each gradient entry follows the product rule.
pub open spec fn jet1_mul<const N: usize, S: Scalar>(a: Jet1<N, S>, b: Jet1<N, S>) -> Jet1<N, S> {
    Jet1 {
        value: smul(a.value, b.value),
        grad: tabulate(|i: int| product_grad(a.value, a.grad[i], b.value, b.grad[i])),
    }
}

/// Every operation made by `a * b` is permitted.
pub open spec fn jet1_mul_ok<const N: usize, S: Scalar>(a: Jet1<N, S>, b: Jet1<N, S>) -> bool {
    &&& mul_ok(a.value, b.value)
    &&& forall|i: int|
        0 <= i < N ==> product_grad_ok(a.value, #[trigger] a.grad[i], b.value, b.grad[i])
}

impl<const N: usize, S: Scalar> AddSpecImpl for Jet1<N, S> {
    open spec fn obeys_add_spec() -> bool {
        exact_arith::<S>()
    }

    open spec fn add_req(self, rhs: Self) -> bool {
        total_arith::<S>() || (exact_arith::<S>() && jet1_add_ok(self, rhs))
    }

    open spec fn add_spec(self, rhs: Self) -> Self {
        jet1_add(self, rhs)
    }
}

impl<const N: usize, S: Scalar> Add for Jet1<N, S> {
    type Output = Self;

    #[verifier::loop_isolation(false)]
    fn add(self, rhs: Self) -> (r: Self) {
        let zero = S::default();
        let mut result = Jet1 { value: self.value + rhs.value, grad: [zero; N] };
        for i in 0..N
            invariant
                exact_arith::<S>() ==> result.value == sadd(self.value, rhs.value),
                exact_arith::<S>() ==> forall|ii: int|
                    0 <= ii < i ==> #[trigger] result.grad[ii] == sadd(self.grad[ii], rhs.grad[ii]),
        {
            result.grad[i] = self.grad[i] + rhs.grad[i];
        }
        proof {
            if exact_arith::<S>() {
                let m = jet1_add(self, rhs);
                lemma_tabulate::<S, N>(|i: int| sadd(self.grad[i], rhs.grad[i]));
                lemma_array_ext(result.grad, m.grad);
            }
        }
        result
    }
}

impl<const N: usize, S: Scalar> SubSpecImpl for Jet1<N, S> {
    open spec fn obeys_sub_spec() -> bool {
        exact_arith::<S>()
    }

    open spec fn sub_req(self, rhs: Self) -> bool {
        total_arith::<S>() || (exact_arith::<S>() && jet1_sub_ok(self, rhs))
    }

    open spec fn sub_spec(self, rhs: Self) -> Self {
        jet1_sub(self, rhs)
    }
}

impl<const N: usize, S: Scalar> Sub for Jet1<N, S> {
    type Output = Self;

    #[verifier::loop_isolation(false)]
    fn sub(self, rhs: Self) -> (r: Self) {
        let zero = S::default();
        let mut result = Jet1 { value: self.value - rhs.value, grad: [zero; N] };
        for i in 0..N
            invariant
                exact_arith::<S>() ==> result.value == ssub(self.value, rhs.value),
                exact_arith::<S>() ==> forall|ii: int|
                    0 <= ii < i ==> #[trigger] result.grad[ii] == ssub(self.grad[ii], rhs.grad[ii]),
        {
            result.grad[i] = self.grad[i] - rhs.grad[i];
        }
        proof {
            if exact_arith::<S>() {
                let m = jet1_sub(self, rhs);
                lemma_tabulate::<S, N>(|i: int| ssub(self.grad[i], rhs.grad[i]));
                lemma_array_ext(result.grad, m.grad);
            }
        }
        result
    }
}

impl<const N: usize, S: Scalar> MulSpecImpl for Jet1<N, S> {
    open spec fn obeys_mul_spec() -> bool {
        exact_arith::<S>()
    }

    open spec fn mul_req(self, rhs: Self) -> bool {
        total_arith::<S>() || (exact_arith::<S>() && jet1_mul_ok(self, rhs))
    }

    open spec fn mul_spec(self, rhs: Self) -> Self {
        jet1_mul(self, rhs)
    }
}

impl<const N: usize, S: Scalar> Mul for Jet1<N, S> {
    type Output = Self;

    #[verifier::loop_isolation(false)]
    fn mul(self, rhs: Self) -> (r: Self) {
        let zero = S::default();
        let mut result = Jet1 { value: self.value * rhs.value, grad: [zero; N] };
        for i in 0..N
            invariant
                exact_arith::<S>() ==> result.value == smul(self.value, rhs.value),
                exact_arith::<S>() ==> forall|ii: int|
                    0 <= ii < i ==> #[trigger] result.grad[ii] == product_grad(
                        self.value,
                        self.grad[ii],
                        rhs.value,
                        rhs.grad[ii],
                    ),
        {
            assert(product_grad_ok(self.value, self.grad[i as int], rhs.value, rhs.grad[i as int])
                || total_arith::<S>());
            result.grad[i] = self.value * rhs.grad[i] + rhs.value * self.grad[i];
        }
        proof {
            if exact_arith::<S>() {
                let m = jet1_mul(self, rhs);
                lemma_tabulate::<S, N>(
                    |i: int| product_grad(self.value, self.grad[i], rhs.value, rhs.grad[i]),
                );
                lemma_array_ext(result.grad, m.grad);
            }
        }
        result
    }
}

// ─── Jet2 ───────────────────────────────────────────────────────────────

/// `a + b` for second-order jets: every entry added.
pub open spec fn jet2_add<const N: usize, const H: usize, S: Scalar>(
    a: Jet2<N, H, S>,
    b: Jet2<N, H, S>,
) -> Jet2<N, H, S> {
    Jet2 {
        value: sadd(a.value, b.value),
        grad: tabulate(|i: int| sadd(a.grad[i], b.grad[i])),
        hess: tabulate(|i: int| sadd(a.hess[i], b.hess[i])),
    }
}

/// Every addition made by `a + b` is permitted.
pub open spec fn jet2_add_ok<const N: usize, const H: usize, S: Scalar>(
    a: Jet2<N, H, S>,
    b: Jet2<N, H, S>,
) -> bool {
    &&& add_ok(a.value, b.value)
    &&& forall|i: int| 0 <= i < N ==> add_ok(#[trigger] a.grad[i], b.grad[i])
    &&& forall|i: int| 0 <= i < H ==> add_ok(#[trigger] a.hess[i], b.hess[i])
}

/// `a - b` for second-order jets: every entry subtracted.
pub open spec fn jet2_sub<const N: usize, const H: usize, S: Scalar>(
    a: Jet2<N, H, S>,
    b: Jet2<N, H, S>,
) -> Jet2<N, H, S> {
    Jet2 {
        value: ssub(a.value, b.value),
        grad: tabulate(|i: int| ssub(a.grad[i], b.grad[i])),
        hess: tabulate(|i: int| ssub(a.hess[i], b.hess[i])),
    }
}

/// Every subtraction made by `a - b` is permitted.
pub open spec fn jet2_sub_ok<const N: usize, const H: usize, S: Scalar>(
    a: Jet2<N, H, S>,
    b: Jet2<N, H, S>,
) -> bool {
    &&& sub_ok(a.value, b.value)
    &&& forall|i: int| 0 <= i < N ==> sub_ok(#[trigger] a.grad[i], b.grad[i])
    &&& forall|i: int| 0 <= i < H ==> sub_ok(#[trigger] a.hess[i], b.hess[i])
}

/// Second derivative of a product (Leibniz rule):
/// `f ∂²g + g ∂²f + ∂_i f ∂_j g + ∂_j f ∂_i g`, added left to right.
pub open spec fn product_hess<S: Scalar>(fv: S, fh: S, fgi: S, fgj: S, gv: S, gh: S, ggi: S, ggj: S) -> S {
    sadd(sadd(sadd(smul(fv, gh), smul(gv, fh)), smul(fgi, ggj)), smul(fgj, ggi))
}

/// Every operation of `product_hess(..)` is permitted.
pub open spec fn product_hess_ok<S: Scalar>(
    fv: S,
    fh: S,
    fgi: S,
    fgj: S,
    gv: S,
    gh: S,
    ggi: S,
    ggj: S,
) -> bool {
    &&& mul_ok(fv, gh)
    &&& mul_ok(gv, fh)
    &&& add_ok(smul(fv, gh), smul(gv, fh))
    &&& mul_ok(fgi, ggj)
    &&& add_ok(sadd(smul(fv, gh), smul(gv, fh)), smul(fgi, ggj))
    &&& mul_ok(fgj, ggi)
    &&& add_ok(sadd(sadd(smul(fv, gh), smul(gv, fh)), smul(fgi, ggj)), smul(fgj, ggi))
}

/// Entry `(i, j)` of the Hessian of `a * b`.
pub open spec fn jet2_mul_hess<const N: usize, const H: usize, S: Scalar>(
    a: Jet2<N, H, S>,
    b: Jet2<N, H, S>,
    i: int,
    j: int,
) -> S {
    let s = hess_offset(i, j);
    product_hess(a.value, a.hess[s], a.grad[i], a.grad[j], b.value, b.hess[s], b.grad[i], b.grad[j])
}

/// `a * b` for second-order jets: the value is the product of the values,
/// the gradient follows the product rule and each canonical Hessian entry
/// the second-order Leibniz rule.
pub open spec fn jet2_mul<const N: usize, const H: usize, S: Scalar>(
    a: Jet2<N, H, S>,
    b: Jet2<N, H, S>,
) -> Jet2<N, H, S> {
    Jet2 {
        value: smul(a.value, b.value),
        grad: tabulate(|i: int| product_grad(a.value, a.grad[i], b.value, b.grad[i])),
        hess: tabulate(|s: int| jet2_mul_hess(a, b, hess_pair(s).0, hess_pair(s).1)),
    }
}

/// Every operation made by `a * b` is permitted.
pub open spec fn jet2_mul_ok<const N: usize, const H: usize, S: Scalar>(
    a: Jet2<N, H, S>,
    b: Jet2<N, H, S>,
) -> bool {
    &&& mul_ok(a.value, b.value)
    &&& forall|i: int|
        0 <= i < N ==> product_grad_ok(a.value, #[trigger] a.grad[i], b.value, b.grad[i])
    &&& forall|i: int, j: int|
        0 <= j <= i < N ==> {
            let s = #[trigger] hess_offset(i, j);
            product_hess_ok(
                a.value,
                a.hess[s],
                a.grad[i],
                a.grad[j],
                b.value,
                b.hess[s],
                b.grad[i],
                b.grad[j],
            )
        }
}

/// The Hessian entry `(i, j)` of the model product is the Leibniz rule.
pub proof fn lemma_jet2_mul_hess<const N: usize, const H: usize, S: Scalar>(
    a: Jet2<N, H, S>,
    b: Jet2<N, H, S>,
    i: int,
    j: int,
)
    requires
        hess_dims(N as int, H as int),
        0 <= j <= i < N,
    ensures
        jet2_mul(a, b).hess[hess_offset(i, j)] == jet2_mul_hess(a, b, i, j),
{
    lemma_tabulate::<S, H>(|s: int| jet2_mul_hess(a, b, hess_pair(s).0, hess_pair(s).1));
    lemma_hess_offset_in_bounds(N as int, i, j);
    lemma_hess_pair(i, j);
}

/// Canonical pair `(i, j)` of `N` parameters: its slot is inside storage of
/// `H` entries and `hess_idx(i, j)` can compute it.
pub(crate) proof fn lemma_hess_slot(n: int, h: int, i: int, j: int)
    requires
        hess_dims(n, h),
        0 <= j <= i < n,
    ensures
        0 <= hess_offset(i, j) < h,
        i * (i + 1) <= usize::MAX,
{
    lemma_hess_offset_in_bounds(n, i, j);
    assert(i * (i + 1) <= n * (n + 1)) by (nonlinear_arith)
        requires
            0 <= i < n,
    ;
}

impl<const N: usize, const H: usize, S: Scalar> AddSpecImpl for Jet2<N, H, S> {
    open spec fn obeys_add_spec() -> bool {
        exact_arith::<S>()
    }

    open spec fn add_req(self, rhs: Self) -> bool {
        &&& hess_dims(N as int, H as int)
        &&& total_arith::<S>() || (exact_arith::<S>() && jet2_add_ok(self, rhs))
    }

    open spec fn add_spec(self, rhs: Self) -> Self {
        jet2_add(self, rhs)
    }
}

impl<const N: usize, const H: usize, S: Scalar> Add for Jet2<N, H, S> {
    type Output = Self;

    #[verifier::loop_isolation(false)]
    fn add(self, rhs: Self) -> (r: Self) {
        let zero = S::default();
        let mut result = Jet2 { value: self.value + rhs.value, grad: [zero; N], hess: [zero; H] };
        for i in 0..N
            invariant
                exact_arith::<S>() ==> result.value == sadd(self.value, rhs.value),
                exact_arith::<S>() ==> forall|ii: int|
                    0 <= ii < i ==> #[trigger] result.grad[ii] == sadd(self.grad[ii], rhs.grad[ii]),
        {
            result.grad[i] = self.grad[i] + rhs.grad[i];
        }
        let h = hess_size(N);
        for i in 0..h
            invariant
                h == H,
                exact_arith::<S>() ==> result.value == sadd(self.value, rhs.value),
                exact_arith::<S>() ==> forall|ii: int|
                    0 <= ii < N ==> #[trigger] result.grad[ii] == sadd(self.grad[ii], rhs.grad[ii]),
                exact_arith::<S>() ==> forall|ii: int|
                    0 <= ii < i ==> #[trigger] result.hess[ii] == sadd(self.hess[ii], rhs.hess[ii]),
        {
            result.hess[i] = self.hess[i] + rhs.hess[i];
        }
        proof {
            if exact_arith::<S>() {
                let m = jet2_add(self, rhs);
                lemma_tabulate::<S, N>(|i: int| sadd(self.grad[i], rhs.grad[i]));
                lemma_tabulate::<S, H>(|i: int| sadd(self.hess[i], rhs.hess[i]));
                lemma_array_ext(result.grad, m.grad);
                lemma_array_ext(result.hess, m.hess);
            }
        }
        result
    }
}

impl<const N: usize, const H: usize, S: Scalar> SubSpecImpl for Jet2<N, H, S> {
    open spec fn obeys_sub_spec() -> bool {
        exact_arith::<S>()
    }

    open spec fn sub_req(self, rhs: Self) -> bool {
        &&& hess_dims(N as int, H as int)
        &&& total_arith::<S>() || (exact_arith::<S>() && jet2_sub_ok(self, rhs))
    }

    open spec fn sub_spec(self, rhs: Self) -> Self {
        jet2_sub(self, rhs)
    }
}

impl<const N: usize, const H: usize, S: Scalar> Sub for Jet2<N, H, S> {
    type Output = Self;

    #[verifier::loop_isolation(false)]
    fn sub(self, rhs: Self) -> (r: Self) {
        let zero = S::default();
        let mut result = Jet2 { value: self.value - rhs.value, grad: [zero; N], hess: [zero; H] };
        for i in 0..N
            invariant
                exact_arith::<S>() ==> result.value == ssub(self.value, rhs.value),
                exact_arith::<S>() ==> forall|ii: int|
                    0 <= ii < i ==> #[trigger] result.grad[ii] == ssub(self.grad[ii], rhs.grad[ii]),
        {
            result.grad[i] = self.grad[i] - rhs.grad[i];
        }
        let h = hess_size(N);
        for i in 0..h
            invariant
                h == H,
                exact_arith::<S>() ==> result.value == ssub(self.value, rhs.value),
                exact_arith::<S>() ==> forall|ii: int|
                    0 <= ii < N ==> #[trigger] result.grad[ii] == ssub(self.grad[ii], rhs.grad[ii]),
                exact_arith::<S>() ==> forall|ii: int|
                    0 <= ii < i ==> #[trigger] result.hess[ii] == ssub(self.hess[ii], rhs.hess[ii]),
        {
            result.hess[i] = self.hess[i] - rhs.hess[i];
        }
        proof {
            if exact_arith::<S>() {
                let m = jet2_sub(self, rhs);
                lemma_tabulate::<S, N>(|i: int| ssub(self.grad[i], rhs.grad[i]));
                lemma_tabulate::<S, H>(|i: int| ssub(self.hess[i], rhs.hess[i]));
                lemma_array_ext(result.grad, m.grad);
                lemma_array_ext(result.hess, m.hess);
            }
        }
        result
    }
}

impl<const N: usize, const H: usize, S: Scalar> MulSpecImpl for Jet2<N, H, S> {
    open spec fn obeys_mul_spec() -> bool {
        exact_arith::<S>()
    }

    open spec fn mul_req(self, rhs: Self) -> bool {
        &&& hess_dims(N as int, H as int)
        &&& total_arith::<S>() || (exact_arith::<S>() && jet2_mul_ok(self, rhs))
    }

    open spec fn mul_spec(self, rhs: Self) -> Self {
        jet2_mul(self, rhs)
    }
}

impl<const N: usize, const H: usize, S: Scalar> Mul for Jet2<N, H, S> {
    type Output = Self;

    #[verifier::loop_isolation(false)]
    fn mul(self, rhs: Self) -> (r: Self) {
        let zero = S::default();
        let mut result = Jet2 { value: self.value * rhs.value, grad: [zero; N], hess: [zero; H] };
        for i in 0..N
            invariant
                exact_arith::<S>() ==> result.value == smul(self.value, rhs.value),
                exact_arith::<S>() ==> forall|ii: int|
                    0 <= ii < i ==> #[trigger] result.grad[ii] == product_grad(
                        self.value,
                        self.grad[ii],
                        rhs.value,
                        rhs.grad[ii],
                    ),
        {
            assert(product_grad_ok(self.value, self.grad[i as int], rhs.value, rhs.grad[i as int])
                || total_arith::<S>());
            result.grad[i] = self.value * rhs.grad[i] + rhs.value * self.grad[i];
        }
        for i in 0..N
            invariant
                exact_arith::<S>() ==> result.value == smul(self.value, rhs.value),
                exact_arith::<S>() ==> forall|ii: int|
                    0 <= ii < N ==> #[trigger] result.grad[ii] == product_grad(
                        self.value,
                        self.grad[ii],
                        rhs.value,
                        rhs.grad[ii],
                    ),
                exact_arith::<S>() ==> forall|ii: int, jj: int|
                    0 <= jj <= ii < i ==> #[trigger] result.hess[hess_offset(ii, jj)]
                        == jet2_mul_hess(self, rhs, ii, jj),
        {
            for j in 0..i + 1
                invariant
                    i < N,
                    exact_arith::<S>() ==> result.value == smul(self.value, rhs.value),
                    exact_arith::<S>() ==> forall|ii: int|
                        0 <= ii < N ==> #[trigger] result.grad[ii] == product_grad(
                            self.value,
                            self.grad[ii],
                            rhs.value,
                            rhs.grad[ii],
                        ),
                    exact_arith::<S>() ==> forall|ii: int, jj: int|
                        0 <= jj <= ii < i ==> #[trigger] result.hess[hess_offset(ii, jj)]
                            == jet2_mul_hess(self, rhs, ii, jj),
                    exact_arith::<S>() ==> forall|jj: int|
                        0 <= jj < j ==> #[trigger] result.hess[hess_offset(i as int, jj)]
                            == jet2_mul_hess(self, rhs, i as int, jj),
            {
                proof {
                    lemma_hess_slot(N as int, H as int, i as int, j as int);
                }
                let idx = hess_idx(i, j);
                assert(total_arith::<S>() || product_hess_ok(
                    self.value,
                    self.hess[idx as int],
                    self.grad[i as int],
                    self.grad[j as int],
                    rhs.value,
                    rhs.hess[idx as int],
                    rhs.grad[i as int],
                    rhs.grad[j as int],
                ));
                let ghost before = result.hess;
                result.hess[idx] = self.value * rhs.hess[idx] + rhs.value * self.hess[idx]
                    + self.grad[i] * rhs.grad[j] + self.grad[j] * rhs.grad[i];
                proof {
                    assert forall|ii: int, jj: int|
                        0 <= jj <= ii < N && (ii != i || jj != j) implies #[trigger] result.hess[hess_offset(
                        ii,
                        jj,
                    )] == before[hess_offset(ii, jj)] by {
                        lemma_hess_slot(N as int, H as int, ii, jj);
                        if hess_offset(ii, jj) == idx {
                            lemma_hess_offset_injective(ii, jj, i as int, j as int);
                        }
                    }
                }
            }
        }
        proof {
            if exact_arith::<S>() {
                let m = jet2_mul(self, rhs);
                lemma_tabulate::<S, N>(
                    |i: int| product_grad(self.value, self.grad[i], rhs.value, rhs.grad[i]),
                );
                lemma_array_ext(result.grad, m.grad);
                assert forall|s: int| 0 <= s < H implies result.hess[s] == m.hess[s] by {
                    lemma_triangular_exact(N as int);
                    lemma_hess_offset_onto(N as int, s);
                    let (i, j) = choose|i: int, j: int|
                        0 <= j <= i < N && #[trigger] hess_offset(i, j) == s;
                    lemma_jet2_mul_hess(self, rhs, i, j);
                }
                lemma_array_ext(result.hess, m.hess);
            }
        }
        result
    }
}

// ─── Jet3 ───────────────────────────────────────────────────────────────

/// `a + b` for third-order jets: every entry added.
pub open spec fn jet3_add<const N: usize, const H: usize, const T: usize, S: Scalar>(
    a: Jet3<N, H, T, S>,
    b: Jet3<N, H, T, S>,
) -> Jet3<N, H, T, S> {
    Jet3 {
        value: sadd(a.value, b.value),
        grad: tabulate(|i: int| sadd(a.grad[i], b.grad[i])),
        hess: tabulate(|i: int| sadd(a.hess[i], b.hess[i])),
        tens: tabulate(|i: int| sadd(a.tens[i], b.tens[i])),
    }
}

/// Every addition made by `a + b` is permitted.
pub open spec fn jet3_add_ok<const N: usize, const H: usize, const T: usize, S: Scalar>(
    a: Jet3<N, H, T, S>,
    b: Jet3<N, H, T, S>,
) -> bool {
    &&& add_ok(a.value, b.value)
    &&& forall|i: int| 0 <= i < N ==> add_ok(#[trigger] a.grad[i], b.grad[i])
    &&& forall|i: int| 0 <= i < H ==> add_ok(#[trigger] a.hess[i], b.hess[i])
    &&& forall|i: int| 0 <= i < T ==> add_ok(#[trigger] a.tens[i], b.tens[i])
}

/// `a - b` for third-order jets: every entry subtracted.
pub open spec fn jet3_sub<const N: usize, const H: usize, const T: usize, S: Scalar>(
    a: Jet3<N, H, T, S>,
    b: Jet3<N, H, T, S>,
) -> Jet3<N, H, T, S> {
    Jet3 {
        value: ssub(a.value, b.value),
        grad: tabulate(|i: int| ssub(a.grad[i], b.grad[i])),
        hess: tabulate(|i: int| ssub(a.hess[i], b.hess[i])),
        tens: tabulate(|i: int| ssub(a.tens[i], b.tens[i])),
    }
}

/// Every subtraction made by `a - b` is permitted.
pub open spec fn jet3_sub_ok<const N: usize, const H: usize, const T: usize, S: Scalar>(
    a: Jet3<N, H, T, S>,
    b: Jet3<N, H, T, S>,
) -> bool {
    &&& sub_ok(a.value, b.value)
    &&& forall|i: int| 0 <= i < N ==> sub_ok(#[trigger] a.grad[i], b.grad[i])
    &&& forall|i: int| 0 <= i < H ==> sub_ok(#[trigger] a.hess[i], b.hess[i])
    &&& forall|i: int| 0 <= i < T ==> sub_ok(#[trigger] a.tens[i], b.tens[i])
}

/// Entry `(i, j)` of the Hessian of `a * b` (second-order Leibniz rule).
pub open spec fn jet3_mul_hess<const N: usize, const H: usize, const T: usize, S: Scalar>(
    a: Jet3<N, H, T, S>,
    b: Jet3<N, H, T, S>,
    i: int,
    j: int,
) -> S {
    let s = hess_offset(i, j);
    product_hess(a.value, a.hess[s], a.grad[i], a.grad[j], b.value, b.hess[s], b.grad[i], b.grad[j])
}

/// The eight terms of the third-order Leibniz rule for entry `(i, j, k)`
/// of `∂³(fg)`: `f ∂³g`, `g ∂³f`, `∂_i f ∂²_jk g`, `∂_j f ∂²_ik g`,
/// `∂_k f ∂²_ij g`, `∂_i g ∂²_jk f`, `∂_j g ∂²_ik f`, `∂_k g ∂²_ij f`.
pub open spec fn jet3_mul_tens_terms<const N: usize, const H: usize, const T: usize, S: Scalar>(
    a: Jet3<N, H, T, S>,
    b: Jet3<N, H, T, S>,
    i: int,
    j: int,
    k: int,
) -> Seq<S> {
    let t = tens_offset(i, j, k);
    let hij = hess_offset(i, j);
    let hik = hess_offset(i, k);
    let hjk = hess_offset(j, k);
    seq![
        smul(a.value, b.tens[t]),
        smul(b.value, a.tens[t]),
        smul(a.grad[i], b.hess[hjk]),
        smul(a.grad[j], b.hess[hik]),
        smul(a.grad[k], b.hess[hij]),
        smul(b.grad[i], a.hess[hjk]),
        smul(b.grad[j], a.hess[hik]),
        smul(b.grad[k], a.hess[hij]),
    ]
}

/// The factors of the terms of `jet3_mul_tens_terms`, in the same order.
pub open spec fn jet3_mul_tens_factors<const N: usize, const H: usize, const T: usize, S: Scalar>(
    a: Jet3<N, H, T, S>,
    b: Jet3<N, H, T, S>,
    i: int,
    j: int,
    k: int,
) -> Seq<(S, S)> {
    let t = tens_offset(i, j, k);
    let hij = hess_offset(i, j);
    let hik = hess_offset(i, k);
    let hjk = hess_offset(j, k);
    seq![
        (a.value, b.tens[t]),
        (b.value, a.tens[t]),
        (a.grad[i], b.hess[hjk]),
        (a.grad[j], b.hess[hik]),
        (a.grad[k], b.hess[hij]),
        (b.grad[i], a.hess[hjk]),
        (b.grad[j], a.hess[hik]),
        (b.grad[k], a.hess[hij]),
    ]
}

/// `p[0] + p[1] + ... + p[n - 1]`, added left to right (`n >= 1`).
pub open spec fn sum_left<S: Scalar>(p: Seq<S>, n: nat) -> S
    decreases n,
{
    if n <= 1 {
        p[0]
    } else {
        sadd(sum_left(p, (n - 1) as nat), p[n - 1])
    }
}

/// Every addition of `sum_left(p, n)` is permitted.
pub open spec fn sum_left_ok<S: Scalar>(p: Seq<S>, n: nat) -> bool
    decreases n,
{
    if n <= 1 {
        true
    } else {
        sum_left_ok(p, (n - 1) as nat) && add_ok(sum_left(p, (n - 1) as nat), p[n - 1])
    }
}

/// Entry `(i, j, k)` of the third-order tensor of `a * b`: the eight
/// Leibniz terms added left to right.
pub open spec fn jet3_mul_tens<const N: usize, const H: usize, const T: usize, S: Scalar>(
    a: Jet3<N, H, T, S>,
    b: Jet3<N, H, T, S>,
    i: int,
    j: int,
    k: int,
) -> S {
    sum_left(jet3_mul_tens_terms(a, b, i, j, k), 8)
}

/// Every operation computing `jet3_mul_tens(a, b, i, j, k)` is permitted.
pub open spec fn jet3_mul_tens_ok<const N: usize, const H: usize, const T: usize, S: Scalar>(
    a: Jet3<N, H, T, S>,
    b: Jet3<N, H, T, S>,
    i: int,
    j: int,
    k: int,
) -> bool {
    &&& forall|m: int|
        0 <= m < 8 ==> mul_ok(
            (#[trigger] jet3_mul_tens_factors(a, b, i, j, k)[m]).0,
            jet3_mul_tens_factors(a, b, i, j, k)[m].1,
        )
    &&& sum_left_ok(jet3_mul_tens_terms(a, b, i, j, k), 8)
}

/// `a * b` for third-order jets: value, gradient and Hessian as for
/// second-order jets, and each canonical tensor entry by the third-order
/// Leibniz rule.
pub open spec fn jet3_mul<const N: usize, const H: usize, const T: usize, S: Scalar>(
    a: Jet3<N, H, T, S>,
    b: Jet3<N, H, T, S>,
) -> Jet3<N, H, T, S> {
    Jet3 {
        value: smul(a.value, b.value),
        grad: tabulate(|i: int| product_grad(a.value, a.grad[i], b.value, b.grad[i])),
        hess: tabulate(|s: int| jet3_mul_hess(a, b, hess_pair(s).0, hess_pair(s).1)),
        tens: tabulate(
            |s: int| jet3_mul_tens(a, b, tens_triple(s).0, tens_triple(s).1, tens_triple(s).2),
        ),
    }
}

/// Every operation made by `a * b` is permitted.
pub open spec fn jet3_mul_ok<const N: usize, const H: usize, const T: usize, S: Scalar>(
    a: Jet3<N, H, T, S>,
    b: Jet3<N, H, T, S>,
) -> bool {
    &&& mul_ok(a.value, b.value)
    &&& forall|i: int|
        0 <= i < N ==> product_grad_ok(a.value, #[trigger] a.grad[i], b.value, b.grad[i])
    &&& forall|i: int, j: int|
        0 <= j <= i < N ==> {
            let s = #[trigger] hess_offset(i, j);
            product_hess_ok(
                a.value,
                a.hess[s],
                a.grad[i],
                a.grad[j],
                b.value,
                b.hess[s],
                b.grad[i],
                b.grad[j],
            )
        }
    &&& forall|i: int, j: int, k: int|
        0 <= k <= j <= i < N ==> #[trigger] jet3_mul_tens_ok(a, b, i, j, k)
}

/// The Hessian entry `(i, j)` of the model product is the Leibniz rule.
pub proof fn lemma_jet3_mul_hess<const N: usize, const H: usize, const T: usize, S: Scalar>(
    a: Jet3<N, H, T, S>,
    b: Jet3<N, H, T, S>,
    i: int,
    j: int,
)
    requires
        tens_dims(N as int, H as int, T as int),
        0 <= j <= i < N,
    ensures
        jet3_mul(a, b).hess[hess_offset(i, j)] == jet3_mul_hess(a, b, i, j),
{
    lemma_tabulate::<S, H>(|s: int| jet3_mul_hess(a, b, hess_pair(s).0, hess_pair(s).1));
    lemma_hess_offset_in_bounds(N as int, i, j);
    lemma_hess_pair(i, j);
}

/// The tensor entry `(i, j, k)` of the model product is the third-order
/// Leibniz rule.
pub proof fn lemma_jet3_mul_tens<const N: usize, const H: usize, const T: usize, S: Scalar>(
    a: Jet3<N, H, T, S>,
    b: Jet3<N, H, T, S>,
    i: int,
    j: int,
    k: int,
)
    requires
        tens_dims(N as int, H as int, T as int),
        0 <= k <= j <= i < N,
    ensures
        jet3_mul(a, b).tens[tens_offset(i, j, k)] == jet3_mul_tens(a, b, i, j, k),
{
    lemma_tabulate::<S, T>(
        |s: int| jet3_mul_tens(a, b, tens_triple(s).0, tens_triple(s).1, tens_triple(s).2),
    );
    lemma_tens_offset_in_bounds(N as int, i, j, k);
    lemma_tens_triple(i, j, k);
}

/// Canonical triple `(i, j, k)` of `N` parameters: its tensor slot and the
/// Hessian slots of its pairs are inside storage, and `tens_idx` and
/// `hess_idx` can compute them.
pub(crate) proof fn lemma_tens_slot(n: int, h: int, t: int, i: int, j: int, k: int)
    requires
        tens_dims(n, h, t),
        0 <= k <= j <= i < n,
    ensures
        0 <= tens_offset(i, j, k) < t,
        0 <= hess_offset(i, j) < h,
        0 <= hess_offset(i, k) < h,
        0 <= hess_offset(j, k) < h,
        i * (i + 1) * (i + 2) <= usize::MAX,
        i * (i + 1) <= usize::MAX,
        j * (j + 1) <= usize::MAX,
        hess_dims(n, h),
{
    lemma_tens_offset_in_bounds(n, i, j, k);
    assert(n * (n + 1) <= n * (n + 1) * (n + 2)) by (nonlinear_arith)
        requires
            0 <= n,
    ;
    lemma_hess_slot(n, h, i, j);
    lemma_hess_slot(n, h, i, k);
    lemma_hess_slot(n, h, j, k);
    assert(i * (i + 1) * (i + 2) <= n * (n + 1) * (n + 2)) by (nonlinear_arith)
        requires
            0 <= i < n,
    ;
}

impl<const N: usize, const H: usize, const T: usize, S: Scalar> AddSpecImpl for Jet3<N, H, T, S> {
    open spec fn obeys_add_spec() -> bool {
        exact_arith::<S>()
    }

    open spec fn add_req(self, rhs: Self) -> bool {
        &&& tens_dims(N as int, H as int, T as int)
        &&& total_arith::<S>() || (exact_arith::<S>() && jet3_add_ok(self, rhs))
    }

    open spec fn add_spec(self, rhs: Self) -> Self {
        jet3_add(self, rhs)
    }
}

impl<const N: usize, const H: usize, const T: usize, S: Scalar> Add for Jet3<N, H, T, S> {
    type Output = Self;

    #[verifier::loop_isolation(false)]
    fn add(self, rhs: Self) -> (r: Self) {
        proof {
            lemma_tens_dims_hess(N as int, H as int, T as int);
        }
        let zero = S::default();
        let mut grad = [zero; N];
        let mut hess = [zero; H];
        let mut tens = [zero; T];
        for i in 0..N
            invariant
                exact_arith::<S>() ==> forall|ii: int|
                    0 <= ii < i ==> #[trigger] grad[ii] == sadd(self.grad[ii], rhs.grad[ii]),
        {
            grad[i] = self.grad[i] + rhs.grad[i];
        }
        let h = hess_size(N);
        for i in 0..h
            invariant
                h == H,
                exact_arith::<S>() ==> forall|ii: int|
                    0 <= ii < i ==> #[trigger] hess[ii] == sadd(self.hess[ii], rhs.hess[ii]),
        {
            hess[i] = self.hess[i] + rhs.hess[i];
        }
        let t = tens_size(N);
        for i in 0..t
            invariant
                t == T,
                exact_arith::<S>() ==> forall|ii: int|
                    0 <= ii < i ==> #[trigger] tens[ii] == sadd(self.tens[ii], rhs.tens[ii]),
        {
            tens[i] = self.tens[i] + rhs.tens[i];
        }
        let result = Jet3 { value: self.value + rhs.value, grad, hess, tens };
        proof {
            if exact_arith::<S>() {
                let m = jet3_add(self, rhs);
                lemma_tabulate::<S, N>(|i: int| sadd(self.grad[i], rhs.grad[i]));
                lemma_tabulate::<S, H>(|i: int| sadd(self.hess[i], rhs.hess[i]));
                lemma_tabulate::<S, T>(|i: int| sadd(self.tens[i], rhs.tens[i]));
                lemma_array_ext(result.grad, m.grad);
                lemma_array_ext(result.hess, m.hess);
                lemma_array_ext(result.tens, m.tens);
            }
        }
        result
    }
}

impl<const N: usize, const H: usize, const T: usize, S: Scalar> SubSpecImpl for Jet3<N, H, T, S> {
    open spec fn obeys_sub_spec() -> bool {
        exact_arith::<S>()
    }

    open spec fn sub_req(self, rhs: Self) -> bool {
        &&& tens_dims(N as int, H as int, T as int)
        &&& total_arith::<S>() || (exact_arith::<S>() && jet3_sub_ok(self, rhs))
    }

    open spec fn sub_spec(self, rhs: Self) -> Self {
        jet3_sub(self, rhs)
    }
}

impl<const N: usize, const H: usize, const T: usize, S: Scalar> Sub for Jet3<N, H, T, S> {
    type Output = Self;

    #[verifier::loop_isolation(false)]
    fn sub(self, rhs: Self) -> (r: Self) {
        proof {
            lemma_tens_dims_hess(N as int, H as int, T as int);
        }
        let zero = S::default();
        let mut grad = [zero; N];
        let mut hess = [zero; H];
        let mut tens = [zero; T];
        for i in 0..N
            invariant
                exact_arith::<S>() ==> forall|ii: int|
                    0 <= ii < i ==> #[trigger] grad[ii] == ssub(self.grad[ii], rhs.grad[ii]),
        {
            grad[i] = self.grad[i] - rhs.grad[i];
        }
        let h = hess_size(N);
        for i in 0..h
            invariant
                h == H,
                exact_arith::<S>() ==> forall|ii: int|
                    0 <= ii < i ==> #[trigger] hess[ii] == ssub(self.hess[ii], rhs.hess[ii]),
        {
            hess[i] = self.hess[i] - rhs.hess[i];
        }
        let t = tens_size(N);
        for i in 0..t
            invariant
                t == T,
                exact_arith::<S>() ==> forall|ii: int|
                    0 <= ii < i ==> #[trigger] tens[ii] == ssub(self.tens[ii], rhs.tens[ii]),
        {
            tens[i] = self.tens[i] - rhs.tens[i];
        }
        let result = Jet3 { value: self.value - rhs.value, grad, hess, tens };
        proof {
            if exact_arith::<S>() {
                let m = jet3_sub(self, rhs);
                lemma_tabulate::<S, N>(|i: int| ssub(self.grad[i], rhs.grad[i]));
                lemma_tabulate::<S, H>(|i: int| ssub(self.hess[i], rhs.hess[i]));
                lemma_tabulate::<S, T>(|i: int| ssub(self.tens[i], rhs.tens[i]));
                lemma_array_ext(result.grad, m.grad);
                lemma_array_ext(result.hess, m.hess);
                lemma_array_ext(result.tens, m.tens);
            }
        }
        result
    }
}

/// The tensor dimensions include the Hessian's.
pub(crate) proof fn lemma_tens_dims_hess(n: int, h: int, t: int)
    requires
        n >= 0,
        tens_dims(n, h, t),
    ensures
        hess_dims(n, h),
{
    assert(n * (n + 1) <= n * (n + 1) * (n + 2)) by (nonlinear_arith)
        requires
            0 <= n,
    ;
}

/// Entry `(i, j, k)` of the tensor of `a * b`, given the slots of the
/// triple and of its pairs.
fn jet3_tens_entry<const N: usize, const H: usize, const T: usize, S: Scalar>(
    a: &Jet3<N, H, T, S>,
    b: &Jet3<N, H, T, S>,
    i: usize,
    j: usize,
    k: usize,
    t_idx: usize,
    h_ij: usize,
    h_ik: usize,
    h_jk: usize,
) -> (e: S)
    requires
        i < N,
        j < N,
        k < N,
        t_idx == tens_offset(i as int, j as int, k as int),
        t_idx < T,
        h_ij == hess_offset(i as int, j as int),
        h_ik == hess_offset(i as int, k as int),
        h_jk == hess_offset(j as int, k as int),
        h_ij < H,
        h_ik < H,
        h_jk < H,
        total_arith::<S>() || (exact_arith::<S>() && jet3_mul_tens_ok(
            *a,
            *b,
            i as int,
            j as int,
            k as int,
        )),
    ensures
        exact_arith::<S>() ==> e == jet3_mul_tens(*a, *b, i as int, j as int, k as int),
{
    let ghost fs = jet3_mul_tens_factors(*a, *b, i as int, j as int, k as int);
    let ghost ts = jet3_mul_tens_terms(*a, *b, i as int, j as int, k as int);
    proof {
        reveal_with_fuel(sum_left, 8);
        reveal_with_fuel(sum_left_ok, 8);
        assert(fs[0] == (a.value, b.tens[t_idx as int]));
        assert(fs[1] == (b.value, a.tens[t_idx as int]));
        assert(fs[2] == (a.grad[i as int], b.hess[h_jk as int]));
        assert(fs[3] == (a.grad[j as int], b.hess[h_ik as int]));
        assert(fs[4] == (a.grad[k as int], b.hess[h_ij as int]));
        assert(fs[5] == (b.grad[i as int], a.hess[h_jk as int]));
        assert(fs[6] == (b.grad[j as int], a.hess[h_ik as int]));
        assert(fs[7] == (b.grad[k as int], a.hess[h_ij as int]));
    }
    a.value * b.tens[t_idx] + b.value * a.tens[t_idx] + a.grad[i] * b.hess[h_jk] + a.grad[j]
        * b.hess[h_ik] + a.grad[k] * b.hess[h_ij] + b.grad[i] * a.hess[h_jk] + b.grad[j]
        * a.hess[h_ik] + b.grad[k] * a.hess[h_ij]
}

impl<const N: usize, const H: usize, const T: usize, S: Scalar> MulSpecImpl for Jet3<N, H, T, S> {
    open spec fn obeys_mul_spec() -> bool {
        exact_arith::<S>()
    }

    open spec fn mul_req(self, rhs: Self) -> bool {
        &&& tens_dims(N as int, H as int, T as int)
        &&& total_arith::<S>() || (exact_arith::<S>() && jet3_mul_ok(self, rhs))
    }

    open spec fn mul_spec(self, rhs: Self) -> Self {
        jet3_mul(self, rhs)
    }
}

/// The gradient of `a * b` (product rule).
#[verifier::loop_isolation(false)]
fn jet3_mul_grad<const N: usize, const H: usize, const T: usize, S: Scalar>(
    a: &Jet3<N, H, T, S>,
    b: &Jet3<N, H, T, S>,
) -> (grad: [S; N])
    requires
        total_arith::<S>() || (exact_arith::<S>() && jet3_mul_ok(*a, *b)),
    ensures
        exact_arith::<S>() ==> forall|i: int|
            0 <= i < N ==> #[trigger] grad[i] == product_grad(a.value, a.grad[i], b.value, b.grad[i]),
{
    let zero = S::default();
    let mut grad = [zero; N];
    for i in 0..N
        invariant
            exact_arith::<S>() ==> forall|ii: int|
                0 <= ii < i ==> #[trigger] grad[ii] == product_grad(
                    a.value,
                    a.grad[ii],
                    b.value,
                    b.grad[ii],
                ),
    {
        assert(product_grad_ok(a.value, a.grad[i as int], b.value, b.grad[i as int])
            || total_arith::<S>());
        grad[i] = a.value * b.grad[i] + b.value * a.grad[i];
    }
    grad
}

/// The packed Hessian of `a * b` (second-order Leibniz rule).
#[verifier::loop_isolation(false)]
fn jet3_mul_hess_part<const N: usize, const H: usize, const T: usize, S: Scalar>(
    a: &Jet3<N, H, T, S>,
    b: &Jet3<N, H, T, S>,
) -> (hess: [S; H])
    requires
        hess_dims(N as int, H as int),
        total_arith::<S>() || (exact_arith::<S>() && jet3_mul_ok(*a, *b)),
    ensures
        exact_arith::<S>() ==> forall|i: int, j: int|
            0 <= j <= i < N ==> #[trigger] hess[hess_offset(i, j)] == jet3_mul_hess(*a, *b, i, j),
{
    let zero = S::default();
    let mut hess = [zero; H];
    for i in 0..N
        invariant
            exact_arith::<S>() ==> forall|ii: int, jj: int|
                0 <= jj <= ii < i ==> #[trigger] hess[hess_offset(ii, jj)] == jet3_mul_hess(
                    *a,
                    *b,
                    ii,
                    jj,
                ),
    {
        for j in 0..i + 1
            invariant
                i < N,
                exact_arith::<S>() ==> forall|ii: int, jj: int|
                    0 <= jj <= ii < i ==> #[trigger] hess[hess_offset(ii, jj)] == jet3_mul_hess(
                        *a,
                        *b,
                        ii,
                        jj,
                    ),
                exact_arith::<S>() ==> forall|jj: int|
                    0 <= jj < j ==> #[trigger] hess[hess_offset(i as int, jj)] == jet3_mul_hess(
                        *a,
                        *b,
                        i as int,
                        jj,
                    ),
        {
            proof {
                lemma_hess_slot(N as int, H as int, i as int, j as int);
            }
            let idx = hess_idx(i, j);
            assert(total_arith::<S>() || product_hess_ok(
                a.value,
                a.hess[idx as int],
                a.grad[i as int],
                a.grad[j as int],
                b.value,
                b.hess[idx as int],
                b.grad[i as int],
                b.grad[j as int],
            ));
            let ghost before = hess;
            hess[idx] = a.value * b.hess[idx] + b.value * a.hess[idx] + a.grad[i] * b.grad[j]
                + a.grad[j] * b.grad[i];
            proof {
                assert forall|ii: int, jj: int|
                    0 <= jj <= ii < N && (ii != i || jj != j) implies #[trigger] hess[hess_offset(
                    ii,
                    jj,
                )] == before[hess_offset(ii, jj)] by {
                    lemma_hess_slot(N as int, H as int, ii, jj);
                    if hess_offset(ii, jj) == idx {
                        lemma_hess_offset_injective(ii, jj, i as int, j as int);
                    }
                }
            }
        }
    }
    hess
}

/// The packed third-order tensor of `a * b` (third-order Leibniz rule).
#[verifier::loop_isolation(false)]
fn jet3_mul_tens_part<const N: usize, const H: usize, const T: usize, S: Scalar>(
    a: &Jet3<N, H, T, S>,
    b: &Jet3<N, H, T, S>,
) -> (tens: [S; T])
    requires
        tens_dims(N as int, H as int, T as int),
        total_arith::<S>() || (exact_arith::<S>() && jet3_mul_ok(*a, *b)),
    ensures
        exact_arith::<S>() ==> forall|i: int, j: int, k: int|
            0 <= k <= j <= i < N ==> #[trigger] tens[tens_offset(i, j, k)] == jet3_mul_tens(
                *a,
                *b,
                i,
                j,
                k,
            ),
{
    let zero = S::default();
    let mut tens = [zero; T];
    for i in 0..N
        invariant
            exact_arith::<S>() ==> forall|ii: int, jj: int, kk: int|
                0 <= kk <= jj <= ii < i ==> #[trigger] tens[tens_offset(ii, jj, kk)]
                    == jet3_mul_tens(*a, *b, ii, jj, kk),
    {
        for j in 0..i + 1
            invariant
                i < N,
                exact_arith::<S>() ==> forall|ii: int, jj: int, kk: int|
                    0 <= kk <= jj <= ii < i ==> #[trigger] tens[tens_offset(ii, jj, kk)]
                        == jet3_mul_tens(*a, *b, ii, jj, kk),
                exact_arith::<S>() ==> forall|jj: int, kk: int|
                    0 <= kk <= jj < j ==> #[trigger] tens[tens_offset(i as int, jj, kk)]
                        == jet3_mul_tens(*a, *b, i as int, jj, kk),
        {
            proof {
                lemma_tens_slot(N as int, H as int, T as int, i as int, j as int, 0);
            }
            let h_ij = hess_idx(i, j);
            for k in 0..j + 1
                invariant
                    j <= i < N,
                    h_ij == hess_offset(i as int, j as int),
                    exact_arith::<S>() ==> forall|ii: int, jj: int, kk: int|
                        0 <= kk <= jj <= ii < i ==> #[trigger] tens[tens_offset(ii, jj, kk)]
                            == jet3_mul_tens(*a, *b, ii, jj, kk),
                    exact_arith::<S>() ==> forall|jj: int, kk: int|
                        0 <= kk <= jj < j ==> #[trigger] tens[tens_offset(i as int, jj, kk)]
                            == jet3_mul_tens(*a, *b, i as int, jj, kk),
                    exact_arith::<S>() ==> forall|kk: int|
                        0 <= kk < k ==> #[trigger] tens[tens_offset(i as int, j as int, kk)]
                            == jet3_mul_tens(*a, *b, i as int, j as int, kk),
            {
                proof {
                    lemma_tens_slot(N as int, H as int, T as int, i as int, j as int, k as int);
                }
                let t_idx = tens_idx(i, j, k);
                let h_ik = hess_idx(i, k);
                let h_jk = hess_idx(j, k);
                assert(total_arith::<S>() || jet3_mul_tens_ok(
                    *a,
                    *b,
                    i as int,
                    j as int,
                    k as int,
                ));
                let e = jet3_tens_entry(a, b, i, j, k, t_idx, h_ij, h_ik, h_jk);
                let ghost before = tens;
                tens[t_idx] = e;
                proof {
                    assert forall|ii: int, jj: int, kk: int|
                        0 <= kk <= jj <= ii < N && (ii != i || jj != j || kk != k) implies #[trigger] tens[tens_offset(
                        ii,
                        jj,
                        kk,
                    )] == before[tens_offset(ii, jj, kk)] by {
                        lemma_tens_slot(N as int, H as int, T as int, ii, jj, kk);
                        if tens_offset(ii, jj, kk) == t_idx {
                            lemma_tens_offset_injective(ii, jj, kk, i as int, j as int, k as int);
                        }
                    }
                }
            }
        }
    }
    tens
}

/// A jet whose entries follow the product rules is the model product.
proof fn lemma_jet3_mul_model<const N: usize, const H: usize, const T: usize, S: Scalar>(
    a: Jet3<N, H, T, S>,
    b: Jet3<N, H, T, S>,
    r: Jet3<N, H, T, S>,
)
    requires
        tens_dims(N as int, H as int, T as int),
        r.value == smul(a.value, b.value),
        forall|i: int|
            0 <= i < N ==> #[trigger] r.grad[i] == product_grad(a.value, a.grad[i], b.value, b.grad[i]),
        forall|i: int, j: int|
            0 <= j <= i < N ==> #[trigger] r.hess[hess_offset(i, j)] == jet3_mul_hess(a, b, i, j),
        forall|i: int, j: int, k: int|
            0 <= k <= j <= i < N ==> #[trigger] r.tens[tens_offset(i, j, k)] == jet3_mul_tens(
                a,
                b,
                i,
                j,
                k,
            ),
    ensures
        r == jet3_mul(a, b),
{
    let m = jet3_mul(a, b);
    lemma_tabulate::<S, N>(|i: int| product_grad(a.value, a.grad[i], b.value, b.grad[i]));
    lemma_array_ext(r.grad, m.grad);
    assert forall|s: int| 0 <= s < H implies r.hess[s] == m.hess[s] by {
        lemma_triangular_exact(N as int);
        lemma_hess_offset_onto(N as int, s);
        let (i, j) = choose|i: int, j: int| 0 <= j <= i < N && #[trigger] hess_offset(i, j) == s;
        lemma_jet3_mul_hess(a, b, i, j);
    }
    lemma_array_ext(r.hess, m.hess);
    assert forall|s: int| 0 <= s < T implies r.tens[s] == m.tens[s] by {
        lemma_tens_offset_onto(N as int, s);
        let (i, j, k) = choose|i: int, j: int, k: int|
            0 <= k <= j <= i < N && #[trigger] tens_offset(i, j, k) == s;
        lemma_jet3_mul_tens(a, b, i, j, k);
    }
    lemma_array_ext(r.tens, m.tens);
}

impl<const N: usize, const H: usize, const T: usize, S: Scalar> Mul for Jet3<N, H, T, S> {
    type Output = Self;

    fn mul(self, rhs: Self) -> (r: Self) {
        proof {
            lemma_tens_dims_hess(N as int, H as int, T as int);
        }
        let grad = jet3_mul_grad(&self, &rhs);
        let hess = jet3_mul_hess_part(&self, &rhs);
        let tens = jet3_mul_tens_part(&self, &rhs);
        let result = Jet3 { value: self.value * rhs.value, grad, hess, tens };
        proof {
            if exact_arith::<S>() {
                lemma_jet3_mul_model(self, rhs, result);
            }
        }
        result
    }
}

// ─── Negation ───────────────────────────────────────────────────────────

/// `-a` for first-order jets: every entry negated.
pub open spec fn jet1_neg<const N: usize, S: Scalar + Neg<Output = S>>(a: Jet1<N, S>) -> Jet1<N, S> {
    Jet1 { value: sneg(a.value), grad: tabulate(|i: int| sneg(a.grad[i])) }
}

/// Every negation made by `-a` is permitted.
pub open spec fn jet1_neg_ok<const N: usize, S: Scalar + Neg<Output = S>>(a: Jet1<N, S>) -> bool {
    &&& neg_ok(a.value)
    &&& forall|i: int| 0 <= i < N ==> neg_ok(#[trigger] a.grad[i])
}

/// `-a` for second-order jets: every entry negated.
pub open spec fn jet2_neg<const N: usize, const H: usize, S: Scalar + Neg<Output = S>>(
    a: Jet2<N, H, S>,
) -> Jet2<N, H, S> {
    Jet2 {
        value: sneg(a.value),
        grad: tabulate(|i: int| sneg(a.grad[i])),
        hess: tabulate(|i: int| sneg(a.hess[i])),
    }
}

/// Every negation made by `-a` is permitted.
pub open spec fn jet2_neg_ok<const N: usize, const H: usize, S: Scalar + Neg<Output = S>>(
    a: Jet2<N, H, S>,
) -> bool {
    &&& neg_ok(a.value)
    &&& forall|i: int| 0 <= i < N ==> neg_ok(#[trigger] a.grad[i])
    &&& forall|i: int| 0 <= i < H ==> neg_ok(#[trigger] a.hess[i])
}

/// `-a` for third-order jets: every entry negated.
pub open spec fn jet3_neg<const N: usize, const H: usize, const T: usize, S: Scalar + Neg<
    Output = S,
>>(a: Jet3<N, H, T, S>) -> Jet3<N, H, T, S> {
    Jet3 {
        value: sneg(a.value),
        grad: tabulate(|i: int| sneg(a.grad[i])),
        hess: tabulate(|i: int| sneg(a.hess[i])),
        tens: tabulate(|i: int| sneg(a.tens[i])),
    }
}

/// Every negation made by `-a` is permitted.
pub open spec fn jet3_neg_ok<const N: usize, const H: usize, const T: usize, S: Scalar + Neg<
    Output = S,
>>(a: Jet3<N, H, T, S>) -> bool {
    &&& neg_ok(a.value)
    &&& forall|i: int| 0 <= i < N ==> neg_ok(#[trigger] a.grad[i])
    &&& forall|i: int| 0 <= i < H ==> neg_ok(#[trigger] a.hess[i])
    &&& forall|i: int| 0 <= i < T ==> neg_ok(#[trigger] a.tens[i])
}

/// Every entry of `a` negated, for arrays of any length.
fn neg_entries<const L: usize, S: Scalar + Neg<Output = S>>(a: &[S; L]) -> (r: [S; L])
    requires
        total_neg::<S>() || (exact_neg::<S>() && forall|i: int| 0 <= i < L ==> neg_ok(#[trigger] a[i])),
    ensures
        exact_neg::<S>() ==> r == tabulate::<S, L>(|i: int| sneg(a[i])),
{
    let zero = S::default();
    let mut r = [zero; L];
    for i in 0..L
        invariant
            total_neg::<S>() || (exact_neg::<S>() && forall|i: int|
                0 <= i < L ==> neg_ok(#[trigger] a[i])),
            exact_neg::<S>() ==> forall|ii: int| 0 <= ii < i ==> #[trigger] r[ii] == sneg(a[ii]),
    {
        r[i] = a[i].neg();
    }
    proof {
        if exact_neg::<S>() {
            lemma_tabulate::<S, L>(|i: int| sneg(a[i]));
            lemma_array_ext(r, tabulate::<S, L>(|i: int| sneg(a[i])));
        }
    }
    r
}

impl<const N: usize, S: Scalar + Neg<Output = S>> NegSpecImpl for Jet1<N, S> {
    open spec fn obeys_neg_spec() -> bool {
        exact_neg::<S>()
    }

    open spec fn neg_req(self) -> bool {
        total_neg::<S>() || (exact_neg::<S>() && jet1_neg_ok(self))
    }

    open spec fn neg_spec(self) -> Self {
        jet1_neg(self)
    }
}

impl<const N: usize, S: Scalar + Neg<Output = S>> Neg for Jet1<N, S> {
    type Output = Self;

    fn neg(self) -> (r: Self) {
        Jet1 { value: self.value.neg(), grad: neg_entries(&self.grad) }
    }
}

impl<const N: usize, const H: usize, S: Scalar + Neg<Output = S>> NegSpecImpl for Jet2<N, H, S> {
    open spec fn obeys_neg_spec() -> bool {
        exact_neg::<S>()
    }

    open spec fn neg_req(self) -> bool {
        total_neg::<S>() || (exact_neg::<S>() && jet2_neg_ok(self))
    }

    open spec fn neg_spec(self) -> Self {
        jet2_neg(self)
    }
}

impl<const N: usize, const H: usize, S: Scalar + Neg<Output = S>> Neg for Jet2<N, H, S> {
    type Output = Self;

    fn neg(self) -> (r: Self) {
        Jet2 { value: self.value.neg(), grad: neg_entries(&self.grad), hess: neg_entries(&self.hess) }
    }
}

impl<const N: usize, const H: usize, const T: usize, S: Scalar + Neg<Output = S>> NegSpecImpl for Jet3<
    N,
    H,
    T,
    S,
> {
    open spec fn obeys_neg_spec() -> bool {
        exact_neg::<S>()
    }

    open spec fn neg_req(self) -> bool {
        total_neg::<S>() || (exact_neg::<S>() && jet3_neg_ok(self))
    }

    open spec fn neg_spec(self) -> Self {
        jet3_neg(self)
    }
}

impl<const N: usize, const H: usize, const T: usize, S: Scalar + Neg<Output = S>> Neg for Jet3<
    N,
    H,
    T,
    S,
> {
    type Output = Self;

    fn neg(self) -> (r: Self) {
        Jet3 {
            value: self.value.neg(),
            grad: neg_entries(&self.grad),
            hess: neg_entries(&self.hess),
            tens: neg_entries(&self.tens),
        }
    }
}

// ─── Division ───────────────────────────────────────────────────────────

/// The scalar's `+ - *` and `/` compute their specifications.
pub open spec fn exact_field<S: Scalar + Div<Output = S>>() -> bool {
    exact_arith::<S>() && exact_div::<S>()
}

/// The scalar's `+ - *` and `/` may be applied to any operands.
pub open spec fn total_field<S: Scalar + Div<Output = S>>() -> bool {
    total_arith::<S>() && total_div::<S>()
}

/// First derivative of a quotient `f/g` whose value is `v`:
/// `(∂f - v ∂g) / g`.
pub open spec fn quotient_grad<S: Scalar + Div<Output = S>>(v: S, fg: S, gv: S, gg: S) -> S {
    sdiv(ssub(fg, smul(v, gg)), gv)
}

/// Every operation of `quotient_grad(v, fg, gv, gg)` is permitted.
pub open spec fn quotient_grad_ok<S: Scalar + Div<Output = S>>(v: S, fg: S, gv: S, gg: S) -> bool {
    mul_ok(v, gg) && sub_ok(fg, smul(v, gg)) && div_ok(ssub(fg, smul(v, gg)), gv)
}

/// Second derivative of a quotient `f/g` with value `v` and first
/// derivatives `qi`, `qj`:
/// `(∂²f - v ∂²g - q_i ∂_j g - q_j ∂_i g) / g`, subtracted left to right.
pub open spec fn quotient_hess<S: Scalar + Div<Output = S>>(
    v: S,
    fh: S,
    gh: S,
    qi: S,
    qj: S,
    ggi: S,
    ggj: S,
    gv: S,
) -> S {
    sdiv(ssub(ssub(ssub(fh, smul(v, gh)), smul(qi, ggj)), smul(qj, ggi)), gv)
}

/// Every operation of `quotient_hess(..)` is permitted.
pub open spec fn quotient_hess_ok<S: Scalar + Div<Output = S>>(
    v: S,
    fh: S,
    gh: S,
    qi: S,
    qj: S,
    ggi: S,
    ggj: S,
    gv: S,
) -> bool {
    &&& mul_ok(v, gh)
    &&& sub_ok(fh, smul(v, gh))
    &&& mul_ok(qi, ggj)
    &&& sub_ok(ssub(fh, smul(v, gh)), smul(qi, ggj))
    &&& mul_ok(qj, ggi)
    &&& sub_ok(ssub(ssub(fh, smul(v, gh)), smul(qi, ggj)), smul(qj, ggi))
    &&& div_ok(ssub(ssub(ssub(fh, smul(v, gh)), smul(qi, ggj)), smul(qj, ggi)), gv)
}

/// The gradient of a quotient with value `v`: `(∂f - v ∂g) / g` entry by
/// entry.
pub open spec fn quotient_grads<const N: usize, S: Scalar + Div<Output = S>>(
    v: S,
    fg: [S; N],
    gv: S,
    gg: [S; N],
) -> [S; N] {
    tabulate(|i: int| quotient_grad(v, fg[i], gv, gg[i]))
}

/// The packed Hessian of a quotient with value `v` and gradient `q`.
pub open spec fn quotient_hessian<const N: usize, const H: usize, S: Scalar + Div<Output = S>>(
    v: S,
    q: [S; N],
    fh: [S; H],
    gv: S,
    gg: [S; N],
    gh: [S; H],
) -> [S; H] {
    tabulate(
        |s: int|
            quotient_hess(
                v,
                fh[s],
                gh[s],
                q[hess_pair(s).0],
                q[hess_pair(s).1],
                gg[hess_pair(s).0],
                gg[hess_pair(s).1],
                gv,
            ),
    )
}

/// `a / b` for first-order jets: the value is the quotient of the values
/// and each gradient entry follows the quotient rule.
pub open spec fn jet1_div<const N: usize, S: Scalar + Div<Output = S>>(
    a: Jet1<N, S>,
    b: Jet1<N, S>,
) -> Jet1<N, S> {
    let v = sdiv(a.value, b.value);
    Jet1 { value: v, grad: quotient_grads(v, a.grad, b.value, b.grad) }
}

/// Every operation made by `a / b` is permitted.
pub open spec fn jet1_div_ok<const N: usize, S: Scalar + Div<Output = S>>(
    a: Jet1<N, S>,
    b: Jet1<N, S>,
) -> bool {
    let v = sdiv(a.value, b.value);
    &&& div_ok(a.value, b.value)
    &&& forall|i: int|
        0 <= i < N ==> quotient_grad_ok(v, #[trigger] a.grad[i], b.value, b.grad[i])
}

/// The quotient gradient `(∂f - v ∂g) / g`, entry by entry.
fn div_grad_part<const N: usize, S: Scalar + Div<Output = S>>(
    v: S,
    fg: &[S; N],
    gv: S,
    gg: &[S; N],
) -> (q: [S; N])
    requires
        total_field::<S>() || (exact_field::<S>() && forall|i: int|
            0 <= i < N ==> quotient_grad_ok(v, #[trigger] fg[i], gv, gg[i])),
    ensures
        exact_field::<S>() ==> q == quotient_grads(v, *fg, gv, *gg),
{
    let zero = S::default();
    let mut q = [zero; N];
    for i in 0..N
        invariant
            total_field::<S>() || (exact_field::<S>() && forall|i: int|
                0 <= i < N ==> quotient_grad_ok(v, #[trigger] fg[i], gv, gg[i])),
            exact_field::<S>() ==> forall|ii: int|
                0 <= ii < i ==> #[trigger] q[ii] == quotient_grad(v, fg[ii], gv, gg[ii]),
    {
        assert(total_field::<S>() || quotient_grad_ok(v, fg[i as int], gv, gg[i as int]));
        q[i] = (fg[i] - v * gg[i]) / gv;
    }
    proof {
        if exact_field::<S>() {
            lemma_tabulate::<S, N>(|i: int| quotient_grad(v, fg[i], gv, gg[i]));
            lemma_array_ext(q, quotient_grads(v, *fg, gv, *gg));
        }
    }
    q
}

impl<const N: usize, S: Scalar + Div<Output = S>> DivSpecImpl for Jet1<N, S> {
    open spec fn obeys_div_spec() -> bool {
        exact_field::<S>()
    }

    open spec fn div_req(self, rhs: Self) -> bool {
        total_field::<S>() || (exact_field::<S>() && jet1_div_ok(self, rhs))
    }

    open spec fn div_spec(self, rhs: Self) -> Self {
        jet1_div(self, rhs)
    }
}

impl<const N: usize, S: Scalar + Div<Output = S>> Div for Jet1<N, S> {
    type Output = Self;

    fn div(self, rhs: Self) -> (r: Self) {
        let v = self.value / rhs.value;
        let grad = div_grad_part(v, &self.grad, rhs.value, &rhs.grad);
        Jet1 { value: v, grad }
    }
}

/// The operations of every canonical entry of `quotient_hessian(..)` are
/// permitted.
pub open spec fn quotient_hessian_ok<const N: usize, const H: usize, S: Scalar + Div<Output = S>>(
    v: S,
    q: [S; N],
    fh: [S; H],
    gv: S,
    gg: [S; N],
    gh: [S; H],
) -> bool {
    forall|i: int, j: int|
        0 <= j <= i < N ==> {
            let s = #[trigger] hess_offset(i, j);
            quotient_hess_ok(v, fh[s], gh[s], q[i], q[j], gg[i], gg[j], gv)
        }
}

/// An array whose canonical entries follow `quotient_hess` is the packed
/// quotient Hessian.
proof fn lemma_quotient_hessian<const N: usize, const H: usize, S: Scalar + Div<Output = S>>(
    v: S,
    q: [S; N],
    fh: [S; H],
    gv: S,
    gg: [S; N],
    gh: [S; H],
    h: [S; H],
)
    requires
        hess_dims(N as int, H as int),
        forall|i: int, j: int|
            0 <= j <= i < N ==> #[trigger] h[hess_offset(i, j)] == quotient_hess(
                v,
                fh[hess_offset(i, j)],
                gh[hess_offset(i, j)],
                q[i],
                q[j],
                gg[i],
                gg[j],
                gv,
            ),
    ensures
        h == quotient_hessian(v, q, fh, gv, gg, gh),
{
    let m = quotient_hessian(v, q, fh, gv, gg, gh);
    lemma_tabulate::<S, H>(
        |s: int|
            quotient_hess(
                v,
                fh[s],
                gh[s],
                q[hess_pair(s).0],
                q[hess_pair(s).1],
                gg[hess_pair(s).0],
                gg[hess_pair(s).1],
                gv,
            ),
    );
    assert forall|s: int| 0 <= s < H implies h[s] == m[s] by {
        lemma_triangular_exact(N as int);
        lemma_hess_offset_onto(N as int, s);
        let (i, j) = choose|i: int, j: int| 0 <= j <= i < N && #[trigger] hess_offset(i, j) == s;
        lemma_hess_pair(i, j);
    }
    lemma_array_ext(h, m);
}

/// The packed quotient Hessian, canonical pair by canonical pair.
#[verifier::loop_isolation(false)]
fn div_hess_part<const N: usize, const H: usize, S: Scalar + Div<Output = S>>(
    v: S,
    q: &[S; N],
    fh: &[S; H],
    gv: S,
    gg: &[S; N],
    gh: &[S; H],
) -> (h: [S; H])
    requires
        hess_dims(N as int, H as int),
        total_field::<S>() || (exact_field::<S>() && quotient_hessian_ok(v, *q, *fh, gv, *gg, *gh)),
    ensures
        exact_field::<S>() ==> h == quotient_hessian(v, *q, *fh, gv, *gg, *gh),
{
    let zero = S::default();
    let mut h = [zero; H];
    for i in 0..N
        invariant
            exact_field::<S>() ==> forall|ii: int, jj: int|
                0 <= jj <= ii < i ==> #[trigger] h[hess_offset(ii, jj)] == quotient_hess(
                    v,
                    fh[hess_offset(ii, jj)],
                    gh[hess_offset(ii, jj)],
                    q[ii],
                    q[jj],
                    gg[ii],
                    gg[jj],
                    gv,
                ),
    {
        for j in 0..i + 1
            invariant
                i < N,
                exact_field::<S>() ==> forall|ii: int, jj: int|
                    0 <= jj <= ii < i ==> #[trigger] h[hess_offset(ii, jj)] == quotient_hess(
                        v,
                        fh[hess_offset(ii, jj)],
                        gh[hess_offset(ii, jj)],
                        q[ii],
                        q[jj],
                        gg[ii],
                        gg[jj],
                        gv,
                    ),
                exact_field::<S>() ==> forall|jj: int|
                    0 <= jj < j ==> #[trigger] h[hess_offset(i as int, jj)] == quotient_hess(
                        v,
                        fh[hess_offset(i as int, jj)],
                        gh[hess_offset(i as int, jj)],
                        q[i as int],
                        q[jj],
                        gg[i as int],
                        gg[jj],
                        gv,
                    ),
        {
            proof {
                lemma_hess_slot(N as int, H as int, i as int, j as int);
            }
            let idx = hess_idx(i, j);
            assert(total_field::<S>() || quotient_hess_ok(
                v,
                fh[idx as int],
                gh[idx as int],
                q[i as int],
                q[j as int],
                gg[i as int],
                gg[j as int],
                gv,
            ));
            let ghost before = h;
            h[idx] = (fh[idx] - v * gh[idx] - q[i] * gg[j] - q[j] * gg[i]) / gv;
            proof {
                assert forall|ii: int, jj: int|
                    0 <= jj <= ii < N && (ii != i || jj != j) implies #[trigger] h[hess_offset(
                    ii,
                    jj,
                )] == before[hess_offset(ii, jj)] by {
                    lemma_hess_slot(N as int, H as int, ii, jj);
                    if hess_offset(ii, jj) == idx {
                        lemma_hess_offset_injective(ii, jj, i as int, j as int);
                    }
                }
            }
        }
    }
    proof {
        if exact_field::<S>() {
            lemma_quotient_hessian(v, *q, *fh, gv, *gg, *gh, h);
        }
    }
    h
}

/// `a / b` for second-order jets: value and gradient as for first-order
/// jets, and each canonical Hessian entry by the second-order quotient rule
/// (which uses the quotient's own gradient).
pub open spec fn jet2_div<const N: usize, const H: usize, S: Scalar + Div<Output = S>>(
    a: Jet2<N, H, S>,
    b: Jet2<N, H, S>,
) -> Jet2<N, H, S> {
    let v = sdiv(a.value, b.value);
    let q = quotient_grads(v, a.grad, b.value, b.grad);
    Jet2 { value: v, grad: q, hess: quotient_hessian(v, q, a.hess, b.value, b.grad, b.hess) }
}

/// Every operation made by `a / b` is permitted.
pub open spec fn jet2_div_ok<const N: usize, const H: usize, S: Scalar + Div<Output = S>>(
    a: Jet2<N, H, S>,
    b: Jet2<N, H, S>,
) -> bool {
    let v = sdiv(a.value, b.value);
    let q = quotient_grads(v, a.grad, b.value, b.grad);
    &&& div_ok(a.value, b.value)
    &&& forall|i: int|
        0 <= i < N ==> quotient_grad_ok(v, #[trigger] a.grad[i], b.value, b.grad[i])
    &&& quotient_hessian_ok(v, q, a.hess, b.value, b.grad, b.hess)
}

impl<const N: usize, const H: usize, S: Scalar + Div<Output = S>> DivSpecImpl for Jet2<N, H, S> {
    open spec fn obeys_div_spec() -> bool {
        exact_field::<S>()
    }

    open spec fn div_req(self, rhs: Self) -> bool {
        &&& hess_dims(N as int, H as int)
        &&& total_field::<S>() || (exact_field::<S>() && jet2_div_ok(self, rhs))
    }

    open spec fn div_spec(self, rhs: Self) -> Self {
        jet2_div(self, rhs)
    }
}

impl<const N: usize, const H: usize, S: Scalar + Div<Output = S>> Div for Jet2<N, H, S> {
    type Output = Self;

    fn div(self, rhs: Self) -> (r: Self) {
        let v = self.value / rhs.value;
        let grad = div_grad_part(v, &self.grad, rhs.value, &rhs.grad);
        let hess = div_hess_part(v, &grad, &self.hess, rhs.value, &rhs.grad, &rhs.hess);
        Jet2 { value: v, grad, hess }
    }
}

/// The factors of the seven products subtracted in the third-order
/// quotient rule for entry `(i, j, k)`: `v ∂³g`, `q_i ∂²_jk g`,
/// `q_j ∂²_ik g`, `q_k ∂²_ij g`, `qh_ij ∂_k g`, `qh_ik ∂_j g`, `qh_jk ∂_i g`,
/// where `q` and `qh` are the quotient's gradient and packed Hessian.
pub open spec fn quotient_tens_factors<const N: usize, const H: usize, const T: usize, S: Scalar>(
    v: S,
    q: [S; N],
    qh: [S; H],
    gg: [S; N],
    gh: [S; H],
    gt: [S; T],
    i: int,
    j: int,
    k: int,
) -> Seq<(S, S)> {
    let t = tens_offset(i, j, k);
    let hij = hess_offset(i, j);
    let hik = hess_offset(i, k);
    let hjk = hess_offset(j, k);
    seq![
        (v, gt[t]),
        (q[i], gh[hjk]),
        (q[j], gh[hik]),
        (q[k], gh[hij]),
        (qh[hij], gg[k]),
        (qh[hik], gg[j]),
        (qh[hjk], gg[i]),
    ]
}

/// `x0 - p[0] - p[1] - ... - p[n - 1]`, subtracted left to right.
pub open spec fn diff_left<S: Scalar>(x0: S, p: Seq<S>, n: nat) -> S
    decreases n,
{
    if n == 0 {
        x0
    } else {
        ssub(diff_left(x0, p, (n - 1) as nat), p[n - 1])
    }
}

/// Every subtraction of `diff_left(x0, p, n)` is permitted.
pub open spec fn diff_left_ok<S: Scalar>(x0: S, p: Seq<S>, n: nat) -> bool
    decreases n,
{
    if n == 0 {
        true
    } else {
        diff_left_ok(x0, p, (n - 1) as nat) && sub_ok(diff_left(x0, p, (n - 1) as nat), p[n - 1])
    }
}

/// The products of `quotient_tens_factors`.
pub open spec fn quotient_tens_products<const N: usize, const H: usize, const T: usize, S: Scalar>(
    v: S,
    q: [S; N],
    qh: [S; H],
    gg: [S; N],
    gh: [S; H],
    gt: [S; T],
    i: int,
    j: int,
    k: int,
) -> Seq<S> {
    quotient_tens_factors(v, q, qh, gg, gh, gt, i, j, k).map_values(|p: (S, S)| smul(p.0, p.1))
}

/// Entry `(i, j, k)` of the third derivative of a quotient:
/// `(∂³f - Σ products) / g`.
pub open spec fn quotient_tens<const N: usize, const H: usize, const T: usize, S: Scalar + Div<
    Output = S,
>>(
    v: S,
    q: [S; N],
    qh: [S; H],
    ft: [S; T],
    gv: S,
    gg: [S; N],
    gh: [S; H],
    gt: [S; T],
    i: int,
    j: int,
    k: int,
) -> S {
    sdiv(
        diff_left(ft[tens_offset(i, j, k)], quotient_tens_products(v, q, qh, gg, gh, gt, i, j, k), 7),
        gv,
    )
}

/// Every operation of `quotient_tens(.., i, j, k)` is permitted.
pub open spec fn quotient_tens_ok<const N: usize, const H: usize, const T: usize, S: Scalar + Div<
    Output = S,
>>(
    v: S,
    q: [S; N],
    qh: [S; H],
    ft: [S; T],
    gv: S,
    gg: [S; N],
    gh: [S; H],
    gt: [S; T],
    i: int,
    j: int,
    k: int,
) -> bool {
    let fs = quotient_tens_factors(v, q, qh, gg, gh, gt, i, j, k);
    let ps = quotient_tens_products(v, q, qh, gg, gh, gt, i, j, k);
    let x0 = ft[tens_offset(i, j, k)];
    &&& forall|m: int| 0 <= m < 7 ==> mul_ok((#[trigger] fs[m]).0, fs[m].1)
    &&& diff_left_ok(x0, ps, 7)
    &&& div_ok(diff_left(x0, ps, 7), gv)
}

/// The packed third-order tensor of a quotient.
pub open spec fn quotient_tensor<const N: usize, const H: usize, const T: usize, S: Scalar + Div<
    Output = S,
>>(
    v: S,
    q: [S; N],
    qh: [S; H],
    ft: [S; T],
    gv: S,
    gg: [S; N],
    gh: [S; H],
    gt: [S; T],
) -> [S; T] {
    tabulate(
        |s: int|
            quotient_tens(
                v,
                q,
                qh,
                ft,
                gv,
                gg,
                gh,
                gt,
                tens_triple(s).0,
                tens_triple(s).1,
                tens_triple(s).2,
            ),
    )
}

/// Entry `(i, j, k)` of the quotient tensor, given the slots of the triple
/// and of its pairs.
fn div_tens_entry<const N: usize, const H: usize, const T: usize, S: Scalar + Div<Output = S>>(
    v: S,
    q: &[S; N],
    qh: &[S; H],
    ft: &[S; T],
    gv: S,
    gg: &[S; N],
    gh: &[S; H],
    gt: &[S; T],
    i: usize,
    j: usize,
    k: usize,
    t_idx: usize,
    h_ij: usize,
    h_ik: usize,
    h_jk: usize,
) -> (e: S)
    requires
        i < N,
        j < N,
        k < N,
        t_idx == tens_offset(i as int, j as int, k as int),
        t_idx < T,
        h_ij == hess_offset(i as int, j as int),
        h_ik == hess_offset(i as int, k as int),
        h_jk == hess_offset(j as int, k as int),
        h_ij < H,
        h_ik < H,
        h_jk < H,
        total_field::<S>() || (exact_field::<S>() && quotient_tens_ok(
            v,
            *q,
            *qh,
            *ft,
            gv,
            *gg,
            *gh,
            *gt,
            i as int,
            j as int,
            k as int,
        )),
    ensures
        exact_field::<S>() ==> e == quotient_tens(
            v,
            *q,
            *qh,
            *ft,
            gv,
            *gg,
            *gh,
            *gt,
            i as int,
            j as int,
            k as int,
        ),
{
    let ghost fs = quotient_tens_factors(v, *q, *qh, *gg, *gh, *gt, i as int, j as int, k as int);
    let ghost ps = quotient_tens_products(v, *q, *qh, *gg, *gh, *gt, i as int, j as int, k as int);
    proof {
        reveal_with_fuel(diff_left, 8);
        reveal_with_fuel(diff_left_ok, 8);
        assert(fs[0] == (v, gt[t_idx as int]));
        assert(fs[1] == (q[i as int], gh[h_jk as int]));
        assert(fs[2] == (q[j as int], gh[h_ik as int]));
        assert(fs[3] == (q[k as int], gh[h_ij as int]));
        assert(fs[4] == (qh[h_ij as int], gg[k as int]));
        assert(fs[5] == (qh[h_ik as int], gg[j as int]));
        assert(fs[6] == (qh[h_jk as int], gg[i as int]));
        assert(ps.len() == 7);
        assert forall|m: int| 0 <= m < 7 implies ps[m] == smul(fs[m].0, fs[m].1) by {}
    }
    (ft[t_idx] - v * gt[t_idx] - q[i] * gh[h_jk] - q[j] * gh[h_ik] - q[k] * gh[h_ij] - qh[h_ij]
        * gg[k] - qh[h_ik] * gg[j] - qh[h_jk] * gg[i]) / gv
}

/// The operations of every canonical entry of `quotient_tensor(..)` are
/// permitted.
pub open spec fn quotient_tensor_ok<const N: usize, const H: usize, const T: usize, S: Scalar + Div<
    Output = S,
>>(
    v: S,
    q: [S; N],
    qh: [S; H],
    ft: [S; T],
    gv: S,
    gg: [S; N],
    gh: [S; H],
    gt: [S; T],
) -> bool {
    forall|i: int, j: int, k: int|
        0 <= k <= j <= i < N ==> #[trigger] quotient_tens_ok(v, q, qh, ft, gv, gg, gh, gt, i, j, k)
}

/// An array whose canonical entries follow `quotient_tens` is the packed
/// quotient tensor.
proof fn lemma_quotient_tensor<const N: usize, const H: usize, const T: usize, S: Scalar + Div<
    Output = S,
>>(
    v: S,
    q: [S; N],
    qh: [S; H],
    ft: [S; T],
    gv: S,
    gg: [S; N],
    gh: [S; H],
    gt: [S; T],
    t: [S; T],
)
    requires
        tens_dims(N as int, H as int, T as int),
        forall|i: int, j: int, k: int|
            0 <= k <= j <= i < N ==> #[trigger] t[tens_offset(i, j, k)] == quotient_tens(
                v,
                q,
                qh,
                ft,
                gv,
                gg,
                gh,
                gt,
                i,
                j,
                k,
            ),
    ensures
        t == quotient_tensor(v, q, qh, ft, gv, gg, gh, gt),
{
    let m = quotient_tensor(v, q, qh, ft, gv, gg, gh, gt);
    lemma_tabulate::<S, T>(
        |s: int|
            quotient_tens(
                v,
                q,
                qh,
                ft,
                gv,
                gg,
                gh,
                gt,
                tens_triple(s).0,
                tens_triple(s).1,
                tens_triple(s).2,
            ),
    );
    assert forall|s: int| 0 <= s < T implies t[s] == m[s] by {
        lemma_tens_offset_onto(N as int, s);
        let (i, j, k) = choose|i: int, j: int, k: int|
            0 <= k <= j <= i < N && #[trigger] tens_offset(i, j, k) == s;
        lemma_tens_triple(i, j, k);
    }
    lemma_array_ext(t, m);
}

/// The packed quotient tensor, canonical triple by canonical triple.
#[verifier::loop_isolation(false)]
fn div_tens_part<const N: usize, const H: usize, const T: usize, S: Scalar + Div<Output = S>>(
    v: S,
    q: &[S; N],
    qh: &[S; H],
    ft: &[S; T],
    gv: S,
    gg: &[S; N],
    gh: &[S; H],
    gt: &[S; T],
) -> (t: [S; T])
    requires
        tens_dims(N as int, H as int, T as int),
        total_field::<S>() || (exact_field::<S>() && quotient_tensor_ok(
            v,
            *q,
            *qh,
            *ft,
            gv,
            *gg,
            *gh,
            *gt,
        )),
    ensures
        exact_field::<S>() ==> t == quotient_tensor(v, *q, *qh, *ft, gv, *gg, *gh, *gt),
{
    let zero = S::default();
    let mut t = [zero; T];
    for i in 0..N
        invariant
            exact_field::<S>() ==> forall|ii: int, jj: int, kk: int|
                0 <= kk <= jj <= ii < i ==> #[trigger] t[tens_offset(ii, jj, kk)] == quotient_tens(
                    v,
                    *q,
                    *qh,
                    *ft,
                    gv,
                    *gg,
                    *gh,
                    *gt,
                    ii,
                    jj,
                    kk,
                ),
    {
        for j in 0..i + 1
            invariant
                i < N,
                exact_field::<S>() ==> forall|ii: int, jj: int, kk: int|
                    0 <= kk <= jj <= ii < i ==> #[trigger] t[tens_offset(ii, jj, kk)]
                        == quotient_tens(v, *q, *qh, *ft, gv, *gg, *gh, *gt, ii, jj, kk),
                exact_field::<S>() ==> forall|jj: int, kk: int|
                    0 <= kk <= jj < j ==> #[trigger] t[tens_offset(i as int, jj, kk)]
                        == quotient_tens(v, *q, *qh, *ft, gv, *gg, *gh, *gt, i as int, jj, kk),
        {
            proof {
                lemma_tens_slot(N as int, H as int, T as int, i as int, j as int, 0);
            }
            let h_ij = hess_idx(i, j);
            for k in 0..j + 1
                invariant
                    j <= i < N,
                    h_ij == hess_offset(i as int, j as int),
                    exact_field::<S>() ==> forall|ii: int, jj: int, kk: int|
                        0 <= kk <= jj <= ii < i ==> #[trigger] t[tens_offset(ii, jj, kk)]
                            == quotient_tens(v, *q, *qh, *ft, gv, *gg, *gh, *gt, ii, jj, kk),
                    exact_field::<S>() ==> forall|jj: int, kk: int|
                        0 <= kk <= jj < j ==> #[trigger] t[tens_offset(i as int, jj, kk)]
                            == quotient_tens(v, *q, *qh, *ft, gv, *gg, *gh, *gt, i as int, jj, kk),
                    exact_field::<S>() ==> forall|kk: int|
                        0 <= kk < k ==> #[trigger] t[tens_offset(i as int, j as int, kk)]
                            == quotient_tens(
                            v,
                            *q,
                            *qh,
                            *ft,
                            gv,
                            *gg,
                            *gh,
                            *gt,
                            i as int,
                            j as int,
                            kk,
                        ),
            {
                proof {
                    lemma_tens_slot(N as int, H as int, T as int, i as int, j as int, k as int);
                }
                let t_idx = tens_idx(i, j, k);
                let h_ik = hess_idx(i, k);
                let h_jk = hess_idx(j, k);
                assert(total_field::<S>() || quotient_tens_ok(
                    v,
                    *q,
                    *qh,
                    *ft,
                    gv,
                    *gg,
                    *gh,
                    *gt,
                    i as int,
                    j as int,
                    k as int,
                ));
                let e = div_tens_entry(
                    v,
                    q,
                    qh,
                    ft,
                    gv,
                    gg,
                    gh,
                    gt,
                    i,
                    j,
                    k,
                    t_idx,
                    h_ij,
                    h_ik,
                    h_jk,
                );
                let ghost before = t;
                t[t_idx] = e;
                proof {
                    assert forall|ii: int, jj: int, kk: int|
                        0 <= kk <= jj <= ii < N && (ii != i || jj != j || kk != k) implies #[trigger] t[tens_offset(
                        ii,
                        jj,
                        kk,
                    )] == before[tens_offset(ii, jj, kk)] by {
                        lemma_tens_slot(N as int, H as int, T as int, ii, jj, kk);
                        if tens_offset(ii, jj, kk) == t_idx {
                            lemma_tens_offset_injective(ii, jj, kk, i as int, j as int, k as int);
                        }
                    }
                }
            }
        }
    }
    proof {
        if exact_field::<S>() {
            lemma_quotient_tensor(v, *q, *qh, *ft, gv, *gg, *gh, *gt, t);
        }
    }
    t
}

/// `a / b` for third-order jets: value, gradient and Hessian as for
/// second-order jets, and each canonical tensor entry by the third-order
/// quotient rule (which uses the quotient's own gradient and Hessian).
pub open spec fn jet3_div<const N: usize, const H: usize, const T: usize, S: Scalar + Div<
    Output = S,
>>(a: Jet3<N, H, T, S>, b: Jet3<N, H, T, S>) -> Jet3<N, H, T, S> {
    let v = sdiv(a.value, b.value);
    let q = quotient_grads(v, a.grad, b.value, b.grad);
    let qh = quotient_hessian(v, q, a.hess, b.value, b.grad, b.hess);
    Jet3 {
        value: v,
        grad: q,
        hess: qh,
        tens: quotient_tensor(v, q, qh, a.tens, b.value, b.grad, b.hess, b.tens),
    }
}

/// Every operation made by `a / b` is permitted.
pub open spec fn jet3_div_ok<const N: usize, const H: usize, const T: usize, S: Scalar + Div<
    Output = S,
>>(a: Jet3<N, H, T, S>, b: Jet3<N, H, T, S>) -> bool {
    let v = sdiv(a.value, b.value);
    let q = quotient_grads(v, a.grad, b.value, b.grad);
    let qh = quotient_hessian(v, q, a.hess, b.value, b.grad, b.hess);
    &&& div_ok(a.value, b.value)
    &&& forall|i: int|
        0 <= i < N ==> quotient_grad_ok(v, #[trigger] a.grad[i], b.value, b.grad[i])
    &&& quotient_hessian_ok(v, q, a.hess, b.value, b.grad, b.hess)
    &&& quotient_tensor_ok(v, q, qh, a.tens, b.value, b.grad, b.hess, b.tens)
}

impl<const N: usize, const H: usize, const T: usize, S: Scalar + Div<Output = S>> DivSpecImpl for Jet3<
    N,
    H,
    T,
    S,
> {
    open spec fn obeys_div_spec() -> bool {
        exact_field::<S>()
    }

    open spec fn div_req(self, rhs: Self) -> bool {
        &&& tens_dims(N as int, H as int, T as int)
        &&& total_field::<S>() || (exact_field::<S>() && jet3_div_ok(self, rhs))
    }

    open spec fn div_spec(self, rhs: Self) -> Self {
        jet3_div(self, rhs)
    }
}

impl<const N: usize, const H: usize, const T: usize, S: Scalar + Div<Output = S>> Div for Jet3<
    N,
    H,
    T,
    S,
> {
    type Output = Self;

    fn div(self, rhs: Self) -> (r: Self) {
        proof {
            lemma_tens_dims_hess(N as int, H as int, T as int);
        }
        let v = self.value / rhs.value;
        let grad = div_grad_part(v, &self.grad, rhs.value, &rhs.grad);
        let hess = div_hess_part(v, &grad, &self.hess, rhs.value, &rhs.grad, &rhs.hess);
        let tens = div_tens_part(
            v,
            &grad,
            &hess,
            &self.tens,
            rhs.value,
            &rhs.grad,
            &rhs.hess,
            &rhs.tens,
        );
        Jet3 { value: v, grad, hess, tens }
    }
}

// ─── Jet with scalar ────────────────────────────────────────────────────

/// `S::from(1u8)` can return only one value.
pub open spec fn unique_one<S: From<u8>>() -> bool {
    forall|o1: S, o2: S| #[trigger] is_one(o1) && #[trigger] is_one(o2) ==> o1 == o2
}

/// A value `S::from(1u8)` can return (the value, when it is unique).
pub open spec fn unit_value<S: From<u8>>() -> S {
    choose|o: S| is_one(o)
}

/// Every entry of `a` times `k`.
pub open spec fn scaled<const L: usize, S: Scalar>(a: [S; L], k: S) -> [S; L] {
    tabulate(|i: int| smul(a[i], k))
}

/// Every product made by `scaled(a, k)` is permitted.
pub open spec fn scaled_ok<const L: usize, S: Scalar>(a: [S; L], k: S) -> bool {
    forall|i: int| 0 <= i < L ==> mul_ok(#[trigger] a[i], k)
}

/// Every entry of `a` times `k`, for arrays of any length.
fn scale_entries<const L: usize, S: Scalar>(a: &[S; L], k: S) -> (r: [S; L])
    requires
        total_arith::<S>() || (exact_arith::<S>() && scaled_ok(*a, k)),
    ensures
        exact_arith::<S>() ==> r == scaled(*a, k),
{
    let zero = S::default();
    let mut r = [zero; L];
    for i in 0..L
        invariant
            total_arith::<S>() || (exact_arith::<S>() && scaled_ok(*a, k)),
            exact_arith::<S>() ==> forall|ii: int| 0 <= ii < i ==> #[trigger] r[ii] == smul(a[ii], k),
    {
        r[i] = a[i] * k;
    }
    proof {
        if exact_arith::<S>() {
            lemma_tabulate::<S, L>(|i: int| smul(a[i], k));
            lemma_array_ext(r, scaled(*a, k));
        }
    }
    r
}

/// `a + k`: the value shifted, every derivative unchanged.
pub open spec fn jet1_add_scalar<const N: usize, S: Scalar>(a: Jet1<N, S>, k: S) -> Jet1<N, S> {
    Jet1 { value: sadd(a.value, k), grad: a.grad }
}

/// `a - k`: the value shifted, every derivative unchanged.
pub open spec fn jet1_sub_scalar<const N: usize, S: Scalar>(a: Jet1<N, S>, k: S) -> Jet1<N, S> {
    Jet1 { value: ssub(a.value, k), grad: a.grad }
}

/// `a * k`: every entry times `k`.
pub open spec fn jet1_scale<const N: usize, S: Scalar>(a: Jet1<N, S>, k: S) -> Jet1<N, S> {
    Jet1 { value: smul(a.value, k), grad: scaled(a.grad, k) }
}

/// Every product made by `a * k` is permitted.
pub open spec fn jet1_scale_ok<const N: usize, S: Scalar>(a: Jet1<N, S>, k: S) -> bool {
    mul_ok(a.value, k) && scaled_ok(a.grad, k)
}

impl<const N: usize, S: Scalar> AddSpecImpl<S> for Jet1<N, S> {
    open spec fn obeys_add_spec() -> bool {
        exact_arith::<S>()
    }

    open spec fn add_req(self, rhs: S) -> bool {
        total_arith::<S>() || (exact_arith::<S>() && add_ok(self.value, rhs))
    }

    open spec fn add_spec(self, rhs: S) -> Self {
        jet1_add_scalar(self, rhs)
    }
}

impl<const N: usize, S: Scalar> Add<S> for Jet1<N, S> {
    type Output = Self;

    fn add(self, rhs: S) -> (r: Self) {
        Jet1 { value: self.value + rhs, grad: self.grad }
    }
}

impl<const N: usize, S: Scalar> SubSpecImpl<S> for Jet1<N, S> {
    open spec fn obeys_sub_spec() -> bool {
        exact_arith::<S>()
    }

    open spec fn sub_req(self, rhs: S) -> bool {
        total_arith::<S>() || (exact_arith::<S>() && sub_ok(self.value, rhs))
    }

    open spec fn sub_spec(self, rhs: S) -> Self {
        jet1_sub_scalar(self, rhs)
    }
}

impl<const N: usize, S: Scalar> Sub<S> for Jet1<N, S> {
    type Output = Self;

    fn sub(self, rhs: S) -> (r: Self) {
        Jet1 { value: self.value - rhs, grad: self.grad }
    }
}

impl<const N: usize, S: Scalar> MulSpecImpl<S> for Jet1<N, S> {
    open spec fn obeys_mul_spec() -> bool {
        exact_arith::<S>()
    }

    open spec fn mul_req(self, rhs: S) -> bool {
        total_arith::<S>() || (exact_arith::<S>() && jet1_scale_ok(self, rhs))
    }

    open spec fn mul_spec(self, rhs: S) -> Self {
        jet1_scale(self, rhs)
    }
}

impl<const N: usize, S: Scalar> Mul<S> for Jet1<N, S> {
    type Output = Self;

    fn mul(self, rhs: S) -> (r: Self) {
        Jet1 { value: self.value * rhs, grad: scale_entries(&self.grad, rhs) }
    }
}

impl<const N: usize, S: Scalar + Div<Output = S> + From<u8>> DivSpecImpl<S> for Jet1<N, S> {
    open spec fn obeys_div_spec() -> bool {
        exact_field::<S>() && unique_one::<S>()
    }

    open spec fn div_req(self, rhs: S) -> bool {
        total_field::<S>() || (exact_field::<S>() && forall|one: S|
            #[trigger] is_one(one) ==> div_ok(one, rhs) && jet1_scale_ok(self, sdiv(one, rhs)))
    }

    open spec fn div_spec(self, rhs: S) -> Self {
        jet1_scale(self, sdiv(unit_value::<S>(), rhs))
    }
}

impl<const N: usize, S: Scalar + Div<Output = S> + From<u8>> Div<S> for Jet1<N, S> {
    type Output = Self;

    /// Multiplies by the reciprocal `1 / rhs`.
    fn div(self, rhs: S) -> (r: Self)
        ensures
            exact_field::<S>() ==> exists|one: S| #[trigger] is_one(one) && r == jet1_scale(self, sdiv(one, rhs)),
    {
        let one = S::from(1u8);
        assert(is_one(one));
        let k_inv = one / rhs;
        self * k_inv
    }
}

/// `a + k`: the value shifted, every derivative unchanged.
pub open spec fn jet2_add_scalar<const N: usize, const H: usize, S: Scalar>(a: Jet2<N, H, S>, k: S) -> Jet2<N, H, S> {
    Jet2 { value: sadd(a.value, k), grad: a.grad, hess: a.hess }
}

/// `a - k`: the value shifted, every derivative unchanged.
pub open spec fn jet2_sub_scalar<const N: usize, const H: usize, S: Scalar>(a: Jet2<N, H, S>, k: S) -> Jet2<N, H, S> {
    Jet2 { value: ssub(a.value, k), grad: a.grad, hess: a.hess }
}

/// `a * k`: every entry times `k`.
pub open spec fn jet2_scale<const N: usize, const H: usize, S: Scalar>(a: Jet2<N, H, S>, k: S) -> Jet2<N, H, S> {
    Jet2 { value: smul(a.value, k), grad: scaled(a.grad, k), hess: scaled(a.hess, k) }
}

/// Every product made by `a * k` is permitted.
pub open spec fn jet2_scale_ok<const N: usize, const H: usize, S: Scalar>(a: Jet2<N, H, S>, k: S) -> bool {
    mul_ok(a.value, k) && scaled_ok(a.grad, k) && scaled_ok(a.hess, k)
}

impl<const N: usize, const H: usize, S: Scalar> AddSpecImpl<S> for Jet2<N, H, S> {
    open spec fn obeys_add_spec() -> bool {
        exact_arith::<S>()
    }

    open spec fn add_req(self, rhs: S) -> bool {
        total_arith::<S>() || (exact_arith::<S>() && add_ok(self.value, rhs))
    }

    open spec fn add_spec(self, rhs: S) -> Self {
        jet2_add_scalar(self, rhs)
    }
}

impl<const N: usize, const H: usize, S: Scalar> Add<S> for Jet2<N, H, S> {
    type Output = Self;

    fn add(self, rhs: S) -> (r: Self) {
        Jet2 { value: self.value + rhs, grad: self.grad, hess: self.hess }
    }
}

impl<const N: usize, const H: usize, S: Scalar> SubSpecImpl<S> for Jet2<N, H, S> {
    open spec fn obeys_sub_spec() -> bool {
        exact_arith::<S>()
    }

    open spec fn sub_req(self, rhs: S) -> bool {
        total_arith::<S>() || (exact_arith::<S>() && sub_ok(self.value, rhs))
    }

    open spec fn sub_spec(self, rhs: S) -> Self {
        jet2_sub_scalar(self, rhs)
    }
}

impl<const N: usize, const H: usize, S: Scalar> Sub<S> for Jet2<N, H, S> {
    type Output = Self;

    fn sub(self, rhs: S) -> (r: Self) {
        Jet2 { value: self.value - rhs, grad: self.grad, hess: self.hess }
    }
}

impl<const N: usize, const H: usize, S: Scalar> MulSpecImpl<S> for Jet2<N, H, S> {
    open spec fn obeys_mul_spec() -> bool {
        exact_arith::<S>()
    }

    open spec fn mul_req(self, rhs: S) -> bool {
        total_arith::<S>() || (exact_arith::<S>() && jet2_scale_ok(self, rhs))
    }

    open spec fn mul_spec(self, rhs: S) -> Self {
        jet2_scale(self, rhs)
    }
}

impl<const N: usize, const H: usize, S: Scalar> Mul<S> for Jet2<N, H, S> {
    type Output = Self;

    fn mul(self, rhs: S) -> (r: Self) {
        Jet2 { value: self.value * rhs, grad: scale_entries(&self.grad, rhs), hess: scale_entries(&self.hess, rhs) }
    }
}

impl<const N: usize, const H: usize, S: Scalar + Div<Output = S> + From<u8>> DivSpecImpl<S> for Jet2<N, H, S> {
    open spec fn obeys_div_spec() -> bool {
        exact_field::<S>() && unique_one::<S>()
    }

    open spec fn div_req(self, rhs: S) -> bool {
        total_field::<S>() || (exact_field::<S>() && forall|one: S|
            #[trigger] is_one(one) ==> div_ok(one, rhs) && jet2_scale_ok(self, sdiv(one, rhs)))
    }

    open spec fn div_spec(self, rhs: S) -> Self {
        jet2_scale(self, sdiv(unit_value::<S>(), rhs))
    }
}

impl<const N: usize, const H: usize, S: Scalar + Div<Output = S> + From<u8>> Div<S> for Jet2<N, H, S> {
    type Output = Self;

    /// Multiplies by the reciprocal `1 / rhs`.
    fn div(self, rhs: S) -> (r: Self)
        ensures
            exact_field::<S>() ==> exists|one: S|
                #[trigger] is_one(one) && r == jet2_scale(self, sdiv(one, rhs)),
    {
        let one = S::from(1u8);
        assert(is_one(one));
        let k_inv = one / rhs;
        self * k_inv
    }
}

/// `a + k`: the value shifted, every derivative unchanged.
pub open spec fn jet3_add_scalar<const N: usize, const H: usize, const T: usize, S: Scalar>(a: Jet3<N, H, T, S>, k: S) -> Jet3<N, H, T, S> {
    Jet3 { value: sadd(a.value, k), grad: a.grad, hess: a.hess, tens: a.tens }
}

/// `a - k`: the value shifted, every derivative unchanged.
pub open spec fn jet3_sub_scalar<const N: usize, const H: usize, const T: usize, S: Scalar>(a: Jet3<N, H, T, S>, k: S) -> Jet3<N, H, T, S> {
    Jet3 { value: ssub(a.value, k), grad: a.grad, hess: a.hess, tens: a.tens }
}

/// `a * k`: every entry times `k`.
pub open spec fn jet3_scale<const N: usize, const H: usize, const T: usize, S: Scalar>(
    a: Jet3<N, H, T, S>,
    k: S,
) -> Jet3<N, H, T, S> {
    Jet3 {
        value: smul(a.value, k),
        grad: scaled(a.grad, k),
        hess: scaled(a.hess, k),
        tens: scaled(a.tens, k),
    }
}

/// Every product made by `a * k` is permitted.
pub open spec fn jet3_scale_ok<const N: usize, const H: usize, const T: usize, S: Scalar>(a: Jet3<N, H, T, S>, k: S) -> bool {
    mul_ok(a.value, k) && scaled_ok(a.grad, k) && scaled_ok(a.hess, k) && scaled_ok(a.tens, k)
}

impl<const N: usize, const H: usize, const T: usize, S: Scalar> AddSpecImpl<S> for Jet3<N, H, T, S> {
    open spec fn obeys_add_spec() -> bool {
        exact_arith::<S>()
    }

    open spec fn add_req(self, rhs: S) -> bool {
        total_arith::<S>() || (exact_arith::<S>() && add_ok(self.value, rhs))
    }

    open spec fn add_spec(self, rhs: S) -> Self {
        jet3_add_scalar(self, rhs)
    }
}

impl<const N: usize, const H: usize, const T: usize, S: Scalar> Add<S> for Jet3<N, H, T, S> {
    type Output = Self;

    fn add(self, rhs: S) -> (r: Self) {
        Jet3 { value: self.value + rhs, grad: self.grad, hess: self.hess, tens: self.tens }
    }
}

impl<const N: usize, const H: usize, const T: usize, S: Scalar> SubSpecImpl<S> for Jet3<N, H, T, S> {
    open spec fn obeys_sub_spec() -> bool {
        exact_arith::<S>()
    }

    open spec fn sub_req(self, rhs: S) -> bool {
        total_arith::<S>() || (exact_arith::<S>() && sub_ok(self.value, rhs))
    }

    open spec fn sub_spec(self, rhs: S) -> Self {
        jet3_sub_scalar(self, rhs)
    }
}

impl<const N: usize, const H: usize, const T: usize, S: Scalar> Sub<S> for Jet3<N, H, T, S> {
    type Output = Self;

    fn sub(self, rhs: S) -> (r: Self) {
        Jet3 { value: self.value - rhs, grad: self.grad, hess: self.hess, tens: self.tens }
    }
}

impl<const N: usize, const H: usize, const T: usize, S: Scalar> MulSpecImpl<S> for Jet3<N, H, T, S> {
    open spec fn obeys_mul_spec() -> bool {
        exact_arith::<S>()
    }

    open spec fn mul_req(self, rhs: S) -> bool {
        total_arith::<S>() || (exact_arith::<S>() && jet3_scale_ok(self, rhs))
    }

    open spec fn mul_spec(self, rhs: S) -> Self {
        jet3_scale(self, rhs)
    }
}

impl<const N: usize, const H: usize, const T: usize, S: Scalar> Mul<S> for Jet3<N, H, T, S> {
    type Output = Self;

    fn mul(self, rhs: S) -> (r: Self) {
        Jet3 {
            value: self.value * rhs,
            grad: scale_entries(&self.grad, rhs),
            hess: scale_entries(&self.hess, rhs),
            tens: scale_entries(&self.tens, rhs),
        }
    }
}

impl<const N: usize, const H: usize, const T: usize, S: Scalar + Div<Output = S> + From<u8>> DivSpecImpl<S> for Jet3<N, H, T, S> {
    open spec fn obeys_div_spec() -> bool {
        exact_field::<S>() && unique_one::<S>()
    }

    open spec fn div_req(self, rhs: S) -> bool {
        total_field::<S>() || (exact_field::<S>() && forall|one: S|
            #[trigger] is_one(one) ==> div_ok(one, rhs) && jet3_scale_ok(self, sdiv(one, rhs)))
    }

    open spec fn div_spec(self, rhs: S) -> Self {
        jet3_scale(self, sdiv(unit_value::<S>(), rhs))
    }
}

impl<const N: usize, const H: usize, const T: usize, S: Scalar + Div<Output = S> + From<u8>> Div<S> for Jet3<N, H, T, S> {
    type Output = Self;

    /// Multiplies by the reciprocal `1 / rhs`.
    fn div(self, rhs: S) -> (r: Self)
        ensures
            exact_field::<S>() ==> exists|one: S|
                #[trigger] is_one(one) && r == jet3_scale(self, sdiv(one, rhs)),
    {
        let one = S::from(1u8);
        assert(is_one(one));
        let k_inv = one / rhs;
        self * k_inv
    }
}

// ─── Commutativity of the product ───────────────────────────────────────

/// For `i64` first-order jets, multiplication is commutative: when both
/// `a * b` and `b * a` are computed without overflow they are equal.
pub proof fn lemma_jet1_mul_commutative_i64<const N: usize>(a: Jet1<N, i64>, b: Jet1<N, i64>)
    requires
        jet1_mul_ok(a, b),
        jet1_mul_ok(b, a),
    ensures
        jet1_mul(a, b) == jet1_mul(b, a),
{
    let (m1, m2) = (jet1_mul(a, b), jet1_mul(b, a));
    lemma_tabulate::<i64, N>(|i: int| product_grad(a.value, a.grad[i], b.value, b.grad[i]));
    lemma_tabulate::<i64, N>(|i: int| product_grad(b.value, b.grad[i], a.value, a.grad[i]));
    assert forall|i: int| 0 <= i < N implies m1.grad[i] == m2.grad[i] by {
        assert(product_grad_ok(a.value, a.grad[i], b.value, b.grad[i]));
        assert(product_grad_ok(b.value, b.grad[i], a.value, a.grad[i]));
    }
    lemma_array_ext(m1.grad, m2.grad);
}

/// For `i64` second-order jets, multiplication is commutative: when both
/// `a * b` and `b * a` are computed without overflow they are equal.
pub proof fn lemma_jet2_mul_commutative_i64<const N: usize, const H: usize>(
    a: Jet2<N, H, i64>,
    b: Jet2<N, H, i64>,
)
    requires
        hess_dims(N as int, H as int),
        jet2_mul_ok(a, b),
        jet2_mul_ok(b, a),
    ensures
        jet2_mul(a, b) == jet2_mul(b, a),
{
    let (m1, m2) = (jet2_mul(a, b), jet2_mul(b, a));
    lemma_tabulate::<i64, N>(|i: int| product_grad(a.value, a.grad[i], b.value, b.grad[i]));
    lemma_tabulate::<i64, N>(|i: int| product_grad(b.value, b.grad[i], a.value, a.grad[i]));
    assert forall|i: int| 0 <= i < N implies m1.grad[i] == m2.grad[i] by {
        assert(product_grad_ok(a.value, a.grad[i], b.value, b.grad[i]));
        assert(product_grad_ok(b.value, b.grad[i], a.value, a.grad[i]));
    }
    lemma_array_ext(m1.grad, m2.grad);
    assert forall|s: int| 0 <= s < H implies m1.hess[s] == m2.hess[s] by {
        lemma_triangular_exact(N as int);
        lemma_hess_offset_onto(N as int, s);
        let (i, j) = choose|i: int, j: int| 0 <= j <= i < N && #[trigger] hess_offset(i, j) == s;
        lemma_jet2_mul_hess(a, b, i, j);
        lemma_jet2_mul_hess(b, a, i, j);
        assert(product_hess_ok(
            a.value,
            a.hess[s],
            a.grad[i],
            a.grad[j],
            b.value,
            b.hess[s],
            b.grad[i],
            b.grad[j],
        ));
        assert(product_hess_ok(
            b.value,
            b.hess[s],
            b.grad[i],
            b.grad[j],
            a.value,
            a.hess[s],
            a.grad[i],
            a.grad[j],
        ));
    }
    lemma_array_ext(m1.hess, m2.hess);
}

/// The Leibniz tensor entry is symmetric in the two factors, for `i64`
/// jets whose products and sums do not overflow.
proof fn lemma_jet3_mul_tens_commutative_i64<const N: usize, const H: usize, const T: usize>(
    a: Jet3<N, H, T, i64>,
    b: Jet3<N, H, T, i64>,
    i: int,
    j: int,
    k: int,
)
    requires
        jet3_mul_tens_ok(a, b, i, j, k),
        jet3_mul_tens_ok(b, a, i, j, k),
    ensures
        jet3_mul_tens(a, b, i, j, k) == jet3_mul_tens(b, a, i, j, k),
{
    reveal_with_fuel(sum_left, 8);
    reveal_with_fuel(sum_left_ok, 8);
    let fa = jet3_mul_tens_factors(a, b, i, j, k);
    let fb = jet3_mul_tens_factors(b, a, i, j, k);
    let ta = jet3_mul_tens_terms(a, b, i, j, k);
    let tb = jet3_mul_tens_terms(b, a, i, j, k);
    assert forall|m: int| 0 <= m < 8 implies mul_ok(fa[m].0, fa[m].1) && mul_ok(fb[m].0, fb[m].1) by {
        assert(mul_ok(fa[m].0, fa[m].1));
        assert(mul_ok(fb[m].0, fb[m].1));
    }
    assert(ta[0] == tb[1] && ta[1] == tb[0]);
    assert(ta[2] == tb[5] && ta[3] == tb[6] && ta[4] == tb[7]);
    assert(ta[5] == tb[2] && ta[6] == tb[3] && ta[7] == tb[4]);
}

/// For `i64` third-order jets, multiplication is commutative: when both
/// `a * b` and `b * a` are computed without overflow they are equal.
pub proof fn lemma_jet3_mul_commutative_i64<const N: usize, const H: usize, const T: usize>(
    a: Jet3<N, H, T, i64>,
    b: Jet3<N, H, T, i64>,
)
    requires
        tens_dims(N as int, H as int, T as int),
        jet3_mul_ok(a, b),
        jet3_mul_ok(b, a),
    ensures
        jet3_mul(a, b) == jet3_mul(b, a),
{
    let (m1, m2) = (jet3_mul(a, b), jet3_mul(b, a));
    lemma_tabulate::<i64, N>(|i: int| product_grad(a.value, a.grad[i], b.value, b.grad[i]));
    lemma_tabulate::<i64, N>(|i: int| product_grad(b.value, b.grad[i], a.value, a.grad[i]));
    assert forall|i: int| 0 <= i < N implies m1.grad[i] == m2.grad[i] by {
        assert(product_grad_ok(a.value, a.grad[i], b.value, b.grad[i]));
        assert(product_grad_ok(b.value, b.grad[i], a.value, a.grad[i]));
    }
    lemma_array_ext(m1.grad, m2.grad);
    assert forall|s: int| 0 <= s < H implies m1.hess[s] == m2.hess[s] by {
        lemma_triangular_exact(N as int);
        lemma_hess_offset_onto(N as int, s);
        let (i, j) = choose|i: int, j: int| 0 <= j <= i < N && #[trigger] hess_offset(i, j) == s;
        lemma_jet3_mul_hess(a, b, i, j);
        lemma_jet3_mul_hess(b, a, i, j);
        assert(product_hess_ok(
            a.value,
            a.hess[s],
            a.grad[i],
            a.grad[j],
            b.value,
            b.hess[s],
            b.grad[i],
            b.grad[j],
        ));
        assert(product_hess_ok(
            b.value,
            b.hess[s],
            b.grad[i],
            b.grad[j],
            a.value,
            a.hess[s],
            a.grad[i],
            a.grad[j],
        ));
    }
    lemma_array_ext(m1.hess, m2.hess);
    assert forall|s: int| 0 <= s < T implies m1.tens[s] == m2.tens[s] by {
        lemma_tens_offset_onto(N as int, s);
        let (i, j, k) = choose|i: int, j: int, k: int|
            0 <= k <= j <= i < N && #[trigger] tens_offset(i, j, k) == s;
        lemma_jet3_mul_tens(a, b, i, j, k);
        lemma_jet3_mul_tens(b, a, i, j, k);
        assert(jet3_mul_tens_ok(a, b, i, j, k));
        assert(jet3_mul_tens_ok(b, a, i, j, k));
        lemma_jet3_mul_tens_commutative_i64(a, b, i, j, k);
    }
    lemma_array_ext(m1.tens, m2.tens);
}

} // verus!
