//! The chain rule on jets: composing a scalar function `φ` with a jet.
//!
//! Given the value `φ(x)` and the derivatives `φ'`, `φ''`, `φ'''` of a
//! scalar function at the jet's value `x`, `compose` returns the jet of
//! `φ ∘ f` (Faà di Bruno's formula through the jet's order). Elementary
//! functions (`sin`, `exp`, `sqrt`, powers, ...) are compositions whose
//! scalar derivatives the caller evaluates.
use crate::impls::jet_ops::{
    exact_field,
    lemma_hess_slot,
    lemma_tens_dims_hess,
    lemma_tens_slot,
    total_field,
};
use crate::jets::{
    Jet1,
    Jet2,
    Jet3,
    hess_dims,
    hess_idx,
    hess_offset,
    hess_pair,
    lemma_array_ext,
    lemma_hess_offset_injective,
    lemma_hess_offset_onto,
    lemma_hess_pair,
    lemma_tabulate,
    lemma_tens_offset_injective,
    lemma_tens_offset_onto,
    lemma_tens_triple,
    lemma_triangular_exact,
    tabulate,
    tens_dims,
    tens_idx,
    tens_offset,
    tens_triple,
};
use crate::scalar::{
    Scalar,
    exact_arith,
    total_arith,
    is_two,
    sadd,
    ssub,
    smul,
    sdiv,
    add_ok,
    sub_ok,
    mul_ok,
    div_ok,
};
use core::ops::Div;
use vstd::prelude::*;

verus! {

/// First-order chain rule for entry `i`: `φ' ∂_i f`.
pub open spec fn chain_grads<const N: usize, S: Scalar>(p1: S, g: [S; N]) -> [S; N] {
    tabulate(|i: int| smul(p1, g[i]))
}

/// Every product of `chain_grads(p1, g)` is permitted.
pub open spec fn chain_grads_ok<const N: usize, S: Scalar>(p1: S, g: [S; N]) -> bool {
    forall|i: int| 0 <= i < N ==> mul_ok(p1, #[trigger] g[i])
}

/// Second-order chain rule for the pair `(i, j)` stored at slot `s`:
/// `φ' ∂²_ij f + (φ'' ∂_i f) ∂_j f`.
pub open spec fn chain_hess_entry<const N: usize, const H: usize, S: Scalar>(
    p1: S,
    p2: S,
    g: [S; N],
    h: [S; H],
    i: int,
    j: int,
) -> S {
    sadd(smul(p1, h[hess_offset(i, j)]), smul(smul(p2, g[i]), g[j]))
}

/// Every operation of `chain_hess_entry(..)` is permitted.
pub open spec fn chain_hess_entry_ok<const N: usize, const H: usize, S: Scalar>(
    p1: S,
    p2: S,
    g: [S; N],
    h: [S; H],
    i: int,
    j: int,
) -> bool {
    &&& mul_ok(p1, h[hess_offset(i, j)])
    &&& mul_ok(p2, g[i])
    &&& mul_ok(smul(p2, g[i]), g[j])
    &&& add_ok(smul(p1, h[hess_offset(i, j)]), smul(smul(p2, g[i]), g[j]))
}

/// The packed Hessian of `φ ∘ f`.
pub open spec fn chain_hessian<const N: usize, const H: usize, S: Scalar>(
    p1: S,
    p2: S,
    g: [S; N],
    h: [S; H],
) -> [S; H] {
    tabulate(|s: int| chain_hess_entry(p1, p2, g, h, hess_pair(s).0, hess_pair(s).1))
}

/// Every canonical entry of `chain_hessian(..)` is computed with permitted
/// operations.
pub open spec fn chain_hessian_ok<const N: usize, const H: usize, S: Scalar>(
    p1: S,
    p2: S,
    g: [S; N],
    h: [S; H],
) -> bool {
    forall|i: int, j: int| 0 <= j <= i < N ==> #[trigger] chain_hess_entry_ok(p1, p2, g, h, i, j)
}

/// `∂_i f ∂²_jk f + ∂_j f ∂²_ik f + ∂_k f ∂²_ij f`, added left to right.
pub open spec fn grad_hess_sum<const N: usize, const H: usize, S: Scalar>(
    g: [S; N],
    h: [S; H],
    i: int,
    j: int,
    k: int,
) -> S {
    sadd(
        sadd(smul(g[i], h[hess_offset(j, k)]), smul(g[j], h[hess_offset(i, k)])),
        smul(g[k], h[hess_offset(i, j)]),
    )
}

/// Every operation of `grad_hess_sum(..)` is permitted.
pub open spec fn grad_hess_sum_ok<const N: usize, const H: usize, S: Scalar>(
    g: [S; N],
    h: [S; H],
    i: int,
    j: int,
    k: int,
) -> bool {
    &&& mul_ok(g[i], h[hess_offset(j, k)])
    &&& mul_ok(g[j], h[hess_offset(i, k)])
    &&& add_ok(smul(g[i], h[hess_offset(j, k)]), smul(g[j], h[hess_offset(i, k)]))
    &&& mul_ok(g[k], h[hess_offset(i, j)])
    &&& add_ok(
        sadd(smul(g[i], h[hess_offset(j, k)]), smul(g[j], h[hess_offset(i, k)])),
        smul(g[k], h[hess_offset(i, j)]),
    )
}

/// Third-order chain rule for the triple `(i, j, k)`:
/// `φ' ∂³f + φ'' (∂_i f ∂²_jk f + ∂_j f ∂²_ik f + ∂_k f ∂²_ij f)
/// + ((φ''' ∂_i f) ∂_j f) ∂_k f`.
pub open spec fn chain_tens_entry<const N: usize, const H: usize, const T: usize, S: Scalar>(
    p1: S,
    p2: S,
    p3: S,
    g: [S; N],
    h: [S; H],
    t: [S; T],
    i: int,
    j: int,
    k: int,
) -> S {
    sadd(
        sadd(smul(p1, t[tens_offset(i, j, k)]), smul(p2, grad_hess_sum(g, h, i, j, k))),
        smul(smul(smul(p3, g[i]), g[j]), g[k]),
    )
}

/// Every operation of `chain_tens_entry(..)` is permitted.
pub open spec fn chain_tens_entry_ok<const N: usize, const H: usize, const T: usize, S: Scalar>(
    p1: S,
    p2: S,
    p3: S,
    g: [S; N],
    h: [S; H],
    t: [S; T],
    i: int,
    j: int,
    k: int,
) -> bool {
    &&& mul_ok(p1, t[tens_offset(i, j, k)])
    &&& grad_hess_sum_ok(g, h, i, j, k)
    &&& mul_ok(p2, grad_hess_sum(g, h, i, j, k))
    &&& add_ok(smul(p1, t[tens_offset(i, j, k)]), smul(p2, grad_hess_sum(g, h, i, j, k)))
    &&& mul_ok(p3, g[i])
    &&& mul_ok(smul(p3, g[i]), g[j])
    &&& mul_ok(smul(smul(p3, g[i]), g[j]), g[k])
    &&& add_ok(
        sadd(smul(p1, t[tens_offset(i, j, k)]), smul(p2, grad_hess_sum(g, h, i, j, k))),
        smul(smul(smul(p3, g[i]), g[j]), g[k]),
    )
}

/// The same third-order terms with the gradient product formed first:
/// `φ' ∂³f + φ'' (..) + φ''' ((∂_i f ∂_j f) ∂_k f)`.
pub open spec fn chain_tens_entry_factored<
    const N: usize,
    const H: usize,
    const T: usize,
    S: Scalar,
>(p1: S, p2: S, p3: S, g: [S; N], h: [S; H], t: [S; T], i: int, j: int, k: int) -> S {
    sadd(
        sadd(smul(p1, t[tens_offset(i, j, k)]), smul(p2, grad_hess_sum(g, h, i, j, k))),
        smul(p3, smul(smul(g[i], g[j]), g[k])),
    )
}

/// Every operation of `chain_tens_entry_factored(..)` is permitted.
pub open spec fn chain_tens_entry_factored_ok<
    const N: usize,
    const H: usize,
    const T: usize,
    S: Scalar,
>(p1: S, p2: S, p3: S, g: [S; N], h: [S; H], t: [S; T], i: int, j: int, k: int) -> bool {
    &&& mul_ok(p1, t[tens_offset(i, j, k)])
    &&& grad_hess_sum_ok(g, h, i, j, k)
    &&& mul_ok(p2, grad_hess_sum(g, h, i, j, k))
    &&& add_ok(smul(p1, t[tens_offset(i, j, k)]), smul(p2, grad_hess_sum(g, h, i, j, k)))
    &&& mul_ok(g[i], g[j])
    &&& mul_ok(smul(g[i], g[j]), g[k])
    &&& mul_ok(p3, smul(smul(g[i], g[j]), g[k]))
    &&& add_ok(
        sadd(smul(p1, t[tens_offset(i, j, k)]), smul(p2, grad_hess_sum(g, h, i, j, k))),
        smul(p3, smul(smul(g[i], g[j]), g[k])),
    )
}

/// The third-order entry in either grouping of the last term.
pub open spec fn chain_tens_at<const N: usize, const H: usize, const T: usize, S: Scalar>(
    factored: bool,
    p1: S,
    p2: S,
    p3: S,
    g: [S; N],
    h: [S; H],
    t: [S; T],
    i: int,
    j: int,
    k: int,
) -> S {
    if factored {
        chain_tens_entry_factored(p1, p2, p3, g, h, t, i, j, k)
    } else {
        chain_tens_entry(p1, p2, p3, g, h, t, i, j, k)
    }
}

/// Every operation of `chain_tens_at(..)` is permitted.
pub open spec fn chain_tens_at_ok<const N: usize, const H: usize, const T: usize, S: Scalar>(
    factored: bool,
    p1: S,
    p2: S,
    p3: S,
    g: [S; N],
    h: [S; H],
    t: [S; T],
    i: int,
    j: int,
    k: int,
) -> bool {
    if factored {
        chain_tens_entry_factored_ok(p1, p2, p3, g, h, t, i, j, k)
    } else {
        chain_tens_entry_ok(p1, p2, p3, g, h, t, i, j, k)
    }
}

/// The packed third-order tensor of `φ ∘ f`.
pub open spec fn chain_tensor<const N: usize, const H: usize, const T: usize, S: Scalar>(
    factored: bool,
    p1: S,
    p2: S,
    p3: S,
    g: [S; N],
    h: [S; H],
    t: [S; T],
) -> [S; T] {
    tabulate(
        |s: int|
            chain_tens_at(
                factored,
                p1,
                p2,
                p3,
                g,
                h,
                t,
                tens_triple(s).0,
                tens_triple(s).1,
                tens_triple(s).2,
            ),
    )
}

/// Every canonical entry of `chain_tensor(..)` is computed with permitted
/// operations.
pub open spec fn chain_tensor_ok<const N: usize, const H: usize, const T: usize, S: Scalar>(
    factored: bool,
    p1: S,
    p2: S,
    p3: S,
    g: [S; N],
    h: [S; H],
    t: [S; T],
) -> bool {
    forall|i: int, j: int, k: int|
        0 <= k <= j <= i < N ==> #[trigger] chain_tens_at_ok(factored, p1, p2, p3, g, h, t, i, j, k)
}

/// `φ' ∂_i f`, entry by entry.
fn chain_grad_part<const N: usize, S: Scalar>(p1: S, g: &[S; N]) -> (r: [S; N])
    requires
        total_arith::<S>() || (exact_arith::<S>() && chain_grads_ok(p1, *g)),
    ensures
        exact_arith::<S>() ==> r == chain_grads(p1, *g),
{
    let zero = S::default();
    let mut r = [zero; N];
    for i in 0..N
        invariant
            total_arith::<S>() || (exact_arith::<S>() && chain_grads_ok(p1, *g)),
            exact_arith::<S>() ==> forall|ii: int| 0 <= ii < i ==> #[trigger] r[ii] == smul(p1, g[ii]),
    {
        r[i] = p1 * g[i];
    }
    proof {
        if exact_arith::<S>() {
            lemma_tabulate::<S, N>(|i: int| smul(p1, g[i]));
            lemma_array_ext(r, chain_grads(p1, *g));
        }
    }
    r
}

/// The packed Hessian of `φ ∘ f`, canonical pair by canonical pair.
#[verifier::loop_isolation(false)]
fn chain_hess_part<const N: usize, const H: usize, S: Scalar>(
    p1: S,
    p2: S,
    g: &[S; N],
    h: &[S; H],
) -> (r: [S; H])
    requires
        hess_dims(N as int, H as int),
        total_arith::<S>() || (exact_arith::<S>() && chain_hessian_ok(p1, p2, *g, *h)),
    ensures
        exact_arith::<S>() ==> r == chain_hessian(p1, p2, *g, *h),
{
    let zero = S::default();
    let mut r = [zero; H];
    for i in 0..N
        invariant
            exact_arith::<S>() ==> forall|ii: int, jj: int|
                0 <= jj <= ii < i ==> #[trigger] r[hess_offset(ii, jj)] == chain_hess_entry(
                    p1,
                    p2,
                    *g,
                    *h,
                    ii,
                    jj,
                ),
    {
        for j in 0..i + 1
            invariant
                i < N,
                exact_arith::<S>() ==> forall|ii: int, jj: int|
                    0 <= jj <= ii < i ==> #[trigger] r[hess_offset(ii, jj)] == chain_hess_entry(
                        p1,
                        p2,
                        *g,
                        *h,
                        ii,
                        jj,
                    ),
                exact_arith::<S>() ==> forall|jj: int|
                    0 <= jj < j ==> #[trigger] r[hess_offset(i as int, jj)] == chain_hess_entry(
                        p1,
                        p2,
                        *g,
                        *h,
                        i as int,
                        jj,
                    ),
        {
            proof {
                lemma_hess_slot(N as int, H as int, i as int, j as int);
            }
            let idx = hess_idx(i, j);
            assert(total_arith::<S>() || chain_hess_entry_ok(
                p1,
                p2,
                *g,
                *h,
                i as int,
                j as int,
            ));
            let ghost before = r;
            r[idx] = p1 * h[idx] + p2 * g[i] * g[j];
            proof {
                assert forall|ii: int, jj: int|
                    0 <= jj <= ii < N && (ii != i || jj != j) implies #[trigger] r[hess_offset(
                    ii,
                    jj,
                )] == before[hess_offset(ii, jj)] by {
                    lemma_hess_slot(N as int, H as int, ii, jj);
                    if hess_offset(ii, jj) == idx {
                        lemma_hess_offset_injective(ii, jj, i as int, j as int);
                    }
                }
            }
        }
    }
    proof {
        if exact_arith::<S>() {
            let m = chain_hessian(p1, p2, *g, *h);
            lemma_tabulate::<S, H>(
                |s: int| chain_hess_entry(p1, p2, *g, *h, hess_pair(s).0, hess_pair(s).1),
            );
            assert forall|s: int| 0 <= s < H implies r[s] == m[s] by {
                lemma_triangular_exact(N as int);
                lemma_hess_offset_onto(N as int, s);
                let (i, j) = choose|i: int, j: int|
                    0 <= j <= i < N && #[trigger] hess_offset(i, j) == s;
                lemma_hess_pair(i, j);
            }
            lemma_array_ext(r, m);
        }
    }
    r
}

/// One third-order entry of `φ ∘ f`, given the slots of the triple and of
/// its pairs.
fn chain_tens_entry_exec<const N: usize, const H: usize, const T: usize, S: Scalar>(
    factored: bool,
    p1: S,
    p2: S,
    p3: S,
    g: &[S; N],
    h: &[S; H],
    t: &[S; T],
    i: usize,
    j: usize,
    k: usize,
    t_idx: usize,
    h_ij: usize,
    h_ik: usize,
    h_jk: usize,
) -> (e: S)
    requires
        i < N,
        j < N,
        k < N,
        t_idx == tens_offset(i as int, j as int, k as int),
        t_idx < T,
        h_ij == hess_offset(i as int, j as int),
        h_ik == hess_offset(i as int, k as int),
        h_jk == hess_offset(j as int, k as int),
        h_ij < H,
        h_ik < H,
        h_jk < H,
        total_arith::<S>() || (exact_arith::<S>() && chain_tens_at_ok(
            factored,
            p1,
            p2,
            p3,
            *g,
            *h,
            *t,
            i as int,
            j as int,
            k as int,
        )),
    ensures
        exact_arith::<S>() ==> e == chain_tens_at(
            factored,
            p1,
            p2,
            p3,
            *g,
            *h,
            *t,
            i as int,
            j as int,
            k as int,
        ),
{
    let gh = g[i] * h[h_jk] + g[j] * h[h_ik] + g[k] * h[h_ij];
    if factored {
        let ggg = g[i] * g[j] * g[k];
        p1 * t[t_idx] + p2 * gh + p3 * ggg
    } else {
        p1 * t[t_idx] + p2 * gh + p3 * g[i] * g[j] * g[k]
    }
}

/// The packed third-order tensor of `φ ∘ f`, canonical triple by canonical
/// triple.
#[verifier::loop_isolation(false)]
fn chain_tens_part<const N: usize, const H: usize, const T: usize, S: Scalar>(
    factored: bool,
    p1: S,
    p2: S,
    p3: S,
    g: &[S; N],
    h: &[S; H],
    t: &[S; T],
) -> (r: [S; T])
    requires
        tens_dims(N as int, H as int, T as int),
        total_arith::<S>() || (exact_arith::<S>() && chain_tensor_ok(
            factored,
            p1,
            p2,
            p3,
            *g,
            *h,
            *t,
        )),
    ensures
        exact_arith::<S>() ==> r == chain_tensor(factored, p1, p2, p3, *g, *h, *t),
{
    let zero = S::default();
    let mut r = [zero; T];
    for i in 0..N
        invariant
            exact_arith::<S>() ==> forall|ii: int, jj: int, kk: int|
                0 <= kk <= jj <= ii < i ==> #[trigger] r[tens_offset(ii, jj, kk)] == chain_tens_at(
                    factored,
                    p1,
                    p2,
                    p3,
                    *g,
                    *h,
                    *t,
                    ii,
                    jj,
                    kk,
                ),
    {
        for j in 0..i + 1
            invariant
                i < N,
                exact_arith::<S>() ==> forall|ii: int, jj: int, kk: int|
                    0 <= kk <= jj <= ii < i ==> #[trigger] r[tens_offset(ii, jj, kk)]
                        == chain_tens_at(factored, p1, p2, p3, *g, *h, *t, ii, jj, kk),
                exact_arith::<S>() ==> forall|jj: int, kk: int|
                    0 <= kk <= jj < j ==> #[trigger] r[tens_offset(i as int, jj, kk)]
                        == chain_tens_at(factored, p1, p2, p3, *g, *h, *t, i as int, jj, kk),
        {
            proof {
                lemma_tens_slot(N as int, H as int, T as int, i as int, j as int, 0);
            }
            let h_ij = hess_idx(i, j);
            for k in 0..j + 1
                invariant
                    j <= i < N,
                    h_ij == hess_offset(i as int, j as int),
                    exact_arith::<S>() ==> forall|ii: int, jj: int, kk: int|
                        0 <= kk <= jj <= ii < i ==> #[trigger] r[tens_offset(ii, jj, kk)]
                            == chain_tens_at(factored, p1, p2, p3, *g, *h, *t, ii, jj, kk),
                    exact_arith::<S>() ==> forall|jj: int, kk: int|
                        0 <= kk <= jj < j ==> #[trigger] r[tens_offset(i as int, jj, kk)]
                            == chain_tens_at(factored, p1, p2, p3, *g, *h, *t, i as int, jj, kk),
                    exact_arith::<S>() ==> forall|kk: int|
                        0 <= kk < k ==> #[trigger] r[tens_offset(i as int, j as int, kk)]
                            == chain_tens_at(
                            factored,
                            p1,
                            p2,
                            p3,
                            *g,
                            *h,
                            *t,
                            i as int,
                            j as int,
                            kk,
                        ),
            {
                proof {
                    lemma_tens_slot(N as int, H as int, T as int, i as int, j as int, k as int);
                }
                let t_idx = tens_idx(i, j, k);
                let h_ik = hess_idx(i, k);
                let h_jk = hess_idx(j, k);
                assert(total_arith::<S>() || chain_tens_at_ok(
                    factored,
                    p1,
                    p2,
                    p3,
                    *g,
                    *h,
                    *t,
                    i as int,
                    j as int,
                    k as int,
                ));
                let e = chain_tens_entry_exec(
                    factored,
                    p1,
                    p2,
                    p3,
                    g,
                    h,
                    t,
                    i,
                    j,
                    k,
                    t_idx,
                    h_ij,
                    h_ik,
                    h_jk,
                );
                let ghost before = r;
                r[t_idx] = e;
                proof {
                    assert forall|ii: int, jj: int, kk: int|
                        0 <= kk <= jj <= ii < N && (ii != i || jj != j || kk != k) implies #[trigger] r[tens_offset(
                        ii,
                        jj,
                        kk,
                    )] == before[tens_offset(ii, jj, kk)] by {
                        lemma_tens_slot(N as int, H as int, T as int, ii, jj, kk);
                        if tens_offset(ii, jj, kk) == t_idx {
                            lemma_tens_offset_injective(ii, jj, kk, i as int, j as int, k as int);
                        }
                    }
                }
            }
        }
    }
    proof {
        if exact_arith::<S>() {
            let m = chain_tensor(factored, p1, p2, p3, *g, *h, *t);
            lemma_tabulate::<S, T>(
                |s: int|
                    chain_tens_at(
                        factored,
                        p1,
                        p2,
                        p3,
                        *g,
                        *h,
                        *t,
                        tens_triple(s).0,
                        tens_triple(s).1,
                        tens_triple(s).2,
                    ),
            );
            assert forall|s: int| 0 <= s < T implies r[s] == m[s] by {
                lemma_tens_offset_onto(N as int, s);
                let (i, j, k) = choose|i: int, j: int, k: int|
                    0 <= k <= j <= i < N && #[trigger] tens_offset(i, j, k) == s;
                lemma_tens_triple(i, j, k);
            }
            lemma_array_ext(r, m);
        }
    }
    r
}

impl<const N: usize, S: Scalar> Jet1<N, S> {
    /// The jet of `φ ∘ f` from `φ(x)` and `φ'(x)` at this jet's value `x`:
    /// value `phi`, gradient `φ' ∇f`.
    pub fn compose(self, phi: S, phi_p: S) -> (r: Self)
        requires
            total_arith::<S>() || (exact_arith::<S>() && chain_grads_ok(phi_p, self.grad)),
        ensures
            r.value == phi,
            exact_arith::<S>() ==> r.grad == chain_grads(phi_p, self.grad),
    {
        Jet1 { value: phi, grad: chain_grad_part(phi_p, &self.grad) }
    }
}

impl<const N: usize, const H: usize, S: Scalar> Jet2<N, H, S> {
    /// The jet of `φ ∘ f` from `φ`, `φ'`, `φ''` at this jet's value:
    /// gradient `φ' ∇f`, Hessian `φ' ∇²f + φ'' ∇f ∇fᵀ`.
    pub fn compose(self, phi: S, phi_p: S, phi_pp: S) -> (r: Self)
        requires
            hess_dims(N as int, H as int),
            total_arith::<S>() || (exact_arith::<S>() && chain_grads_ok(phi_p, self.grad)
                && chain_hessian_ok(phi_p, phi_pp, self.grad, self.hess)),
        ensures
            r.value == phi,
            exact_arith::<S>() ==> r.grad == chain_grads(phi_p, self.grad),
            exact_arith::<S>() ==> r.hess == chain_hessian(phi_p, phi_pp, self.grad, self.hess),
    {
        Jet2 {
            value: phi,
            grad: chain_grad_part(phi_p, &self.grad),
            hess: chain_hess_part(phi_p, phi_pp, &self.grad, &self.hess),
        }
    }
}

impl<const N: usize, const H: usize, const T: usize, S: Scalar> Jet3<N, H, T, S> {
    /// The jet of `φ ∘ f` from `φ`, `φ'`, `φ''`, `φ'''` at this jet's
    /// value: gradient `φ' ∇f`, Hessian `φ' ∇²f + φ'' ∇f ∇fᵀ`, third-order
    /// tensor `φ' ∇³f + φ'' (∂_i f ∂²_jk f + ∂_j f ∂²_ik f + ∂_k f ∂²_ij f)
    /// + φ''' ∂_i f ∂_j f ∂_k f`. With `factored` the last product is formed
    /// as `φ''' ((∂_i f ∂_j f) ∂_k f)`, otherwise as
    /// `((φ''' ∂_i f) ∂_j f) ∂_k f`.
    pub fn compose(self, factored: bool, phi: S, phi_p: S, phi_pp: S, phi_ppp: S) -> (r: Self)
        requires
            tens_dims(N as int, H as int, T as int),
            total_arith::<S>() || (exact_arith::<S>() && chain_grads_ok(phi_p, self.grad)
                && chain_hessian_ok(phi_p, phi_pp, self.grad, self.hess) && chain_tensor_ok(
                factored,
                phi_p,
                phi_pp,
                phi_ppp,
                self.grad,
                self.hess,
                self.tens,
            )),
        ensures
            r.value == phi,
            exact_arith::<S>() ==> r.grad == chain_grads(phi_p, self.grad),
            exact_arith::<S>() ==> r.hess == chain_hessian(phi_p, phi_pp, self.grad, self.hess),
            exact_arith::<S>() ==> r.tens == chain_tensor(
                factored,
                phi_p,
                phi_pp,
                phi_ppp,
                self.grad,
                self.hess,
                self.tens,
            ),
    {
        proof {
            lemma_tens_dims_hess(N as int, H as int, T as int);
        }
        Jet3 {
            value: phi,
            grad: chain_grad_part(phi_p, &self.grad),
            hess: chain_hess_part(phi_p, phi_pp, &self.grad, &self.hess),
            tens: chain_tens_part(
                factored,
                phi_p,
                phi_pp,
                phi_ppp,
                &self.grad,
                &self.hess,
                &self.tens,
            ),
        }
    }
}

// ─── Two-argument arctangent ────────────────────────────────────────────

/// `f² + g²` for `atan2(f, g)`.
pub open spec fn atan2_r2<S: Scalar>(f: S, g: S) -> S {
    sadd(smul(f, f), smul(g, g))
}

/// First derivative of `atan2(f, g)`: `(g ∂_i f - f ∂_i g) / (f² + g²)`.
pub open spec fn atan2_grad<S: Scalar + Div<Output = S>>(f: S, g: S, fgi: S, ggi: S) -> S {
    sdiv(ssub(smul(g, fgi), smul(f, ggi)), atan2_r2(f, g))
}

/// Every operation of `atan2_grad(..)` (and of `f² + g²`) is permitted.
pub open spec fn atan2_grad_ok<S: Scalar + Div<Output = S>>(f: S, g: S, fgi: S, ggi: S) -> bool {
    &&& mul_ok(f, f)
    &&& mul_ok(g, g)
    &&& add_ok(smul(f, f), smul(g, g))
    &&& mul_ok(g, fgi)
    &&& mul_ok(f, ggi)
    &&& sub_ok(smul(g, fgi), smul(f, ggi))
    &&& div_ok(ssub(smul(g, fgi), smul(f, ggi)), atan2_r2(f, g))
}

/// The gradient of `atan2(f, g)`.
pub open spec fn atan2_grads<const N: usize, S: Scalar + Div<Output = S>>(
    f: S,
    g: S,
    fg: [S; N],
    gg: [S; N],
) -> [S; N] {
    tabulate(|i: int| atan2_grad(f, g, fg[i], gg[i]))
}

/// Second derivative of `atan2(f, g)` for the pair `(i, j)` stored at slot
/// `s`, with `q` the gradient of the result and `two` the scalar 2:
/// `(du_ij - q_i dr2_j) / (f² + g²)`, where
/// `du_ij = ∂_j g ∂_i f + g ∂²_ij f - ∂_j f ∂_i g - f ∂²_ij g` and
/// `dr2_j = 2 (f ∂_j f + g ∂_j g)`.
pub open spec fn atan2_hess_entry<const N: usize, const H: usize, S: Scalar + Div<Output = S>>(
    two: S,
    f: S,
    g: S,
    fg: [S; N],
    fh: [S; H],
    gg: [S; N],
    gh: [S; H],
    q: [S; N],
    i: int,
    j: int,
) -> S {
    let s = hess_offset(i, j);
    let du = ssub(
        ssub(sadd(smul(gg[j], fg[i]), smul(g, fh[s])), smul(fg[j], gg[i])),
        smul(f, gh[s]),
    );
    let dr2 = smul(two, sadd(smul(f, fg[j]), smul(g, gg[j])));
    sdiv(ssub(du, smul(q[i], dr2)), atan2_r2(f, g))
}

/// Every operation of `atan2_hess_entry(..)` is permitted.
pub open spec fn atan2_hess_entry_ok<const N: usize, const H: usize, S: Scalar + Div<
    Output = S,
>>(
    two: S,
    f: S,
    g: S,
    fg: [S; N],
    fh: [S; H],
    gg: [S; N],
    gh: [S; H],
    q: [S; N],
    i: int,
    j: int,
) -> bool {
    let s = hess_offset(i, j);
    let a1 = sadd(smul(gg[j], fg[i]), smul(g, fh[s]));
    let a2 = ssub(a1, smul(fg[j], gg[i]));
    let du = ssub(a2, smul(f, gh[s]));
    let dr2 = smul(two, sadd(smul(f, fg[j]), smul(g, gg[j])));
    &&& mul_ok(gg[j], fg[i])
    &&& mul_ok(g, fh[s])
    &&& add_ok(smul(gg[j], fg[i]), smul(g, fh[s]))
    &&& mul_ok(fg[j], gg[i])
    &&& sub_ok(a1, smul(fg[j], gg[i]))
    &&& mul_ok(f, gh[s])
    &&& sub_ok(a2, smul(f, gh[s]))
    &&& mul_ok(f, fg[j])
    &&& mul_ok(g, gg[j])
    &&& add_ok(smul(f, fg[j]), smul(g, gg[j]))
    &&& mul_ok(two, sadd(smul(f, fg[j]), smul(g, gg[j])))
    &&& mul_ok(q[i], dr2)
    &&& sub_ok(du, smul(q[i], dr2))
    &&& div_ok(ssub(du, smul(q[i], dr2)), atan2_r2(f, g))
}

/// The packed Hessian of `atan2(f, g)`.
pub open spec fn atan2_hessian<const N: usize, const H: usize, S: Scalar + Div<Output = S>>(
    two: S,
    f: S,
    g: S,
    fg: [S; N],
    fh: [S; H],
    gg: [S; N],
    gh: [S; H],
    q: [S; N],
) -> [S; H] {
    tabulate(|s: int| atan2_hess_entry(two, f, g, fg, fh, gg, gh, q, hess_pair(s).0, hess_pair(s).1))
}

/// Every operation of the gradient of `atan2(f, g)` is permitted.
pub open spec fn atan2_grads_ok<const N: usize, S: Scalar + Div<Output = S>>(
    f: S,
    g: S,
    fg: [S; N],
    gg: [S; N],
) -> bool {
    &&& mul_ok(f, f)
    &&& mul_ok(g, g)
    &&& add_ok(smul(f, f), smul(g, g))
    &&& forall|i: int| 0 <= i < N ==> atan2_grad_ok(f, g, #[trigger] fg[i], gg[i])
}

/// Every canonical entry of the Hessian of `atan2(f, g)` is computed with
/// permitted operations, whatever value `T::from(2u8)` gives.
pub open spec fn atan2_hessian_ok<const N: usize, const H: usize, S: Scalar + Div<Output = S> + From<
    u8,
>>(f: S, g: S, fg: [S; N], fh: [S; H], gg: [S; N], gh: [S; H], q: [S; N]) -> bool {
    forall|two: S, i: int, j: int|
        is_two(two) && 0 <= j <= i < N ==> #[trigger] atan2_hess_entry_ok(
            two,
            f,
            g,
            fg,
            fh,
            gg,
            gh,
            q,
            i,
            j,
        )
}

/// The gradient of `atan2(f, g)`, entry by entry.
fn atan2_grad_part<const N: usize, S: Scalar + Div<Output = S>>(
    f: S,
    g: S,
    fg: &[S; N],
    gg: &[S; N],
) -> (q: [S; N])
    requires
        total_field::<S>() || (exact_field::<S>() && atan2_grads_ok(f, g, *fg, *gg)),
    ensures
        exact_field::<S>() ==> q == atan2_grads(f, g, *fg, *gg),
{
    let r2 = f * f + g * g;
    let zero = S::default();
    let mut q = [zero; N];
    for i in 0..N
        invariant
            total_field::<S>() || (exact_field::<S>() && atan2_grads_ok(f, g, *fg, *gg)),
            exact_field::<S>() ==> r2 == atan2_r2(f, g),
            exact_field::<S>() ==> forall|ii: int|
                0 <= ii < i ==> #[trigger] q[ii] == atan2_grad(f, g, fg[ii], gg[ii]),
    {
        assert(total_field::<S>() || atan2_grad_ok(f, g, fg[i as int], gg[i as int]));
        q[i] = (g * fg[i] - f * gg[i]) / r2;
    }
    proof {
        if exact_field::<S>() {
            lemma_tabulate::<S, N>(|i: int| atan2_grad(f, g, fg[i], gg[i]));
            lemma_array_ext(q, atan2_grads(f, g, *fg, *gg));
        }
    }
    q
}

/// The packed Hessian of `atan2(f, g)`, canonical pair by canonical pair.
#[verifier::loop_isolation(false)]
fn atan2_hess_part<const N: usize, const H: usize, S: Scalar + Div<Output = S> + From<u8>>(
    f: S,
    g: S,
    fg: &[S; N],
    fh: &[S; H],
    gg: &[S; N],
    gh: &[S; H],
    q: &[S; N],
) -> (r: [S; H])
    requires
        hess_dims(N as int, H as int),
        total_field::<S>() || (exact_field::<S>() && mul_ok(f, f) && mul_ok(g, g) && add_ok(
            smul(f, f),
            smul(g, g),
        ) && atan2_hessian_ok(f, g, *fg, *fh, *gg, *gh, *q)),
    ensures
        exists|two: S|
            #[trigger] is_two(two) && (exact_field::<S>() ==> r == atan2_hessian(
                two,
                f,
                g,
                *fg,
                *fh,
                *gg,
                *gh,
                *q,
            )),
{
    let two = S::from(2u8);
    assert(is_two(two));
    let r2 = f * f + g * g;
    let zero = S::default();
    let mut r = [zero; H];
    for i in 0..N
        invariant
            exact_field::<S>() ==> r2 == atan2_r2(f, g),
            exact_field::<S>() ==> forall|ii: int, jj: int|
                0 <= jj <= ii < i ==> #[trigger] r[hess_offset(ii, jj)] == atan2_hess_entry(
                    two,
                    f,
                    g,
                    *fg,
                    *fh,
                    *gg,
                    *gh,
                    *q,
                    ii,
                    jj,
                ),
    {
        for j in 0..i + 1
            invariant
                i < N,
                exact_field::<S>() ==> r2 == atan2_r2(f, g),
                exact_field::<S>() ==> forall|ii: int, jj: int|
                    0 <= jj <= ii < i ==> #[trigger] r[hess_offset(ii, jj)] == atan2_hess_entry(
                        two,
                        f,
                        g,
                        *fg,
                        *fh,
                        *gg,
                        *gh,
                        *q,
                        ii,
                        jj,
                    ),
                exact_field::<S>() ==> forall|jj: int|
                    0 <= jj < j ==> #[trigger] r[hess_offset(i as int, jj)] == atan2_hess_entry(
                        two,
                        f,
                        g,
                        *fg,
                        *fh,
                        *gg,
                        *gh,
                        *q,
                        i as int,
                        jj,
                    ),
        {
            proof {
                lemma_hess_slot(N as int, H as int, i as int, j as int);
            }
            let idx = hess_idx(i, j);
            assert(total_field::<S>() || atan2_hess_entry_ok(
                two,
                f,
                g,
                *fg,
                *fh,
                *gg,
                *gh,
                *q,
                i as int,
                j as int,
            ));
            let du = gg[j] * fg[i] + g * fh[idx] - fg[j] * gg[i] - f * gh[idx];
            let dr2 = two * (f * fg[j] + g * gg[j]);
            let ghost before = r;
            r[idx] = (du - q[i] * dr2) / r2;
            proof {
                assert forall|ii: int, jj: int|
                    0 <= jj <= ii < N && (ii != i || jj != j) implies #[trigger] r[hess_offset(
                    ii,
                    jj,
                )] == before[hess_offset(ii, jj)] by {
                    lemma_hess_slot(N as int, H as int, ii, jj);
                    if hess_offset(ii, jj) == idx {
                        lemma_hess_offset_injective(ii, jj, i as int, j as int);
                    }
                }
            }
        }
    }
    proof {
        if exact_field::<S>() {
            let m = atan2_hessian(two, f, g, *fg, *fh, *gg, *gh, *q);
            lemma_tabulate::<S, H>(
                |s: int|
                    atan2_hess_entry(
                        two,
                        f,
                        g,
                        *fg,
                        *fh,
                        *gg,
                        *gh,
                        *q,
                        hess_pair(s).0,
                        hess_pair(s).1,
                    ),
            );
            assert forall|s: int| 0 <= s < H implies r[s] == m[s] by {
                lemma_triangular_exact(N as int);
                lemma_hess_offset_onto(N as int, s);
                let (i, j) = choose|i: int, j: int|
                    0 <= j <= i < N && #[trigger] hess_offset(i, j) == s;
                lemma_hess_pair(i, j);
            }
            lemma_array_ext(r, m);
        }
    }
    r
}

impl<const N: usize, S: Scalar + Div<Output = S>> Jet1<N, S> {
    /// The jet of `atan2(f, g)` for `f = self`, `g = other`, given the angle
    /// `atan2(f, g)` of the values: gradient
    /// `(g ∇f - f ∇g) / (f² + g²)`.
    pub fn atan2_with(self, other: Self, angle: S) -> (r: Self)
        requires
            total_field::<S>() || (exact_field::<S>() && atan2_grads_ok(
                self.value,
                other.value,
                self.grad,
                other.grad,
            )),
        ensures
            r.value == angle,
            exact_field::<S>() ==> r.grad == atan2_grads(
                self.value,
                other.value,
                self.grad,
                other.grad,
            ),
    {
        Jet1 { value: angle, grad: atan2_grad_part(self.value, other.value, &self.grad, &other.grad) }
    }
}

impl<const N: usize, const H: usize, S: Scalar + Div<Output = S> + From<u8>> Jet2<N, H, S> {
    /// The jet of `atan2(f, g)` for `f = self`, `g = other`, given the angle
    /// of the values: gradient as for first-order jets, Hessian entries
    /// `(du_ij - q_i dr2_j) / (f² + g²)` (see `atan2_hess_entry`).
    pub fn atan2_with(self, other: Self, angle: S) -> (r: Self)
        requires
            hess_dims(N as int, H as int),
            total_field::<S>() || (exact_field::<S>() && atan2_grads_ok(
                self.value,
                other.value,
                self.grad,
                other.grad,
            ) && atan2_hessian_ok(
                self.value,
                other.value,
                self.grad,
                self.hess,
                other.grad,
                other.hess,
                atan2_grads(self.value, other.value, self.grad, other.grad),
            )),
        ensures
            r.value == angle,
            exact_field::<S>() ==> r.grad == atan2_grads(
                self.value,
                other.value,
                self.grad,
                other.grad,
            ),
            exists|two: S|
                #[trigger] is_two(two) && (exact_field::<S>() ==> r.hess == atan2_hessian(
                    two,
                    self.value,
                    other.value,
                    self.grad,
                    self.hess,
                    other.grad,
                    other.hess,
                    r.grad,
                )),
    {
        let grad = atan2_grad_part(self.value, other.value, &self.grad, &other.grad);
        let hess = atan2_hess_part(
            self.value,
            other.value,
            &self.grad,
            &self.hess,
            &other.grad,
            &other.hess,
            &grad,
        );
        Jet2 { value: angle, grad, hess }
    }
}

impl<const N: usize, const H: usize, const T: usize, S: Scalar + Div<Output = S> + From<u8>> Jet3<
    N,
    H,
    T,
    S,
> {
    /// The jet of `atan2(f, g)` for `f = self`, `g = other`, given the angle
    /// of the values and the third-order tensor (that of `atan(f / g)`, the
    /// quadrant correction being constant): gradient and Hessian as for
    /// second-order jets.
    pub fn atan2_with(self, other: Self, angle: S, tens: [S; T]) -> (r: Self)
        requires
            tens_dims(N as int, H as int, T as int),
            total_field::<S>() || (exact_field::<S>() && atan2_grads_ok(
                self.value,
                other.value,
                self.grad,
                other.grad,
            ) && atan2_hessian_ok(
                self.value,
                other.value,
                self.grad,
                self.hess,
                other.grad,
                other.hess,
                atan2_grads(self.value, other.value, self.grad, other.grad),
            )),
        ensures
            r.value == angle,
            r.tens == tens,
            exact_field::<S>() ==> r.grad == atan2_grads(
                self.value,
                other.value,
                self.grad,
                other.grad,
            ),
            exists|two: S|
                #[trigger] is_two(two) && (exact_field::<S>() ==> r.hess == atan2_hessian(
                    two,
                    self.value,
                    other.value,
                    self.grad,
                    self.hess,
                    other.grad,
                    other.hess,
                    r.grad,
                )),
    {
        proof {
            lemma_tens_dims_hess(N as int, H as int, T as int);
        }
        let grad = atan2_grad_part(self.value, other.value, &self.grad, &other.grad);
        let hess = atan2_hess_part(
            self.value,
            other.value,
            &self.grad,
            &self.hess,
            &other.grad,
            &other.hess,
            &grad,
        );
        Jet3 { value: angle, grad, hess, tens }
    }
}

} // verus!
