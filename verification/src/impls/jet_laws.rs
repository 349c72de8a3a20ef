//! What jet arithmetic computes, stated in plain integer arithmetic.
//!
//! For jets over `i64` whose entries are small enough that no operation
//! overflows (`small`: magnitude at most `2^15`), each law gives the
//! entries of a result as the integer expression that calculus assigns to
//! it: linearity for sums and scalar operations, the Leibniz rule for
//! products, the quotient rule as the inverse of the product rule, and
//! Faà di Bruno's formula for composition. Constant jets made from small
//! integers have zero derivatives.
use crate::impls::jet_chain::{chain_grads, chain_hess_entry, chain_hessian, chain_tens_at, chain_tensor};
use crate::impls::jet_ops::{
    jet1_add,
    jet1_sub,
    jet1_neg,
    jet1_mul,
    jet1_div,
    jet1_add_scalar,
    jet1_sub_scalar,
    jet1_scale,
    jet2_add,
    jet2_sub,
    jet2_neg,
    jet2_mul,
    jet2_div,
    jet2_add_scalar,
    jet2_sub_scalar,
    jet2_scale,
    jet3_add,
    jet3_sub,
    jet3_neg,
    jet3_mul,
    jet3_add_scalar,
    jet3_div,
    quotient_tensor,
    quotient_tens,
    jet3_sub_scalar,
    jet3_scale,
    scaled,
    quotient_grads,
    quotient_hessian,
    lemma_jet2_mul_hess,
    lemma_jet3_mul_hess,
    lemma_jet3_mul_tens,
    jet3_mul_tens,
    jet3_mul_tens_terms,
    sum_left,
};
use crate::jets::{
    Jet1,
    Jet2,
    Jet3,
    hess_dims,
    hess_offset,
    hess_pair,
    lemma_hess_offset_in_bounds,
    lemma_hess_pair,
    lemma_tabulate,
    lemma_tens_offset_in_bounds,
    lemma_tens_triple,
    tens_dims,
    tens_offset,
    tens_triple,
};
use crate::scalar::{Halve, Scalar, sadd, ssub, smul, sneg, sdiv};
use vstd::std_specs::convert::FromSpec;
use vstd::prelude::*;

verus! {

/// `x` is small enough that products of up to four small values, and sums
/// of a few such products, stay far inside `i64`: `|x| <= 2^15`.
pub open spec fn small(x: i64) -> bool {
    -32768 <= x <= 32768
}

/// Every entry of `a` is small.
pub open spec fn all_small<const L: usize>(a: [i64; L]) -> bool {
    forall|i: int| 0 <= i < L ==> small(#[trigger] a[i])
}

/// Every entry of the first-order jet `a` is small.
pub open spec fn jet1_small<const N: usize>(a: Jet1<N, i64>) -> bool {
    small(a.value) && all_small(a.grad)
}

/// Every entry of the second-order jet `a` is small.
pub open spec fn jet2_small<const N: usize, const H: usize>(a: Jet2<N, H, i64>) -> bool {
    small(a.value) && all_small(a.grad) && all_small(a.hess)
}

/// Every entry of the third-order jet `a` is small.
pub open spec fn jet3_small<const N: usize, const H: usize, const T: usize>(
    a: Jet3<N, H, T, i64>,
) -> bool {
    small(a.value) && all_small(a.grad) && all_small(a.hess) && all_small(a.tens)
}

/// A product of two values bounded by `mx` and `my` is bounded by `mx my`.
proof fn lemma_mul_bound(x: int, y: int, mx: int, my: int)
    requires
        0 <= mx,
        0 <= my,
        -mx <= x <= mx,
        -my <= y <= my,
    ensures
        -(mx * my) <= x * y <= mx * my,
{
    assert(-(mx * my) <= x * y <= mx * my) by (nonlinear_arith)
        requires
            0 <= mx,
            0 <= my,
            -mx <= x <= mx,
            -my <= y <= my,
    ;
}

// ─── Sums, differences, negation ────────────────────────────────────────

/// `a + b` and `a - b` of first-order jets add and subtract entry by entry.
pub proof fn lemma_jet1_add_sub_i64<const N: usize>(a: Jet1<N, i64>, b: Jet1<N, i64>)
    requires
        jet1_small(a),
        jet1_small(b),
    ensures
        jet1_add(a, b).value == a.value + b.value,
        jet1_sub(a, b).value == a.value - b.value,
        forall|i: int| 0 <= i < N ==> #[trigger] jet1_add(a, b).grad[i] == a.grad[i] + b.grad[i],
        forall|i: int| 0 <= i < N ==> #[trigger] jet1_sub(a, b).grad[i] == a.grad[i] - b.grad[i],
{
    lemma_tabulate::<i64, N>(|i: int| sadd(a.grad[i], b.grad[i]));
    lemma_tabulate::<i64, N>(|i: int| ssub(a.grad[i], b.grad[i]));
    assert forall|i: int| 0 <= i < N implies #[trigger] jet1_add(a, b).grad[i] == a.grad[i] + b.grad[i]
        && jet1_sub(a, b).grad[i] == a.grad[i] - b.grad[i] by {
        assert(small(a.grad[i]) && small(b.grad[i]));
    }
}

/// `a + b` and `a - b` of second-order jets add and subtract entry by
/// entry.
pub proof fn lemma_jet2_add_sub_i64<const N: usize, const H: usize>(
    a: Jet2<N, H, i64>,
    b: Jet2<N, H, i64>,
)
    requires
        jet2_small(a),
        jet2_small(b),
    ensures
        jet2_add(a, b).value == a.value + b.value,
        jet2_sub(a, b).value == a.value - b.value,
        forall|i: int| 0 <= i < N ==> #[trigger] jet2_add(a, b).grad[i] == a.grad[i] + b.grad[i],
        forall|i: int| 0 <= i < N ==> #[trigger] jet2_sub(a, b).grad[i] == a.grad[i] - b.grad[i],
        forall|s: int| 0 <= s < H ==> #[trigger] jet2_add(a, b).hess[s] == a.hess[s] + b.hess[s],
        forall|s: int| 0 <= s < H ==> #[trigger] jet2_sub(a, b).hess[s] == a.hess[s] - b.hess[s],
{
    lemma_tabulate::<i64, N>(|i: int| sadd(a.grad[i], b.grad[i]));
    lemma_tabulate::<i64, N>(|i: int| ssub(a.grad[i], b.grad[i]));
    lemma_tabulate::<i64, H>(|i: int| sadd(a.hess[i], b.hess[i]));
    lemma_tabulate::<i64, H>(|i: int| ssub(a.hess[i], b.hess[i]));
    assert forall|i: int| 0 <= i < N implies #[trigger] jet2_add(a, b).grad[i] == a.grad[i] + b.grad[i]
        && jet2_sub(a, b).grad[i] == a.grad[i] - b.grad[i] by {
        assert(small(a.grad[i]) && small(b.grad[i]));
    }
    assert forall|s: int| 0 <= s < H implies #[trigger] jet2_add(a, b).hess[s] == a.hess[s] + b.hess[s]
        && jet2_sub(a, b).hess[s] == a.hess[s] - b.hess[s] by {
        assert(small(a.hess[s]) && small(b.hess[s]));
    }
}

/// `a + b` and `a - b` of third-order jets add and subtract entry by entry.
pub proof fn lemma_jet3_add_sub_i64<const N: usize, const H: usize, const T: usize>(
    a: Jet3<N, H, T, i64>,
    b: Jet3<N, H, T, i64>,
)
    requires
        jet3_small(a),
        jet3_small(b),
    ensures
        jet3_add(a, b).value == a.value + b.value,
        jet3_sub(a, b).value == a.value - b.value,
        forall|i: int| 0 <= i < N ==> #[trigger] jet3_add(a, b).grad[i] == a.grad[i] + b.grad[i],
        forall|i: int| 0 <= i < N ==> #[trigger] jet3_sub(a, b).grad[i] == a.grad[i] - b.grad[i],
        forall|s: int| 0 <= s < H ==> #[trigger] jet3_add(a, b).hess[s] == a.hess[s] + b.hess[s],
        forall|s: int| 0 <= s < H ==> #[trigger] jet3_sub(a, b).hess[s] == a.hess[s] - b.hess[s],
        forall|s: int| 0 <= s < T ==> #[trigger] jet3_add(a, b).tens[s] == a.tens[s] + b.tens[s],
        forall|s: int| 0 <= s < T ==> #[trigger] jet3_sub(a, b).tens[s] == a.tens[s] - b.tens[s],
{
    lemma_tabulate::<i64, N>(|i: int| sadd(a.grad[i], b.grad[i]));
    lemma_tabulate::<i64, N>(|i: int| ssub(a.grad[i], b.grad[i]));
    lemma_tabulate::<i64, H>(|i: int| sadd(a.hess[i], b.hess[i]));
    lemma_tabulate::<i64, H>(|i: int| ssub(a.hess[i], b.hess[i]));
    lemma_tabulate::<i64, T>(|i: int| sadd(a.tens[i], b.tens[i]));
    lemma_tabulate::<i64, T>(|i: int| ssub(a.tens[i], b.tens[i]));
    assert forall|i: int| 0 <= i < N implies #[trigger] jet3_add(a, b).grad[i] == a.grad[i] + b.grad[i]
        && jet3_sub(a, b).grad[i] == a.grad[i] - b.grad[i] by {
        assert(small(a.grad[i]) && small(b.grad[i]));
    }
    assert forall|s: int| 0 <= s < H implies #[trigger] jet3_add(a, b).hess[s] == a.hess[s] + b.hess[s]
        && jet3_sub(a, b).hess[s] == a.hess[s] - b.hess[s] by {
        assert(small(a.hess[s]) && small(b.hess[s]));
    }
    assert forall|s: int| 0 <= s < T implies #[trigger] jet3_add(a, b).tens[s] == a.tens[s] + b.tens[s]
        && jet3_sub(a, b).tens[s] == a.tens[s] - b.tens[s] by {
        assert(small(a.tens[s]) && small(b.tens[s]));
    }
}

/// `-a` negates every entry of a first-order jet.
pub proof fn lemma_jet1_neg_i64<const N: usize>(a: Jet1<N, i64>)
    requires
        jet1_small(a),
    ensures
        jet1_neg(a).value == -a.value,
        forall|i: int| 0 <= i < N ==> #[trigger] jet1_neg(a).grad[i] == -a.grad[i],
{
    lemma_tabulate::<i64, N>(|i: int| sneg(a.grad[i]));
    assert forall|i: int| 0 <= i < N implies #[trigger] jet1_neg(a).grad[i] == -a.grad[i] by {
        assert(small(a.grad[i]));
    }
}

/// `-a` negates every entry of a second-order jet.
pub proof fn lemma_jet2_neg_i64<const N: usize, const H: usize>(a: Jet2<N, H, i64>)
    requires
        jet2_small(a),
    ensures
        jet2_neg(a).value == -a.value,
        forall|i: int| 0 <= i < N ==> #[trigger] jet2_neg(a).grad[i] == -a.grad[i],
        forall|s: int| 0 <= s < H ==> #[trigger] jet2_neg(a).hess[s] == -a.hess[s],
{
    lemma_tabulate::<i64, N>(|i: int| sneg(a.grad[i]));
    lemma_tabulate::<i64, H>(|i: int| sneg(a.hess[i]));
    assert forall|i: int| 0 <= i < N implies #[trigger] jet2_neg(a).grad[i] == -a.grad[i] by {
        assert(small(a.grad[i]));
    }
    assert forall|s: int| 0 <= s < H implies #[trigger] jet2_neg(a).hess[s] == -a.hess[s] by {
        assert(small(a.hess[s]));
    }
}

/// `-a` negates every entry of a third-order jet.
pub proof fn lemma_jet3_neg_i64<const N: usize, const H: usize, const T: usize>(
    a: Jet3<N, H, T, i64>,
)
    requires
        jet3_small(a),
    ensures
        jet3_neg(a).value == -a.value,
        forall|i: int| 0 <= i < N ==> #[trigger] jet3_neg(a).grad[i] == -a.grad[i],
        forall|s: int| 0 <= s < H ==> #[trigger] jet3_neg(a).hess[s] == -a.hess[s],
        forall|s: int| 0 <= s < T ==> #[trigger] jet3_neg(a).tens[s] == -a.tens[s],
{
    lemma_tabulate::<i64, N>(|i: int| sneg(a.grad[i]));
    lemma_tabulate::<i64, H>(|i: int| sneg(a.hess[i]));
    lemma_tabulate::<i64, T>(|i: int| sneg(a.tens[i]));
    assert forall|i: int| 0 <= i < N implies #[trigger] jet3_neg(a).grad[i] == -a.grad[i] by {
        assert(small(a.grad[i]));
    }
    assert forall|s: int| 0 <= s < H implies #[trigger] jet3_neg(a).hess[s] == -a.hess[s] by {
        assert(small(a.hess[s]));
    }
    assert forall|s: int| 0 <= s < T implies #[trigger] jet3_neg(a).tens[s] == -a.tens[s] by {
        assert(small(a.tens[s]));
    }
}

// ─── Scalar operands ────────────────────────────────────────────────────

/// `a + k` and `a - k` shift the value of a first-order jet by `k` and
/// keep every derivative; `a * k` multiplies every entry by `k`.
pub proof fn lemma_jet1_scalar_ops_i64<const N: usize>(a: Jet1<N, i64>, k: i64)
    requires
        jet1_small(a),
        small(k),
    ensures
        jet1_add_scalar(a, k).value == a.value + k,
        jet1_sub_scalar(a, k).value == a.value - k,
        jet1_add_scalar(a, k).grad == a.grad,
        jet1_sub_scalar(a, k).grad == a.grad,
        jet1_scale(a, k).value == a.value * k,
        forall|i: int| 0 <= i < N ==> #[trigger] jet1_scale(a, k).grad[i] == a.grad[i] * k,
{
    lemma_mul_bound(a.value as int, k as int, 32768, 32768);
    lemma_tabulate::<i64, N>(|i: int| smul(a.grad[i], k));
    assert forall|i: int| 0 <= i < N implies #[trigger] jet1_scale(a, k).grad[i] == a.grad[i] * k by {
        assert(small(a.grad[i]));
        lemma_mul_bound(a.grad[i] as int, k as int, 32768, 32768);
        assert(scaled(a.grad, k)[i] == smul(a.grad[i], k));
    }
}

/// `a + k` and `a - k` shift the value of a second-order jet by `k` and
/// keep every derivative; `a * k` multiplies every entry by `k`.
pub proof fn lemma_jet2_scalar_ops_i64<const N: usize, const H: usize>(a: Jet2<N, H, i64>, k: i64)
    requires
        jet2_small(a),
        small(k),
    ensures
        jet2_add_scalar(a, k).value == a.value + k,
        jet2_sub_scalar(a, k).value == a.value - k,
        jet2_add_scalar(a, k).grad == a.grad && jet2_add_scalar(a, k).hess == a.hess,
        jet2_sub_scalar(a, k).grad == a.grad && jet2_sub_scalar(a, k).hess == a.hess,
        jet2_scale(a, k).value == a.value * k,
        forall|i: int| 0 <= i < N ==> #[trigger] jet2_scale(a, k).grad[i] == a.grad[i] * k,
        forall|s: int| 0 <= s < H ==> #[trigger] jet2_scale(a, k).hess[s] == a.hess[s] * k,
{
    lemma_mul_bound(a.value as int, k as int, 32768, 32768);
    lemma_tabulate::<i64, N>(|i: int| smul(a.grad[i], k));
    lemma_tabulate::<i64, H>(|i: int| smul(a.hess[i], k));
    assert forall|i: int| 0 <= i < N implies #[trigger] jet2_scale(a, k).grad[i] == a.grad[i] * k by {
        assert(small(a.grad[i]));
        lemma_mul_bound(a.grad[i] as int, k as int, 32768, 32768);
        assert(scaled(a.grad, k)[i] == smul(a.grad[i], k));
    }
    assert forall|s: int| 0 <= s < H implies #[trigger] jet2_scale(a, k).hess[s] == a.hess[s] * k by {
        assert(small(a.hess[s]));
        lemma_mul_bound(a.hess[s] as int, k as int, 32768, 32768);
        assert(scaled(a.hess, k)[s] == smul(a.hess[s], k));
    }
}

/// `a + k` and `a - k` shift the value of a third-order jet by `k` and
/// keep every derivative; `a * k` multiplies every entry by `k`.
pub proof fn lemma_jet3_scalar_ops_i64<const N: usize, const H: usize, const T: usize>(
    a: Jet3<N, H, T, i64>,
    k: i64,
)
    requires
        jet3_small(a),
        small(k),
    ensures
        jet3_add_scalar(a, k).value == a.value + k,
        jet3_sub_scalar(a, k).value == a.value - k,
        jet3_add_scalar(a, k).grad == a.grad && jet3_add_scalar(a, k).hess == a.hess
            && jet3_add_scalar(a, k).tens == a.tens,
        jet3_sub_scalar(a, k).grad == a.grad && jet3_sub_scalar(a, k).hess == a.hess
            && jet3_sub_scalar(a, k).tens == a.tens,
        jet3_scale(a, k).value == a.value * k,
        forall|i: int| 0 <= i < N ==> #[trigger] jet3_scale(a, k).grad[i] == a.grad[i] * k,
        forall|s: int| 0 <= s < H ==> #[trigger] jet3_scale(a, k).hess[s] == a.hess[s] * k,
        forall|s: int| 0 <= s < T ==> #[trigger] jet3_scale(a, k).tens[s] == a.tens[s] * k,
{
    lemma_mul_bound(a.value as int, k as int, 32768, 32768);
    lemma_tabulate::<i64, N>(|i: int| smul(a.grad[i], k));
    lemma_tabulate::<i64, H>(|i: int| smul(a.hess[i], k));
    lemma_tabulate::<i64, T>(|i: int| smul(a.tens[i], k));
    assert forall|i: int| 0 <= i < N implies #[trigger] jet3_scale(a, k).grad[i] == a.grad[i] * k by {
        assert(small(a.grad[i]));
        lemma_mul_bound(a.grad[i] as int, k as int, 32768, 32768);
        assert(scaled(a.grad, k)[i] == smul(a.grad[i], k));
    }
    assert forall|s: int| 0 <= s < H implies #[trigger] jet3_scale(a, k).hess[s] == a.hess[s] * k by {
        assert(small(a.hess[s]));
        lemma_mul_bound(a.hess[s] as int, k as int, 32768, 32768);
        assert(scaled(a.hess, k)[s] == smul(a.hess[s], k));
    }
    assert forall|s: int| 0 <= s < T implies #[trigger] jet3_scale(a, k).tens[s] == a.tens[s] * k by {
        assert(small(a.tens[s]));
        lemma_mul_bound(a.tens[s] as int, k as int, 32768, 32768);
        assert(scaled(a.tens, k)[s] == smul(a.tens[s], k));
    }
}

// ─── Chain rule ─────────────────────────────────────────────────────────

/// First-order chain rule: entry `i` of the gradient of `φ ∘ f` is
/// `φ' ∂_i f`.
pub proof fn lemma_chain_grads_i64<const N: usize>(p1: i64, g: [i64; N])
    requires
        small(p1),
        all_small(g),
    ensures
        forall|i: int| 0 <= i < N ==> #[trigger] chain_grads(p1, g)[i] == p1 * g[i],
{
    lemma_tabulate::<i64, N>(|i: int| smul(p1, g[i]));
    assert forall|i: int| 0 <= i < N implies #[trigger] chain_grads(p1, g)[i] == p1 * g[i] by {
        assert(small(g[i]));
        lemma_mul_bound(p1 as int, g[i] as int, 32768, 32768);
    }
}

/// Second-order chain rule: entry `(i, j)` of the Hessian of `φ ∘ f` is
/// `φ' ∂²_ij f + φ'' ∂_i f ∂_j f`.
pub proof fn lemma_chain_hessian_i64<const N: usize, const H: usize>(
    p1: i64,
    p2: i64,
    g: [i64; N],
    h: [i64; H],
)
    requires
        hess_dims(N as int, H as int),
        small(p1),
        small(p2),
        all_small(g),
        all_small(h),
    ensures
        forall|i: int, j: int|
            0 <= j <= i < N ==> #[trigger] chain_hessian(p1, p2, g, h)[hess_offset(i, j)] == p1 * h[hess_offset(
                i,
                j,
            )] + p2 * g[i] * g[j],
{
    lemma_tabulate::<i64, H>(
        |s: int| chain_hess_entry(p1, p2, g, h, hess_pair(s).0, hess_pair(s).1),
    );
    assert forall|i: int, j: int| 0 <= j <= i < N implies #[trigger] chain_hessian(p1, p2, g, h)[hess_offset(
        i,
        j,
    )] == p1 * h[hess_offset(i, j)] + p2 * g[i] * g[j] by {
        let s = hess_offset(i, j);
        lemma_hess_offset_in_bounds(N as int, i, j);
        lemma_hess_pair(i, j);
        assert(small(h[s]) && small(g[i]) && small(g[j]));
        lemma_mul_bound(p1 as int, h[s] as int, 32768, 32768);
        lemma_mul_bound(p2 as int, g[i] as int, 32768, 32768);
        lemma_mul_bound(p2 * g[i], g[j] as int, 1073741824, 32768);
    }
}

/// Third-order chain rule (Faà di Bruno): entry `(i, j, k)` of the tensor
/// of `φ ∘ f` is `φ' ∂³_ijk f + φ'' (∂_i f ∂²_jk f + ∂_j f ∂²_ik f +
/// ∂_k f ∂²_ij f) + φ''' ∂_i f ∂_j f ∂_k f`, whichever grouping of the
/// last product is used.
pub proof fn lemma_chain_tensor_i64<const N: usize, const H: usize, const T: usize>(
    factored: bool,
    p1: i64,
    p2: i64,
    p3: i64,
    g: [i64; N],
    h: [i64; H],
    t: [i64; T],
)
    requires
        tens_dims(N as int, H as int, T as int),
        small(p1),
        small(p2),
        small(p3),
        all_small(g),
        all_small(h),
        all_small(t),
    ensures
        forall|i: int, j: int, k: int|
            0 <= k <= j <= i < N ==> #[trigger] chain_tensor(factored, p1, p2, p3, g, h, t)[tens_offset(
                i,
                j,
                k,
            )] == p1 * t[tens_offset(i, j, k)] + p2 * (g[i] * h[hess_offset(j, k)] + g[j] * h[hess_offset(
                i,
                k,
            )] + g[k] * h[hess_offset(i, j)]) + p3 * g[i] * g[j] * g[k],
{
    assert forall|i: int, j: int, k: int| 0 <= k <= j <= i < N implies #[trigger] chain_tensor(
        factored,
        p1,
        p2,
        p3,
        g,
        h,
        t,
    )[tens_offset(i, j, k)] == p1 * t[tens_offset(i, j, k)] + p2 * (g[i] * h[hess_offset(j, k)]
        + g[j] * h[hess_offset(i, k)] + g[k] * h[hess_offset(i, j)]) + p3 * g[i] * g[j] * g[k] by {
        lemma_chain_tens_entry_i64(factored, p1, p2, p3, g, h, t, i, j, k);
    }
}

/// One entry of `lemma_chain_tensor_i64`.
proof fn lemma_chain_tens_entry_i64<const N: usize, const H: usize, const T: usize>(
    factored: bool,
    p1: i64,
    p2: i64,
    p3: i64,
    g: [i64; N],
    h: [i64; H],
    t: [i64; T],
    i: int,
    j: int,
    k: int,
)
    requires
        tens_dims(N as int, H as int, T as int),
        small(p1),
        small(p2),
        small(p3),
        all_small(g),
        all_small(h),
        all_small(t),
        0 <= k <= j <= i < N,
    ensures
        chain_tensor(factored, p1, p2, p3, g, h, t)[tens_offset(i, j, k)] == p1 * t[tens_offset(i, j, k)]
            + p2 * (g[i] * h[hess_offset(j, k)] + g[j] * h[hess_offset(i, k)] + g[k] * h[hess_offset(
            i,
            j,
        )]) + p3 * g[i] * g[j] * g[k],
{
    let b: int = 32768;
    let ts = tens_offset(i, j, k);
    let hjk = hess_offset(j, k);
    let hik = hess_offset(i, k);
    let hij = hess_offset(i, j);
    lemma_tens_offset_in_bounds(N as int, i, j, k);
    lemma_hess_offset_in_bounds(N as int, j, k);
    lemma_hess_offset_in_bounds(N as int, i, k);
    lemma_hess_offset_in_bounds(N as int, i, j);
    crate::impls::jet_ops::lemma_tens_dims_hess(N as int, H as int, T as int);
    lemma_tens_triple(i, j, k);
    lemma_tabulate::<i64, T>(
        |s: int|
            chain_tens_at(
                factored,
                p1,
                p2,
                p3,
                g,
                h,
                t,
                tens_triple(s).0,
                tens_triple(s).1,
                tens_triple(s).2,
            ),
    );
    let (gi, gj, gk) = (g[i] as int, g[j] as int, g[k] as int);
    assert(small(g[i]) && small(g[j]) && small(g[k]));
    assert(small(h[hjk]) && small(h[hik]) && small(h[hij]) && small(t[ts]));
    lemma_mul_bound(gi, h[hjk] as int, b, b);
    lemma_mul_bound(gj, h[hik] as int, b, b);
    lemma_mul_bound(gk, h[hij] as int, b, b);
    let ghs = gi * h[hjk] + gj * h[hik] + gk * h[hij];
    lemma_mul_bound(p2 as int, ghs, b, 3 * b * b);
    lemma_mul_bound(p1 as int, t[ts] as int, b, b);
    lemma_mul_bound(p3 as int, gi, b, b);
    lemma_mul_bound(p3 * gi, gj, b * b, b);
    lemma_mul_bound(p3 * gi * gj, gk, b * b * b, b);
    lemma_mul_bound(gi, gj, b, b);
    lemma_mul_bound(gi * gj, gk, b * b, b);
    lemma_mul_bound(p3 as int, gi * gj * gk, b, b * b * b);
    assert(p3 * (gi * gj * gk) == p3 * gi * gj * gk) by (nonlinear_arith);
}

// ─── Products ───────────────────────────────────────────────────────────

/// Product rule for first-order jets: the value of `a * b` is `a b` and
/// entry `i` of its gradient is `a ∂_i b + b ∂_i a`.
pub proof fn lemma_jet1_mul_i64<const N: usize>(a: Jet1<N, i64>, b: Jet1<N, i64>)
    requires
        jet1_small(a),
        jet1_small(b),
    ensures
        jet1_mul(a, b).value == a.value * b.value,
        forall|i: int|
            0 <= i < N ==> #[trigger] jet1_mul(a, b).grad[i] == a.value * b.grad[i] + b.value * a.grad[i],
{
    let m: int = 32768;
    lemma_mul_bound(a.value as int, b.value as int, m, m);
    lemma_tabulate::<i64, N>(
        |i: int| crate::impls::jet_ops::product_grad(a.value, a.grad[i], b.value, b.grad[i]),
    );
    assert forall|i: int| 0 <= i < N implies #[trigger] jet1_mul(a, b).grad[i] == a.value * b.grad[i]
        + b.value * a.grad[i] by {
        assert(small(a.grad[i]) && small(b.grad[i]));
        lemma_mul_bound(a.value as int, b.grad[i] as int, m, m);
        lemma_mul_bound(b.value as int, a.grad[i] as int, m, m);
    }
}

/// The second-order Leibniz rule for one canonical pair `(i, j)`:
/// `a ∂²_ij b + b ∂²_ij a + ∂_i a ∂_j b + ∂_j a ∂_i b`.
pub open spec fn leibniz2(av: int, ah: int, agi: int, agj: int, bv: int, bh: int, bgi: int, bgj: int) -> int {
    av * bh + bv * ah + agi * bgj + agj * bgi
}

/// The second-order Leibniz sum of small values is what the product
/// Hessian entry computes.
proof fn lemma_product_hess_i64(
    av: i64,
    ah: i64,
    agi: i64,
    agj: i64,
    bv: i64,
    bh: i64,
    bgi: i64,
    bgj: i64,
)
    requires
        small(av),
        small(ah),
        small(agi),
        small(agj),
        small(bv),
        small(bh),
        small(bgi),
        small(bgj),
    ensures
        crate::impls::jet_ops::product_hess(av, ah, agi, agj, bv, bh, bgi, bgj) == leibniz2(
            av as int,
            ah as int,
            agi as int,
            agj as int,
            bv as int,
            bh as int,
            bgi as int,
            bgj as int,
        ),
{
    let m: int = 32768;
    lemma_mul_bound(av as int, bh as int, m, m);
    lemma_mul_bound(bv as int, ah as int, m, m);
    lemma_mul_bound(agi as int, bgj as int, m, m);
    lemma_mul_bound(agj as int, bgi as int, m, m);
}

/// Product rule for second-order jets: value and gradient as for
/// first-order jets, and entry `(i, j)` of the Hessian of `a * b` is the
/// second-order Leibniz sum.
pub proof fn lemma_jet2_mul_i64<const N: usize, const H: usize>(a: Jet2<N, H, i64>, b: Jet2<N, H, i64>)
    requires
        hess_dims(N as int, H as int),
        jet2_small(a),
        jet2_small(b),
    ensures
        jet2_mul(a, b).value == a.value * b.value,
        forall|i: int|
            0 <= i < N ==> #[trigger] jet2_mul(a, b).grad[i] == a.value * b.grad[i] + b.value * a.grad[i],
        forall|i: int, j: int|
            0 <= j <= i < N ==> #[trigger] jet2_mul(a, b).hess[hess_offset(i, j)] == leibniz2(
                a.value as int,
                a.hess[hess_offset(i, j)] as int,
                a.grad[i] as int,
                a.grad[j] as int,
                b.value as int,
                b.hess[hess_offset(i, j)] as int,
                b.grad[i] as int,
                b.grad[j] as int,
            ),
{
    let m: int = 32768;
    lemma_mul_bound(a.value as int, b.value as int, m, m);
    lemma_tabulate::<i64, N>(
        |i: int| crate::impls::jet_ops::product_grad(a.value, a.grad[i], b.value, b.grad[i]),
    );
    assert forall|i: int| 0 <= i < N implies #[trigger] jet2_mul(a, b).grad[i] == a.value * b.grad[i]
        + b.value * a.grad[i] by {
        assert(small(a.grad[i]) && small(b.grad[i]));
        lemma_mul_bound(a.value as int, b.grad[i] as int, m, m);
        lemma_mul_bound(b.value as int, a.grad[i] as int, m, m);
    }
    assert forall|i: int, j: int| 0 <= j <= i < N implies #[trigger] jet2_mul(a, b).hess[hess_offset(
        i,
        j,
    )] == leibniz2(
        a.value as int,
        a.hess[hess_offset(i, j)] as int,
        a.grad[i] as int,
        a.grad[j] as int,
        b.value as int,
        b.hess[hess_offset(i, j)] as int,
        b.grad[i] as int,
        b.grad[j] as int,
    ) by {
        let s = hess_offset(i, j);
        lemma_jet2_mul_hess(a, b, i, j);
        lemma_hess_offset_in_bounds(N as int, i, j);
        assert(small(a.hess[s]) && small(b.hess[s]) && small(a.grad[i]) && small(a.grad[j]));
        assert(small(b.grad[i]) && small(b.grad[j]));
        lemma_product_hess_i64(
            a.value,
            a.hess[s],
            a.grad[i],
            a.grad[j],
            b.value,
            b.hess[s],
            b.grad[i],
            b.grad[j],
        );
    }
}

/// The third-order Leibniz sum for the canonical triple `(i, j, k)`:
/// `a ∂³b + b ∂³a + ∂_i a ∂²_jk b + ∂_j a ∂²_ik b + ∂_k a ∂²_ij b
/// + ∂_i b ∂²_jk a + ∂_j b ∂²_ik a + ∂_k b ∂²_ij a`.
pub open spec fn leibniz3<const N: usize, const H: usize, const T: usize>(
    a: Jet3<N, H, T, i64>,
    b: Jet3<N, H, T, i64>,
    i: int,
    j: int,
    k: int,
) -> int {
    let t = tens_offset(i, j, k);
    let hij = hess_offset(i, j);
    let hik = hess_offset(i, k);
    let hjk = hess_offset(j, k);
    a.value * b.tens[t] + b.value * a.tens[t] + a.grad[i] * b.hess[hjk] + a.grad[j] * b.hess[hik]
        + a.grad[k] * b.hess[hij] + b.grad[i] * a.hess[hjk] + b.grad[j] * a.hess[hik] + b.grad[k]
        * a.hess[hij]
}

/// Product rule for third-order jets: value, gradient and Hessian as for
/// lower orders, and entry `(i, j, k)` of the tensor of `a * b` is the
/// third-order Leibniz sum.
pub proof fn lemma_jet3_mul_i64<const N: usize, const H: usize, const T: usize>(
    a: Jet3<N, H, T, i64>,
    b: Jet3<N, H, T, i64>,
)
    requires
        tens_dims(N as int, H as int, T as int),
        jet3_small(a),
        jet3_small(b),
    ensures
        jet3_mul(a, b).value == a.value * b.value,
        forall|i: int|
            0 <= i < N ==> #[trigger] jet3_mul(a, b).grad[i] == a.value * b.grad[i] + b.value * a.grad[i],
        forall|i: int, j: int|
            0 <= j <= i < N ==> #[trigger] jet3_mul(a, b).hess[hess_offset(i, j)] == leibniz2(
                a.value as int,
                a.hess[hess_offset(i, j)] as int,
                a.grad[i] as int,
                a.grad[j] as int,
                b.value as int,
                b.hess[hess_offset(i, j)] as int,
                b.grad[i] as int,
                b.grad[j] as int,
            ),
        forall|i: int, j: int, k: int|
            0 <= k <= j <= i < N ==> #[trigger] jet3_mul(a, b).tens[tens_offset(i, j, k)] == leibniz3(
                a,
                b,
                i,
                j,
                k,
            ),
{
    let m: int = 32768;
    crate::impls::jet_ops::lemma_tens_dims_hess(N as int, H as int, T as int);
    lemma_mul_bound(a.value as int, b.value as int, m, m);
    lemma_tabulate::<i64, N>(
        |i: int| crate::impls::jet_ops::product_grad(a.value, a.grad[i], b.value, b.grad[i]),
    );
    assert forall|i: int| 0 <= i < N implies #[trigger] jet3_mul(a, b).grad[i] == a.value * b.grad[i]
        + b.value * a.grad[i] by {
        assert(small(a.grad[i]) && small(b.grad[i]));
        lemma_mul_bound(a.value as int, b.grad[i] as int, m, m);
        lemma_mul_bound(b.value as int, a.grad[i] as int, m, m);
    }
    assert forall|i: int, j: int| 0 <= j <= i < N implies #[trigger] jet3_mul(a, b).hess[hess_offset(
        i,
        j,
    )] == leibniz2(
        a.value as int,
        a.hess[hess_offset(i, j)] as int,
        a.grad[i] as int,
        a.grad[j] as int,
        b.value as int,
        b.hess[hess_offset(i, j)] as int,
        b.grad[i] as int,
        b.grad[j] as int,
    ) by {
        let s = hess_offset(i, j);
        lemma_jet3_mul_hess(a, b, i, j);
        lemma_hess_offset_in_bounds(N as int, i, j);
        assert(small(a.hess[s]) && small(b.hess[s]) && small(a.grad[i]) && small(a.grad[j]));
        assert(small(b.grad[i]) && small(b.grad[j]));
        lemma_product_hess_i64(
            a.value,
            a.hess[s],
            a.grad[i],
            a.grad[j],
            b.value,
            b.hess[s],
            b.grad[i],
            b.grad[j],
        );
    }
    assert forall|i: int, j: int, k: int| 0 <= k <= j <= i < N implies #[trigger] jet3_mul(a, b).tens[tens_offset(
        i,
        j,
        k,
    )] == leibniz3(a, b, i, j, k) by {
        lemma_jet3_mul_tens(a, b, i, j, k);
        lemma_jet3_mul_tens_i64(a, b, i, j, k);
    }
}

/// One tensor entry of `lemma_jet3_mul_i64`.
proof fn lemma_jet3_mul_tens_i64<const N: usize, const H: usize, const T: usize>(
    a: Jet3<N, H, T, i64>,
    b: Jet3<N, H, T, i64>,
    i: int,
    j: int,
    k: int,
)
    requires
        tens_dims(N as int, H as int, T as int),
        jet3_small(a),
        jet3_small(b),
        0 <= k <= j <= i < N,
    ensures
        jet3_mul_tens(a, b, i, j, k) == leibniz3(a, b, i, j, k),
{
    let m: int = 32768;
    let t = tens_offset(i, j, k);
    let hij = hess_offset(i, j);
    let hik = hess_offset(i, k);
    let hjk = hess_offset(j, k);
    crate::impls::jet_ops::lemma_tens_dims_hess(N as int, H as int, T as int);
    lemma_tens_offset_in_bounds(N as int, i, j, k);
    lemma_hess_offset_in_bounds(N as int, i, j);
    lemma_hess_offset_in_bounds(N as int, i, k);
    lemma_hess_offset_in_bounds(N as int, j, k);
    assert(small(a.tens[t]) && small(b.tens[t]));
    assert(small(a.hess[hij]) && small(a.hess[hik]) && small(a.hess[hjk]));
    assert(small(b.hess[hij]) && small(b.hess[hik]) && small(b.hess[hjk]));
    assert(small(a.grad[i]) && small(a.grad[j]) && small(a.grad[k]));
    assert(small(b.grad[i]) && small(b.grad[j]) && small(b.grad[k]));
    lemma_mul_bound(a.value as int, b.tens[t] as int, m, m);
    lemma_mul_bound(b.value as int, a.tens[t] as int, m, m);
    lemma_mul_bound(a.grad[i] as int, b.hess[hjk] as int, m, m);
    lemma_mul_bound(a.grad[j] as int, b.hess[hik] as int, m, m);
    lemma_mul_bound(a.grad[k] as int, b.hess[hij] as int, m, m);
    lemma_mul_bound(b.grad[i] as int, a.hess[hjk] as int, m, m);
    lemma_mul_bound(b.grad[j] as int, a.hess[hik] as int, m, m);
    lemma_mul_bound(b.grad[k] as int, a.hess[hij] as int, m, m);
    let p = jet3_mul_tens_terms(a, b, i, j, k);
    reveal_with_fuel(sum_left, 8);
    assert(sum_left(p, 8) == leibniz3(a, b, i, j, k));
}

// ─── Quotients ──────────────────────────────────────────────────────────

/// Dividing an exact multiple: `(c d) / d == c` and `(-(c d)) / d == -c`
/// for any nonzero `d`.
proof fn lemma_div_exact_int(c: int, d: int)
    requires
        d != 0,
    ensures
        (c * d) / d == c,
        (-(c * d)) / d == -c,
{
    assert((c * d) / d == c) by (nonlinear_arith)
        requires
            d != 0,
    ;
    assert((-(c * d)) / d == -c) by (nonlinear_arith)
        requires
            d != 0,
    ;
}

/// `i64` division of an exact multiple `c d` by `d` gives `c`.
proof fn lemma_sdiv_exact_i64(x: i64, c: i64, d: i64)
    requires
        d != 0,
        x == c * d,
    ensures
        sdiv(x, d) == c,
{
    lemma_div_exact_int(c as int, d as int);
    assert(-(x as int) == (-(c as int)) * (d as int)) by (nonlinear_arith)
        requires
            x == c * d,
    ;
    lemma_div_exact_int(-(c as int), d as int);
}

/// Division undoes multiplication for first-order jets: when `a` is the
/// product `c b` by the product rule (`a = c b`, `∂_i a = ∂_i c b + c ∂_i b`)
/// and `b`'s value is nonzero, `a / b == c`.
pub proof fn lemma_jet1_div_inverts_mul_i64<const N: usize>(
    a: Jet1<N, i64>,
    b: Jet1<N, i64>,
    c: Jet1<N, i64>,
)
    requires
        jet1_small(b),
        jet1_small(c),
        b.value != 0,
        a.value == c.value * b.value,
        forall|i: int| 0 <= i < N ==> #[trigger] a.grad[i] == c.grad[i] * b.value + c.value * b.grad[i],
    ensures
        jet1_div(a, b) == c,
{
    let m: int = 32768;
    let v = sdiv(a.value, b.value);
    lemma_mul_bound(c.value as int, b.value as int, m, m);
    lemma_sdiv_exact_i64(a.value, c.value, b.value);
    assert(v == c.value);
    lemma_tabulate::<i64, N>(
        |i: int| crate::impls::jet_ops::quotient_grad(v, a.grad[i], b.value, b.grad[i]),
    );
    assert forall|i: int| 0 <= i < N implies #[trigger] quotient_grads(v, a.grad, b.value, b.grad)[i]
        == c.grad[i] by {
        assert(small(c.grad[i]) && small(b.grad[i]));
        lemma_mul_bound(c.value as int, b.grad[i] as int, m, m);
        lemma_mul_bound(c.grad[i] as int, b.value as int, m, m);
        let num: i64 = ssub(a.grad[i], smul(v, b.grad[i]));
        assert(num == c.grad[i] * b.value);
        lemma_sdiv_exact_i64(num, c.grad[i], b.value);
    }
    crate::jets::lemma_array_ext(quotient_grads(v, a.grad, b.value, b.grad), c.grad);
}

/// Division undoes multiplication for second-order jets: when `a` is the
/// product `c b` by the product rule (value, gradient, and every Hessian
/// entry by the second-order Leibniz sum) and `b`'s value is nonzero,
/// `a / b == c`.
pub proof fn lemma_jet2_div_inverts_mul_i64<const N: usize, const H: usize>(
    a: Jet2<N, H, i64>,
    b: Jet2<N, H, i64>,
    c: Jet2<N, H, i64>,
)
    requires
        hess_dims(N as int, H as int),
        jet2_small(b),
        jet2_small(c),
        b.value != 0,
        a.value == c.value * b.value,
        forall|i: int| 0 <= i < N ==> #[trigger] a.grad[i] == c.grad[i] * b.value + c.value * b.grad[i],
        forall|i: int, j: int|
            0 <= j <= i < N ==> #[trigger] a.hess[hess_offset(i, j)] == leibniz2(
                c.value as int,
                c.hess[hess_offset(i, j)] as int,
                c.grad[i] as int,
                c.grad[j] as int,
                b.value as int,
                b.hess[hess_offset(i, j)] as int,
                b.grad[i] as int,
                b.grad[j] as int,
            ),
    ensures
        jet2_div(a, b) == c,
{
    let m: int = 32768;
    let v = sdiv(a.value, b.value);
    lemma_mul_bound(c.value as int, b.value as int, m, m);
    lemma_sdiv_exact_i64(a.value, c.value, b.value);
    let q = quotient_grads(v, a.grad, b.value, b.grad);
    lemma_tabulate::<i64, N>(
        |i: int| crate::impls::jet_ops::quotient_grad(v, a.grad[i], b.value, b.grad[i]),
    );
    assert forall|i: int| 0 <= i < N implies #[trigger] q[i] == c.grad[i] by {
        assert(small(c.grad[i]) && small(b.grad[i]));
        lemma_mul_bound(c.value as int, b.grad[i] as int, m, m);
        lemma_mul_bound(c.grad[i] as int, b.value as int, m, m);
        let num: i64 = ssub(a.grad[i], smul(v, b.grad[i]));
        assert(num == c.grad[i] * b.value);
        lemma_sdiv_exact_i64(num, c.grad[i], b.value);
    }
    crate::jets::lemma_array_ext(q, c.grad);
    let hs = quotient_hessian(v, q, a.hess, b.value, b.grad, b.hess);
    lemma_tabulate::<i64, H>(
        |s: int|
            crate::impls::jet_ops::quotient_hess(
                v,
                a.hess[s],
                b.hess[s],
                q[hess_pair(s).0],
                q[hess_pair(s).1],
                b.grad[hess_pair(s).0],
                b.grad[hess_pair(s).1],
                b.value,
            ),
    );
    assert forall|s: int| 0 <= s < H implies #[trigger] hs[s] == c.hess[s] by {
        crate::jets::lemma_hess_offset_onto(N as int, s);
        let (i, j) = choose|i: int, j: int| 0 <= j <= i < N && #[trigger] hess_offset(i, j) == s;
        lemma_hess_pair(i, j);
        assert(small(c.hess[s]) && small(b.hess[s]) && small(c.grad[i]) && small(c.grad[j]));
        assert(small(b.grad[i]) && small(b.grad[j]));
        assert(a.hess[s] == leibniz2(
            c.value as int,
            c.hess[s] as int,
            c.grad[i] as int,
            c.grad[j] as int,
            b.value as int,
            b.hess[s] as int,
            b.grad[i] as int,
            b.grad[j] as int,
        ));
        lemma_mul_bound(c.value as int, b.hess[s] as int, m, m);
        lemma_mul_bound(b.value as int, c.hess[s] as int, m, m);
        lemma_mul_bound(c.grad[i] as int, b.grad[j] as int, m, m);
        lemma_mul_bound(c.grad[j] as int, b.grad[i] as int, m, m);
        let num: i64 = ssub(
            ssub(ssub(a.hess[s], smul(v, b.hess[s])), smul(q[i], b.grad[j])),
            smul(q[j], b.grad[i]),
        );
        assert(num == c.hess[s] * b.value) by (nonlinear_arith)
            requires
                num == a.hess[s] - v * b.hess[s] - q[i] * b.grad[j] - q[j] * b.grad[i],
                a.hess[s] == c.value * b.hess[s] + b.value * c.hess[s] + c.grad[i] * b.grad[j]
                    + c.grad[j] * b.grad[i],
                v == c.value,
                q[i] == c.grad[i],
                q[j] == c.grad[j],
        ;
        lemma_sdiv_exact_i64(num, c.hess[s], b.value);
    }
    crate::jets::lemma_array_ext(hs, c.hess);
}

// ─── Small integers as constant jets ────────────────────────────────────

/// A small integer converted to a first-order `u64` jet is the constant
/// jet of that integer: its value is `v` and every derivative is zero,
/// whatever `v` is.
pub proof fn lemma_jet1_from_u8<const N: usize>(v: u8, r: Jet1<N, u64>)
    requires
        call_ensures(<Jet1<N, u64> as From<u8>>::from, (v,), r),
    ensures
        r.value == v,
        forall|i: int| 0 <= i < N ==> #[trigger] r.grad[i] == 0,
{
    lemma_tabulate::<u64, N>(|i: int| <u64 as FromSpec<u8>>::from_spec(0u8));
}

/// A small integer converted to a second-order `u64` jet is the constant
/// jet of that integer: its value is `v` and every first and second
/// derivative is zero, whatever `v` is.
pub proof fn lemma_jet2_from_u8<const N: usize, const H: usize>(v: u8, r: Jet2<N, H, u64>)
    requires
        call_ensures(<Jet2<N, H, u64> as From<u8>>::from, (v,), r),
    ensures
        r.value == v,
        forall|i: int| 0 <= i < N ==> #[trigger] r.grad[i] == 0,
        forall|s: int| 0 <= s < H ==> #[trigger] r.hess[s] == 0,
{
    lemma_tabulate::<u64, N>(|i: int| <u64 as FromSpec<u8>>::from_spec(0u8));
    lemma_tabulate::<u64, H>(|i: int| <u64 as FromSpec<u8>>::from_spec(0u8));
}

/// A small integer converted to a third-order `u64` jet is the constant
/// jet of that integer: its value is `v` and every derivative is zero,
/// whatever `v` is.
pub proof fn lemma_jet3_from_u8<const N: usize, const H: usize, const T: usize>(
    v: u8,
    r: Jet3<N, H, T, u64>,
)
    requires
        call_ensures(<Jet3<N, H, T, u64> as From<u8>>::from, (v,), r),
    ensures
        r.value == v,
        forall|i: int| 0 <= i < N ==> #[trigger] r.grad[i] == 0,
        forall|s: int| 0 <= s < H ==> #[trigger] r.hess[s] == 0,
        forall|s: int| 0 <= s < T ==> #[trigger] r.tens[s] == 0,
{
    lemma_tabulate::<u64, N>(|i: int| <u64 as FromSpec<u8>>::from_spec(0u8));
    lemma_tabulate::<u64, H>(|i: int| <u64 as FromSpec<u8>>::from_spec(0u8));
    lemma_tabulate::<u64, T>(|i: int| <u64 as FromSpec<u8>>::from_spec(0u8));
}

/// Over any scalar, the derivatives of a converted small integer do not
/// depend on the integer: `from(v)` and `from(w)` differ at most in their
/// values.
pub proof fn lemma_jet_from_derivatives_independent<
    const N: usize,
    const H: usize,
    const T: usize,
    S: Scalar + From<u8>,
>(v: u8, w: u8)
    ensures
        <Jet1<N, S> as FromSpec<u8>>::from_spec(v).grad == <Jet1<N, S> as FromSpec<
            u8,
        >>::from_spec(w).grad,
        <Jet2<N, H, S> as FromSpec<u8>>::from_spec(v).grad == <Jet2<N, H, S> as FromSpec<
            u8,
        >>::from_spec(w).grad,
        <Jet2<N, H, S> as FromSpec<u8>>::from_spec(v).hess == <Jet2<N, H, S> as FromSpec<
            u8,
        >>::from_spec(w).hess,
        <Jet3<N, H, T, S> as FromSpec<u8>>::from_spec(v).grad == <Jet3<N, H, T, S> as FromSpec<
            u8,
        >>::from_spec(w).grad,
        <Jet3<N, H, T, S> as FromSpec<u8>>::from_spec(v).hess == <Jet3<N, H, T, S> as FromSpec<
            u8,
        >>::from_spec(w).hess,
        <Jet3<N, H, T, S> as FromSpec<u8>>::from_spec(v).tens == <Jet3<N, H, T, S> as FromSpec<
            u8,
        >>::from_spec(w).tens,
{
}

/// Division undoes multiplication for third-order jets: when `a` is the
/// product `c b` by the product rule (value, gradient, Hessian by the
/// second-order and tensor by the third-order Leibniz sums) and `b`'s
/// value is nonzero, `a / b == c`.
pub proof fn lemma_jet3_div_inverts_mul_i64<const N: usize, const H: usize, const T: usize>(
    a: Jet3<N, H, T, i64>,
    b: Jet3<N, H, T, i64>,
    c: Jet3<N, H, T, i64>,
)
    requires
        tens_dims(N as int, H as int, T as int),
        jet3_small(b),
        jet3_small(c),
        b.value != 0,
        a.value == c.value * b.value,
        forall|i: int| 0 <= i < N ==> #[trigger] a.grad[i] == c.grad[i] * b.value + c.value * b.grad[i],
        forall|i: int, j: int|
            0 <= j <= i < N ==> #[trigger] a.hess[hess_offset(i, j)] == leibniz2(
                c.value as int,
                c.hess[hess_offset(i, j)] as int,
                c.grad[i] as int,
                c.grad[j] as int,
                b.value as int,
                b.hess[hess_offset(i, j)] as int,
                b.grad[i] as int,
                b.grad[j] as int,
            ),
        forall|i: int, j: int, k: int|
            0 <= k <= j <= i < N ==> #[trigger] a.tens[tens_offset(i, j, k)] == leibniz3(c, b, i, j, k),
    ensures
        jet3_div(a, b) == c,
{
    crate::impls::jet_ops::lemma_tens_dims_hess(N as int, H as int, T as int);
    let a2 = Jet2::<N, H, i64> { value: a.value, grad: a.grad, hess: a.hess };
    let b2 = Jet2::<N, H, i64> { value: b.value, grad: b.grad, hess: b.hess };
    let c2 = Jet2::<N, H, i64> { value: c.value, grad: c.grad, hess: c.hess };
    lemma_jet2_div_inverts_mul_i64(a2, b2, c2);
    let v = sdiv(a.value, b.value);
    let q = quotient_grads(v, a.grad, b.value, b.grad);
    let qh = quotient_hessian(v, q, a.hess, b.value, b.grad, b.hess);
    assert(v == c.value && q == c.grad && qh == c.hess);
    let ts = quotient_tensor(v, q, qh, a.tens, b.value, b.grad, b.hess, b.tens);
    lemma_tabulate::<i64, T>(
        |s: int|
            quotient_tens(
                v,
                q,
                qh,
                a.tens,
                b.value,
                b.grad,
                b.hess,
                b.tens,
                tens_triple(s).0,
                tens_triple(s).1,
                tens_triple(s).2,
            ),
    );
    assert forall|s: int| 0 <= s < T implies #[trigger] ts[s] == c.tens[s] by {
        crate::jets::lemma_tens_offset_onto(N as int, s);
        let (i, j, k) = choose|i: int, j: int, k: int|
            0 <= k <= j <= i < N && #[trigger] tens_offset(i, j, k) == s;
        lemma_tens_triple(i, j, k);
        lemma_quotient_tens_i64(a, b, c, i, j, k);
    }
    crate::jets::lemma_array_ext(ts, c.tens);
}

/// One tensor entry of `lemma_jet3_div_inverts_mul_i64`.
proof fn lemma_quotient_tens_i64<const N: usize, const H: usize, const T: usize>(
    a: Jet3<N, H, T, i64>,
    b: Jet3<N, H, T, i64>,
    c: Jet3<N, H, T, i64>,
    i: int,
    j: int,
    k: int,
)
    requires
        tens_dims(N as int, H as int, T as int),
        jet3_small(b),
        jet3_small(c),
        b.value != 0,
        0 <= k <= j <= i < N,
        a.tens[tens_offset(i, j, k)] == leibniz3(c, b, i, j, k),
    ensures
        quotient_tens(
            c.value,
            c.grad,
            c.hess,
            a.tens,
            b.value,
            b.grad,
            b.hess,
            b.tens,
            i,
            j,
            k,
        ) == c.tens[tens_offset(i, j, k)],
{
    let m: int = 32768;
    let t = tens_offset(i, j, k);
    let hij = hess_offset(i, j);
    let hik = hess_offset(i, k);
    let hjk = hess_offset(j, k);
    crate::impls::jet_ops::lemma_tens_dims_hess(N as int, H as int, T as int);
    lemma_tens_offset_in_bounds(N as int, i, j, k);
    lemma_hess_offset_in_bounds(N as int, i, j);
    lemma_hess_offset_in_bounds(N as int, i, k);
    lemma_hess_offset_in_bounds(N as int, j, k);
    assert(small(c.tens[t]) && small(b.tens[t]));
    assert(small(c.hess[hij]) && small(c.hess[hik]) && small(c.hess[hjk]));
    assert(small(b.hess[hij]) && small(b.hess[hik]) && small(b.hess[hjk]));
    assert(small(c.grad[i]) && small(c.grad[j]) && small(c.grad[k]));
    assert(small(b.grad[i]) && small(b.grad[j]) && small(b.grad[k]));
    lemma_mul_bound(c.value as int, b.tens[t] as int, m, m);
    lemma_mul_bound(b.value as int, c.tens[t] as int, m, m);
    lemma_mul_bound(c.grad[i] as int, b.hess[hjk] as int, m, m);
    lemma_mul_bound(c.grad[j] as int, b.hess[hik] as int, m, m);
    lemma_mul_bound(c.grad[k] as int, b.hess[hij] as int, m, m);
    lemma_mul_bound(c.hess[hij] as int, b.grad[k] as int, m, m);
    lemma_mul_bound(c.hess[hik] as int, b.grad[j] as int, m, m);
    lemma_mul_bound(c.hess[hjk] as int, b.grad[i] as int, m, m);
    lemma_mul_bound(b.grad[i] as int, c.hess[hjk] as int, m, m);
    lemma_mul_bound(b.grad[j] as int, c.hess[hik] as int, m, m);
    lemma_mul_bound(b.grad[k] as int, c.hess[hij] as int, m, m);
    let ps = crate::impls::jet_ops::quotient_tens_products(
        c.value,
        c.grad,
        c.hess,
        b.grad,
        b.hess,
        b.tens,
        i,
        j,
        k,
    );
    let fs = crate::impls::jet_ops::quotient_tens_factors(
        c.value,
        c.grad,
        c.hess,
        b.grad,
        b.hess,
        b.tens,
        i,
        j,
        k,
    );
    assert(ps.len() == 7);
    assert forall|n: int| 0 <= n < 7 implies #[trigger] ps[n] == fs[n].0 * fs[n].1 by {}
    reveal_with_fuel(crate::impls::jet_ops::diff_left, 8);
    let num = crate::impls::jet_ops::diff_left(a.tens[t], ps, 7);
    assert(num == c.tens[t] * b.value);
    lemma_sdiv_exact_i64(num, c.tens[t], b.value);
}

// ─── Division by a scalar, halving ──────────────────────────────────────

/// The `u64` reciprocal `1 / k` of a nonzero `k` is `1` or `0`.
proof fn lemma_reciprocal_u64(k: u64)
    requires
        k != 0,
    ensures
        1u64 / k == 0 || 1u64 / k == 1,
        sdiv(1u64, k) == 1u64 / k,
{
    if k == 1 {
    } else {
        assert(1u64 / k == 0) by (nonlinear_arith)
            requires
                k >= 2,
        ;
    }
}

/// `x` times the `u64` reciprocal of a nonzero `k`, as specified.
proof fn lemma_times_reciprocal_u64(x: u64, k: u64)
    requires
        k != 0,
    ensures
        smul(x, sdiv(1u64, k)) == x * (1u64 / k),
{
    lemma_reciprocal_u64(k);
    if 1u64 / k == 0 {
        assert(x * 0 == 0);
    } else {
        assert(x * 1 == x);
    }
}

/// Dividing a first-order `u64` jet by a nonzero `k` multiplies every
/// entry by the reciprocal `1 / k` (in `u64`, `1` for `k == 1` and `0`
/// otherwise).
pub proof fn lemma_jet1_div_scalar_u64<const N: usize>(a: Jet1<N, u64>, k: u64, r: Jet1<N, u64>)
    requires
        k != 0,
        call_ensures(<Jet1<N, u64> as core::ops::Div<u64>>::div, (a, k), r),
    ensures
        r.value == a.value * (1u64 / k),
        forall|i: int| 0 <= i < N ==> #[trigger] r.grad[i] == a.grad[i] * (1u64 / k),
{
    let one = choose|one: u64| #[trigger] crate::scalar::is_one(one) && r == jet1_scale(a, sdiv(one, k));
    assert(one == 1);
    lemma_times_reciprocal_u64(a.value, k);
    lemma_tabulate::<u64, N>(|i: int| smul(a.grad[i], sdiv(one, k)));
    assert forall|i: int| 0 <= i < N implies #[trigger] r.grad[i] == a.grad[i] * (1u64 / k) by {
        assert(r.grad[i] == smul(a.grad[i], sdiv(one, k)));
        lemma_times_reciprocal_u64(a.grad[i], k);
    }
}

/// Dividing a second-order `u64` jet by a nonzero `k` multiplies every
/// entry by the reciprocal `1 / k`.
pub proof fn lemma_jet2_div_scalar_u64<const N: usize, const H: usize>(
    a: Jet2<N, H, u64>,
    k: u64,
    r: Jet2<N, H, u64>,
)
    requires
        k != 0,
        call_ensures(<Jet2<N, H, u64> as core::ops::Div<u64>>::div, (a, k), r),
    ensures
        r.value == a.value * (1u64 / k),
        forall|i: int| 0 <= i < N ==> #[trigger] r.grad[i] == a.grad[i] * (1u64 / k),
        forall|s: int| 0 <= s < H ==> #[trigger] r.hess[s] == a.hess[s] * (1u64 / k),
{
    let one = choose|one: u64| #[trigger] crate::scalar::is_one(one) && r == jet2_scale(a, sdiv(one, k));
    assert(one == 1);
    lemma_times_reciprocal_u64(a.value, k);
    lemma_tabulate::<u64, N>(|i: int| smul(a.grad[i], sdiv(one, k)));
    lemma_tabulate::<u64, H>(|i: int| smul(a.hess[i], sdiv(one, k)));
    assert forall|i: int| 0 <= i < N implies #[trigger] r.grad[i] == a.grad[i] * (1u64 / k) by {
        assert(r.grad[i] == smul(a.grad[i], sdiv(one, k)));
        lemma_times_reciprocal_u64(a.grad[i], k);
    }
    assert forall|s: int| 0 <= s < H implies #[trigger] r.hess[s] == a.hess[s] * (1u64 / k) by {
        assert(r.hess[s] == smul(a.hess[s], sdiv(one, k)));
        lemma_times_reciprocal_u64(a.hess[s], k);
    }
}

/// Dividing a third-order `u64` jet by a nonzero `k` multiplies every
/// entry by the reciprocal `1 / k`.
pub proof fn lemma_jet3_div_scalar_u64<const N: usize, const H: usize, const T: usize>(
    a: Jet3<N, H, T, u64>,
    k: u64,
    r: Jet3<N, H, T, u64>,
)
    requires
        k != 0,
        call_ensures(<Jet3<N, H, T, u64> as core::ops::Div<u64>>::div, (a, k), r),
    ensures
        r.value == a.value * (1u64 / k),
        forall|i: int| 0 <= i < N ==> #[trigger] r.grad[i] == a.grad[i] * (1u64 / k),
        forall|s: int| 0 <= s < H ==> #[trigger] r.hess[s] == a.hess[s] * (1u64 / k),
        forall|s: int| 0 <= s < T ==> #[trigger] r.tens[s] == a.tens[s] * (1u64 / k),
{
    let one = choose|one: u64| #[trigger] crate::scalar::is_one(one) && r == jet3_scale(a, sdiv(one, k));
    assert(one == 1);
    lemma_times_reciprocal_u64(a.value, k);
    lemma_tabulate::<u64, N>(|i: int| smul(a.grad[i], sdiv(one, k)));
    lemma_tabulate::<u64, H>(|i: int| smul(a.hess[i], sdiv(one, k)));
    lemma_tabulate::<u64, T>(|i: int| smul(a.tens[i], sdiv(one, k)));
    assert forall|i: int| 0 <= i < N implies #[trigger] r.grad[i] == a.grad[i] * (1u64 / k) by {
        assert(r.grad[i] == smul(a.grad[i], sdiv(one, k)));
        lemma_times_reciprocal_u64(a.grad[i], k);
    }
    assert forall|s: int| 0 <= s < H implies #[trigger] r.hess[s] == a.hess[s] * (1u64 / k) by {
        assert(r.hess[s] == smul(a.hess[s], sdiv(one, k)));
        lemma_times_reciprocal_u64(a.hess[s], k);
    }
    assert forall|s: int| 0 <= s < T implies #[trigger] r.tens[s] == a.tens[s] * (1u64 / k) by {
        assert(r.tens[s] == smul(a.tens[s], sdiv(one, k)));
        lemma_times_reciprocal_u64(a.tens[s], k);
    }
}

/// Halving a `u64` jet halves its value and every derivative (rounding
/// down), so a jet is scaled by one half rather than divided by a jet.
pub proof fn lemma_jet_halve_u64<const N: usize, const H: usize, const T: usize>(
    a1: Jet1<N, u64>,
    r1: Jet1<N, u64>,
    a2: Jet2<N, H, u64>,
    r2: Jet2<N, H, u64>,
    a3: Jet3<N, H, T, u64>,
    r3: Jet3<N, H, T, u64>,
)
    requires
        call_ensures(<Jet1<N, u64> as Halve>::halve, (a1,), r1),
        call_ensures(<Jet2<N, H, u64> as Halve>::halve, (a2,), r2),
        call_ensures(<Jet3<N, H, T, u64> as Halve>::halve, (a3,), r3),
    ensures
        r1.value == a1.value / 2,
        forall|i: int| 0 <= i < N ==> #[trigger] r1.grad[i] == a1.grad[i] / 2,
        r2.value == a2.value / 2,
        forall|i: int| 0 <= i < N ==> #[trigger] r2.grad[i] == a2.grad[i] / 2,
        forall|s: int| 0 <= s < H ==> #[trigger] r2.hess[s] == a2.hess[s] / 2,
        r3.value == a3.value / 2,
        forall|i: int| 0 <= i < N ==> #[trigger] r3.grad[i] == a3.grad[i] / 2,
        forall|s: int| 0 <= s < H ==> #[trigger] r3.hess[s] == a3.hess[s] / 2,
        forall|s: int| 0 <= s < T ==> #[trigger] r3.tens[s] == a3.tens[s] / 2,
{
    lemma_tabulate::<u64, N>(|i: int| a1.grad[i].halve_spec());
    lemma_tabulate::<u64, N>(|i: int| a2.grad[i].halve_spec());
    lemma_tabulate::<u64, H>(|i: int| a2.hess[i].halve_spec());
    lemma_tabulate::<u64, N>(|i: int| a3.grad[i].halve_spec());
    lemma_tabulate::<u64, H>(|i: int| a3.hess[i].halve_spec());
    lemma_tabulate::<u64, T>(|i: int| a3.tens[i].halve_spec());
}

// ─── Two-argument arctangent ────────────────────────────────────────────

/// `|x| <= 2^10`: small enough for the products of the arctangent's
/// second derivatives.
pub open spec fn tiny(x: i64) -> bool {
    -1024 <= x <= 1024
}

/// Every entry of `a` is tiny.
pub open spec fn all_tiny<const L: usize>(a: [i64; L]) -> bool {
    forall|i: int| 0 <= i < L ==> tiny(#[trigger] a[i])
}

/// A quotient is no larger in magnitude than its dividend.
proof fn lemma_quotient_within(x: int, d: int, q: int)
    requires
        x == d * q,
        d != 0,
    ensures
        x >= 0 ==> -x <= q <= x,
        x < 0 ==> x <= q <= -x,
{
    if d > 0 {
        if q >= 0 {
            assert(d * q >= q) by (nonlinear_arith)
                requires
                    d >= 1,
                    q >= 0,
            ;
        } else {
            assert(d * q <= q) by (nonlinear_arith)
                requires
                    d >= 1,
                    q < 0,
            ;
        }
    } else {
        if q >= 0 {
            assert(d * q <= -q) by (nonlinear_arith)
                requires
                    d <= -1,
                    q >= 0,
            ;
        } else {
            assert(d * q >= -q) by (nonlinear_arith)
                requires
                    d <= -1,
                    q < 0,
            ;
        }
    }
}

/// `i64` division of a multiple of `d` by `d` is exact: the quotient times
/// `d` gives the dividend back.
proof fn lemma_sdiv_divisible_i64(x: i64, d: i64)
    requires
        d != 0,
        -0x4000_0000_0000_0000 <= x <= 0x4000_0000_0000_0000,
        (x as int) % (d as int) == 0,
    ensures
        sdiv(x, d) * d == x,
        sdiv(x, d) == (x as int) / (d as int),
{
    let q: int = (x as int) / (d as int);
    vstd::arithmetic::div_mod::lemma_fundamental_div_mod(x as int, d as int);
    assert(x == d * q);
    lemma_quotient_within(x as int, d as int, q);
    assert(x == q * d) by (nonlinear_arith)
        requires
            x == d * q,
    ;
    lemma_sdiv_exact_i64(x, q as i64, d);
}

/// The derivative of `atan2(f, g)` times `f² + g²` is `g ∂_i f - f ∂_i g`
/// (whenever that quotient is exact in `i64`).
pub proof fn lemma_atan2_grads_i64<const N: usize>(f: i64, g: i64, fg: [i64; N], gg: [i64; N])
    requires
        tiny(f),
        tiny(g),
        all_tiny(fg),
        all_tiny(gg),
        f * f + g * g != 0,
        forall|i: int| 0 <= i < N ==> (g * #[trigger] fg[i] - f * gg[i]) % (f * f + g * g) == 0,
    ensures
        forall|i: int|
            0 <= i < N ==> #[trigger] crate::impls::jet_chain::atan2_grads(f, g, fg, gg)[i] * (f * f + g
                * g) == g * fg[i] - f * gg[i],
{
    let m: int = 1024;
    lemma_mul_bound(f as int, f as int, m, m);
    lemma_mul_bound(g as int, g as int, m, m);
    lemma_tabulate::<i64, N>(|i: int| crate::impls::jet_chain::atan2_grad(f, g, fg[i], gg[i]));
    assert forall|i: int| 0 <= i < N implies #[trigger] crate::impls::jet_chain::atan2_grads(
        f,
        g,
        fg,
        gg,
    )[i] * (f * f + g * g) == g * fg[i] - f * gg[i] by {
        assert(tiny(fg[i]) && tiny(gg[i]));
        lemma_mul_bound(g as int, fg[i] as int, m, m);
        lemma_mul_bound(f as int, gg[i] as int, m, m);
        let num: i64 = ssub(smul(g, fg[i]), smul(f, gg[i]));
        let r2: i64 = crate::impls::jet_chain::atan2_r2(f, g);
        assert(num == g * fg[i] - f * gg[i]);
        assert(r2 == f * f + g * g);
        lemma_sdiv_divisible_i64(num, r2);
    }
}

/// `(g ∂_i f - f ∂_i g) / (f² + g²)`, the exact first derivative of
/// `atan2(f, g)` when the division is exact.
pub open spec fn atan2_grad_int<const N: usize>(f: i64, g: i64, fg: [i64; N], gg: [i64; N], i: int) -> int {
    (g * fg[i] - f * gg[i]) / (f * f + g * g)
}

/// The numerator of the second derivative of `atan2(f, g)` for the pair
/// `(i, j)` stored at `s`: `∂_j(g ∂_i f - f ∂_i g) - q_i ∂_j(f² + g²)`.
pub open spec fn atan2_hess_numerator<const N: usize, const H: usize>(
    f: i64,
    g: i64,
    fg: [i64; N],
    fh: [i64; H],
    gg: [i64; N],
    gh: [i64; H],
    i: int,
    j: int,
) -> int {
    let s = hess_offset(i, j);
    gg[j] * fg[i] + g * fh[s] - fg[j] * gg[i] - f * gh[s] - atan2_grad_int(f, g, fg, gg, i) * (2 * (f
        * fg[j] + g * gg[j]))
}

/// The second derivative of `atan2(f, g)` times `f² + g²` is the
/// derivative of the first derivative's numerator less the first
/// derivative times the derivative of `f² + g²` (quotient rule), with the
/// scalar two equal to `2`, whenever the divisions are exact in `i64`.
pub proof fn lemma_atan2_hessian_i64<const N: usize, const H: usize>(
    f: i64,
    g: i64,
    fg: [i64; N],
    fh: [i64; H],
    gg: [i64; N],
    gh: [i64; H],
)
    requires
        hess_dims(N as int, H as int),
        tiny(f),
        tiny(g),
        all_tiny(fg),
        all_tiny(gg),
        all_tiny(fh),
        all_tiny(gh),
        f * f + g * g != 0,
        forall|i: int| 0 <= i < N ==> (g * #[trigger] fg[i] - f * gg[i]) % (f * f + g * g) == 0,
        forall|i: int, j: int|
            0 <= j <= i < N ==> #[trigger] atan2_hess_numerator(f, g, fg, fh, gg, gh, i, j) % (f * f + g * g)
                == 0,
    ensures
        forall|i: int, j: int|
            0 <= j <= i < N ==> #[trigger] crate::impls::jet_chain::atan2_hessian(
                2i64,
                f,
                g,
                fg,
                fh,
                gg,
                gh,
                crate::impls::jet_chain::atan2_grads(f, g, fg, gg),
            )[hess_offset(i, j)] * (f * f + g * g) == atan2_hess_numerator(f, g, fg, fh, gg, gh, i, j),
{
    let q = crate::impls::jet_chain::atan2_grads(f, g, fg, gg);
    lemma_atan2_grads_i64(f, g, fg, gg);
    lemma_tabulate::<i64, H>(
        |s: int|
            crate::impls::jet_chain::atan2_hess_entry(
                2i64,
                f,
                g,
                fg,
                fh,
                gg,
                gh,
                q,
                hess_pair(s).0,
                hess_pair(s).1,
            ),
    );
    assert forall|i: int, j: int| 0 <= j <= i < N implies #[trigger] crate::impls::jet_chain::atan2_hessian(
        2i64,
        f,
        g,
        fg,
        fh,
        gg,
        gh,
        q,
    )[hess_offset(i, j)] * (f * f + g * g) == atan2_hess_numerator(f, g, fg, fh, gg, gh, i, j) by {
        lemma_hess_offset_in_bounds(N as int, i, j);
        lemma_hess_pair(i, j);
        lemma_atan2_hess_entry_i64(f, g, fg, fh, gg, gh, q, i, j);
    }
}

/// One entry of `lemma_atan2_hessian_i64`.
proof fn lemma_atan2_hess_entry_i64<const N: usize, const H: usize>(
    f: i64,
    g: i64,
    fg: [i64; N],
    fh: [i64; H],
    gg: [i64; N],
    gh: [i64; H],
    q: [i64; N],
    i: int,
    j: int,
)
    requires
        tiny(f),
        tiny(g),
        all_tiny(fg),
        all_tiny(gg),
        all_tiny(fh),
        all_tiny(gh),
        0 <= j <= i < N,
        0 <= hess_offset(i, j) < H,
        f * f + g * g != 0,
        forall|k: int|
            0 <= k < N ==> #[trigger] q[k] * (f * f + g * g) == g * fg[k] - f * gg[k],
        (g * fg[i] - f * gg[i]) % (f * f + g * g) == 0,
        atan2_hess_numerator(f, g, fg, fh, gg, gh, i, j) % (f * f + g * g) == 0,
    ensures
        crate::impls::jet_chain::atan2_hess_entry(2i64, f, g, fg, fh, gg, gh, q, i, j) * (f * f + g * g)
            == atan2_hess_numerator(f, g, fg, fh, gg, gh, i, j),
{
    let m: int = 1024;
    let s = hess_offset(i, j);
    let r2: int = f * f + g * g;
    assert(tiny(fg[i]) && tiny(fg[j]) && tiny(gg[i]) && tiny(gg[j]) && tiny(fh[s]) && tiny(gh[s]));
    lemma_mul_bound(f as int, f as int, m, m);
    lemma_mul_bound(g as int, g as int, m, m);
    lemma_mul_bound(gg[j] as int, fg[i] as int, m, m);
    lemma_mul_bound(g as int, fh[s] as int, m, m);
    lemma_mul_bound(fg[j] as int, gg[i] as int, m, m);
    lemma_mul_bound(f as int, gh[s] as int, m, m);
    lemma_mul_bound(f as int, fg[j] as int, m, m);
    lemma_mul_bound(g as int, gg[j] as int, m, m);
    lemma_mul_bound(g as int, fg[i] as int, m, m);
    lemma_mul_bound(f as int, gg[i] as int, m, m);
    let num_i: int = g * fg[i] - f * gg[i];
    assert(f * f >= 0 && g * g >= 0) by (nonlinear_arith);
    vstd::arithmetic::div_mod::lemma_fundamental_div_mod(num_i, r2);
    assert(q[i] * r2 == num_i);
    assert(q[i] == num_i / r2) by (nonlinear_arith)
        requires
            q[i] * r2 == num_i,
            num_i == r2 * (num_i / r2) + num_i % r2,
            num_i % r2 == 0,
            r2 != 0,
    ;
    assert(-2097152 <= num_i <= 2097152);
    lemma_quotient_within(num_i, r2, q[i] as int);
    let dr2_inner: int = f * fg[j] + g * gg[j];
    assert(-4194304 <= 2 * dr2_inner <= 4194304);
    assert(-2097152 <= q[i] <= 2097152);
    lemma_mul_bound(q[i] as int, 2 * dr2_inner, 2097152, 4194304);
    assert(-8796093022208 <= q[i] * (2 * dr2_inner) <= 8796093022208);
    let a1: i64 = sadd(smul(gg[j], fg[i]), smul(g, fh[s]));
    assert(a1 == gg[j] * fg[i] + g * fh[s]);
    let a2: i64 = ssub(a1, smul(fg[j], gg[i]));
    assert(a2 == a1 - fg[j] * gg[i]);
    let du: i64 = ssub(a2, smul(f, gh[s]));
    assert(du == a2 - f * gh[s]);
    let inner: i64 = sadd(smul(f, fg[j]), smul(g, gg[j]));
    assert(inner == dr2_inner);
    let dr2: i64 = smul(2i64, inner);
    assert(dr2 == 2 * dr2_inner);
    let qd: i64 = smul(q[i], dr2);
    assert(qd == q[i] * (2 * dr2_inner));
    let num: i64 = ssub(du, qd);
    assert(num == du - qd);
    assert(atan2_grad_int(f, g, fg, gg, i) == q[i]);
    assert(num == atan2_hess_numerator(f, g, fg, fh, gg, gh, i, j));
    assert(crate::impls::jet_chain::atan2_r2(f, g) == r2);
    lemma_sdiv_divisible_i64(num, crate::impls::jet_chain::atan2_r2(f, g));
}

// ─── Constants, variables, halving scalars ──────────────────────────────

/// Over `u64`, a constant jet has value `v` and every derivative `0`, and
/// the variable seeded at `p` has value `v`, first derivative `1` with
/// respect to parameter `p`, and every other derivative `0`.
pub proof fn lemma_jet1_constant_variable_u64<const N: usize>(
    v: u64,
    p: usize,
    c: Jet1<N, u64>,
    x: Jet1<N, u64>,
)
    requires
        p < N,
        call_ensures(Jet1::<N, u64>::constant, (v,), c),
        call_ensures(Jet1::<N, u64>::variable, (v, p), x),
    ensures
        c.value == v,
        forall|i: int| 0 <= i < N ==> #[trigger] c.grad[i] == 0,
        x.value == v,
        forall|i: int| 0 <= i < N ==> #[trigger] x.grad[i] == (if i == p { 1u64 } else { 0u64 }),
{
}

/// Over `u64`, a second-order constant jet has value `v` and every
/// derivative `0`; the variable seeded at `p` has value `v`, first
/// derivative `1` with respect to `p`, and every other derivative `0`.
pub proof fn lemma_jet2_constant_variable_u64<const N: usize, const H: usize>(
    v: u64,
    p: usize,
    c: Jet2<N, H, u64>,
    x: Jet2<N, H, u64>,
)
    requires
        p < N,
        call_ensures(Jet2::<N, H, u64>::constant, (v,), c),
        call_ensures(Jet2::<N, H, u64>::variable, (v, p), x),
    ensures
        c.value == v,
        forall|i: int| 0 <= i < N ==> #[trigger] c.grad[i] == 0,
        forall|s: int| 0 <= s < H ==> #[trigger] c.hess[s] == 0,
        x.value == v,
        forall|i: int| 0 <= i < N ==> #[trigger] x.grad[i] == (if i == p { 1u64 } else { 0u64 }),
        forall|s: int| 0 <= s < H ==> #[trigger] x.hess[s] == 0,
{
}

/// Over `u64`, a third-order constant jet has value `v` and every
/// derivative `0`; the variable seeded at `p` has value `v`, first
/// derivative `1` with respect to `p`, and every other derivative `0`.
pub proof fn lemma_jet3_constant_variable_u64<const N: usize, const H: usize, const T: usize>(
    v: u64,
    p: usize,
    c: Jet3<N, H, T, u64>,
    x: Jet3<N, H, T, u64>,
)
    requires
        p < N,
        call_ensures(Jet3::<N, H, T, u64>::constant, (v,), c),
        call_ensures(Jet3::<N, H, T, u64>::variable, (v, p), x),
    ensures
        c.value == v,
        forall|i: int| 0 <= i < N ==> #[trigger] c.grad[i] == 0,
        forall|s: int| 0 <= s < H ==> #[trigger] c.hess[s] == 0,
        forall|s: int| 0 <= s < T ==> #[trigger] c.tens[s] == 0,
        x.value == v,
        forall|i: int| 0 <= i < N ==> #[trigger] x.grad[i] == (if i == p { 1u64 } else { 0u64 }),
        forall|s: int| 0 <= s < H ==> #[trigger] x.hess[s] == 0,
        forall|s: int| 0 <= s < T ==> #[trigger] x.tens[s] == 0,
{
}

/// Halving a `u64` scalar divides it by two, rounding down.
pub proof fn lemma_halve_u64(x: u64, r: u64)
    requires
        call_ensures(<u64 as Halve>::halve, (x,), r),
    ensures
        r == x / 2,
{
}

// ─── Seeds ──────────────────────────────────────────────────────────────

/// Over `u64`, jets seeded at `x` are the variables of `x`: jet `i` has
/// value `x[i]`, derivative `1` with respect to parameter `i`, and every
/// other derivative `0`, at every order.
pub proof fn lemma_seeded_u64<const N: usize, const H: usize, const T: usize>(
    x: [u64; N],
    xs1: [Jet1<N, u64>; N],
    xs2: [Jet2<N, H, u64>; N],
    xs3: [Jet3<N, H, T, u64>; N],
)
    requires
        crate::differentiate::seeded1(x, xs1),
        crate::differentiate::seeded2(x, xs2),
        crate::differentiate::seeded3(x, xs3),
    ensures
        forall|i: int, j: int|
            0 <= i < N && 0 <= j < N ==> #[trigger] xs1[i].grad[j] == (if i == j { 1u64 } else { 0u64 })
                && xs2[i].grad[j] == (if i == j { 1u64 } else { 0u64 }) && xs3[i].grad[j] == (if i == j {
                1u64
            } else {
                0u64
            }),
        forall|i: int| 0 <= i < N ==> #[trigger] xs1[i].value == x[i] && xs2[i].value == x[i] && xs3[i].value == x[i],
        forall|i: int, s: int| 0 <= i < N && 0 <= s < H ==> #[trigger] xs2[i].hess[s] == 0 && xs3[i].hess[s] == 0,
        forall|i: int, s: int| 0 <= i < N && 0 <= s < T ==> #[trigger] xs3[i].tens[s] == 0,
{
    assert forall|i: int, j: int| 0 <= i < N && 0 <= j < N implies #[trigger] xs1[i].grad[j] == (if i == j {
        1u64
    } else {
        0u64
    }) && xs2[i].grad[j] == (if i == j { 1u64 } else { 0u64 }) && xs3[i].grad[j] == (if i == j {
        1u64
    } else {
        0u64
    }) by {
        assert(xs1[i].value == x[i] && xs2[i].value == x[i] && xs3[i].value == x[i]);
    }
    assert forall|i: int, s: int| 0 <= i < N && 0 <= s < H implies #[trigger] xs2[i].hess[s] == 0
        && xs3[i].hess[s] == 0 by {
        assert(xs2[i].value == x[i] && xs3[i].value == x[i]);
    }
    assert forall|i: int, s: int| 0 <= i < N && 0 <= s < T implies #[trigger] xs3[i].tens[s] == 0 by {
        assert(xs3[i].value == x[i]);
    }
}

} // verus!
