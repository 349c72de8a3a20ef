//! 3-vector products.
use crate::scalar::{
    Scalar,
    exact_arith,
    total_arith,
    dot3_spec,
    dot3_req,
    cross_term,
    cross_term_req,
    cross_term_exec,
    sum3_products,
};
use vstd::prelude::*;

verus! {

/// `a · b` with the products added left to right.
pub open spec fn dot3_of<T: Scalar>(a: [T; 3], b: [T; 3]) -> T {
    dot3_spec(a[0], b[0], a[1], b[1], a[2], b[2])
}

/// The components of `a × b`.
pub open spec fn cross3_of<T: Scalar>(a: [T; 3], b: [T; 3]) -> Seq<T> {
    seq![
        cross_term(a[1], b[2], a[2], b[1]),
        cross_term(a[2], b[0], a[0], b[2]),
        cross_term(a[0], b[1], a[1], b[0]),
    ]
}

/// Every operation of `cross3_of(a, b)` is permitted.
pub open spec fn cross3_req<T: Scalar>(a: [T; 3], b: [T; 3]) -> bool {
    &&& cross_term_req(a[1], b[2], a[2], b[1])
    &&& cross_term_req(a[2], b[0], a[0], b[2])
    &&& cross_term_req(a[0], b[1], a[1], b[0])
}

/// Dot product of two 3-vectors: `a · b = a0 b0 + a1 b1 + a2 b2`.
pub fn dot3<T: Scalar>(a: &[T; 3], b: &[T; 3]) -> (r: T)
    requires
        total_arith::<T>() || (exact_arith::<T>() && dot3_req(a[0], b[0], a[1], b[1], a[2], b[2])),
    ensures
        exact_arith::<T>() ==> r == dot3_of(*a, *b),
{
    sum3_products(a[0], b[0], a[1], b[1], a[2], b[2])
}

/// Cross product of two 3-vectors:
/// `a × b = (a1 b2 - a2 b1, a2 b0 - a0 b2, a0 b1 - a1 b0)`.
pub fn cross3<T: Scalar>(a: &[T; 3], b: &[T; 3]) -> (r: [T; 3])
    requires
        total_arith::<T>() || (exact_arith::<T>() && cross3_req(*a, *b)),
    ensures
        exact_arith::<T>() ==> r@ == cross3_of(*a, *b),
{
    let c0 = cross_term_exec(a[1], b[2], a[2], b[1]);
    let c1 = cross_term_exec(a[2], b[0], a[0], b[2]);
    let c2 = cross_term_exec(a[0], b[1], a[1], b[0]);
    let r = [c0, c1, c2];
    assert(exact_arith::<T>() ==> r@ =~= cross3_of(*a, *b));
    r
}

/// Squared Euclidean norm of a 3-vector: `x0 x0 + x1 x1 + x2 x2`.
pub fn norm_squared3<T: Scalar>(x: &[T; 3]) -> (r: T)
    requires
        total_arith::<T>() || (exact_arith::<T>() && dot3_req(x[0], x[0], x[1], x[1], x[2], x[2])),
    ensures
        exact_arith::<T>() ==> r == dot3_of(*x, *x),
{
    sum3_products(x[0], x[0], x[1], x[1], x[2], x[2])
}

/// For `i64` vectors, `a × b` is orthogonal to both `a` and `b`: when
/// `c = a × b` is computed without overflow, `a · c == 0` and `b · c == 0`
/// wherever `dot3` can compute them.
pub proof fn lemma_cross3_orthogonal_i64(a: [i64; 3], b: [i64; 3], c: [i64; 3])
    requires
        cross3_req(a, b),
        c@ == cross3_of(a, b),
    ensures
        dot3_req(a[0], c[0], a[1], c[1], a[2], c[2]) ==> dot3_of(a, c) == 0,
        dot3_req(b[0], c[0], b[1], c[1], b[2], c[2]) ==> dot3_of(b, c) == 0,
{
    let (a0, a1, a2) = (a[0] as int, a[1] as int, a[2] as int);
    let (b0, b1, b2) = (b[0] as int, b[1] as int, b[2] as int);
    assert(c[0] == a1 * b2 - a2 * b1);
    assert(c[1] == a2 * b0 - a0 * b2);
    assert(c[2] == a0 * b1 - a1 * b0);
    let (c0, c1, c2) = (c[0] as int, c[1] as int, c[2] as int);
    assert(a0 * c0 + a1 * c1 + a2 * c2 == 0) by (nonlinear_arith)
        requires
            c0 == a1 * b2 - a2 * b1,
            c1 == a2 * b0 - a0 * b2,
            c2 == a0 * b1 - a1 * b0,
    ;
    assert(b0 * c0 + b1 * c1 + b2 * c2 == 0) by (nonlinear_arith)
        requires
            c0 == a1 * b2 - a2 * b1,
            c1 == a2 * b0 - a0 * b2,
            c2 == a0 * b1 - a1 * b0,
    ;
}

/// For `i64` vectors the cross product is antisymmetric: `b × a == -(a × b)`
/// component by component, whenever both are computed without overflow.
pub proof fn lemma_cross3_antisymmetric_i64(a: [i64; 3], b: [i64; 3])
    requires
        cross3_req(a, b),
        cross3_req(b, a),
    ensures
        forall|k: int| 0 <= k < 3 ==> #[trigger] cross3_of(b, a)[k] == -cross3_of(a, b)[k],
{
    let (a0, a1, a2) = (a[0] as int, a[1] as int, a[2] as int);
    let (b0, b1, b2) = (b[0] as int, b[1] as int, b[2] as int);
    assert(cross3_of(a, b)[0] == a1 * b2 - a2 * b1);
    assert(cross3_of(a, b)[1] == a2 * b0 - a0 * b2);
    assert(cross3_of(a, b)[2] == a0 * b1 - a1 * b0);
    assert(cross3_of(b, a)[0] == b1 * a2 - b2 * a1);
    assert(cross3_of(b, a)[1] == b2 * a0 - b0 * a2);
    assert(cross3_of(b, a)[2] == b0 * a1 - b1 * a0);
    assert(a1 * b2 == b2 * a1 && a2 * b1 == b1 * a2) by (nonlinear_arith);
    assert(a2 * b0 == b0 * a2 && a0 * b2 == b2 * a0) by (nonlinear_arith);
    assert(a0 * b1 == b1 * a0 && a1 * b0 == b0 * a1) by (nonlinear_arith);
}

} // verus!
