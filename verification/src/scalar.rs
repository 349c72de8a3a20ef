//! The scalar types that vectors and matrices are built from, and the
//! mathematical model of the arithmetic done on them.
//!
//! A scalar is any copyable type with `+`, `-`, `*` and a default value
//! that serves as zero (`f64`, the integer types, jets of any order).
//! Contracts speak of the operators through their specifications in
//! `vstd` (`add_spec`, `sub_spec`, `mul_spec`), which pin the result down
//! whenever the type obeys them (the integer types do); for other types
//! (floating point) nothing is claimed about the values computed.
//!
//! Every operator application must be permitted (`add_req` and friends:
//! no overflow for integers). A function may be called either when the
//! type permits every application (`total_arith`) or when the type obeys
//! its specifications and every application the function makes on the
//! given inputs is permitted.
use core::ops::{Add, Div, Mul, Neg, Sub};
use vstd::prelude::*;
use vstd::std_specs::convert::FromSpec;
use vstd::std_specs::ops::{AddSpec, DivSpec, MulSpec, NegSpec, SubSpec};

verus! {

/// A copyable type with addition, subtraction, multiplication and a zero.
pub trait Scalar: Copy + Default + Add<Output = Self> + Sub<Output = Self> + Mul<Output = Self> {

}

impl<T: Copy + Default + Add<Output = T> + Sub<Output = T> + Mul<Output = T>> Scalar for T {

}

/// The type's operators compute their `vstd` specifications.
pub open spec fn exact_arith<T: Scalar>() -> bool {
    T::obeys_add_spec() && T::obeys_sub_spec() && T::obeys_mul_spec()
}

/// The type's operators may be applied to any operands.
pub open spec fn total_arith<T: Scalar>() -> bool {
    forall|x: T, y: T|
        #![trigger x.add_req(y)]
        #![trigger x.sub_req(y)]
        #![trigger x.mul_req(y)]
        x.add_req(y) && x.sub_req(y) && x.mul_req(y)
}

/// `z` is a value that `T::default()` can return: the zero that sums start
/// from.
pub open spec fn is_zero<T: Scalar>(z: T) -> bool {
    call_ensures(T::default, (), z)
}

/// `x + y` as specified.
pub open spec fn sadd<T: Scalar>(x: T, y: T) -> T {
    x.add_spec(y)
}

/// `x - y` as specified.
pub open spec fn ssub<T: Scalar>(x: T, y: T) -> T {
    x.sub_spec(y)
}

/// `x * y` as specified.
pub open spec fn smul<T: Scalar>(x: T, y: T) -> T {
    x.mul_spec(y)
}

/// `x + y` is permitted.
pub open spec fn add_ok<T: Scalar>(x: T, y: T) -> bool {
    x.add_req(y)
}

/// `x - y` is permitted.
pub open spec fn sub_ok<T: Scalar>(x: T, y: T) -> bool {
    x.sub_req(y)
}

/// `x * y` is permitted.
pub open spec fn mul_ok<T: Scalar>(x: T, y: T) -> bool {
    x.mul_req(y)
}

/// The type's division computes its `vstd` specification.
pub open spec fn exact_div<T: Div<Output = T>>() -> bool {
    T::obeys_div_spec()
}

/// The type's division may be applied to any operands.
pub open spec fn total_div<T: Div<Output = T>>() -> bool {
    forall|x: T, y: T| #[trigger] x.div_req(y)
}

/// `x / y` as specified.
pub open spec fn sdiv<T: Div<Output = T>>(x: T, y: T) -> T {
    x.div_spec(y)
}

/// `x / y` is permitted.
pub open spec fn div_ok<T: Div<Output = T>>(x: T, y: T) -> bool {
    x.div_req(y)
}

/// The type's negation computes its `vstd` specification.
pub open spec fn exact_neg<T: Neg<Output = T>>() -> bool {
    T::obeys_neg_spec()
}

/// The type's negation may be applied to any operand.
pub open spec fn total_neg<T: Neg<Output = T>>() -> bool {
    forall|x: T| #[trigger] x.neg_req()
}

/// `-x` as specified.
pub open spec fn sneg<T: Neg<Output = T>>(x: T) -> T {
    x.neg_spec()
}

/// `-x` is permitted.
pub open spec fn neg_ok<T: Neg<Output = T>>(x: T) -> bool {
    x.neg_req()
}

/// `two` is a value that `T::from(2u8)` can return.
pub open spec fn is_two<T: From<u8>>(two: T) -> bool {
    call_ensures(T::from, (2u8,), two)
}

/// `one` is a value that `T::from(1u8)` can return: the unit that seeds a
/// derivative.
pub open spec fn is_one<T: From<u8>>(one: T) -> bool {
    call_ensures(T::from, (1u8,), one)
}

/// `acc + x[0]*y[0] + ... + x[n-1]*y[n-1]`, added left to right.
pub open spec fn dot_from<T: Scalar>(acc: T, x: Seq<T>, y: Seq<T>, n: nat) -> T
    decreases n,
{
    if n == 0 {
        acc
    } else {
        sadd(dot_from(acc, x, y, (n - 1) as nat), smul(x[n - 1], y[n - 1]))
    }
}

/// Every operation in `dot_from(acc, x, y, n)` is permitted.
pub open spec fn dot_from_req<T: Scalar>(acc: T, x: Seq<T>, y: Seq<T>, n: nat) -> bool
    decreases n,
{
    if n == 0 {
        true
    } else {
        &&& dot_from_req(acc, x, y, (n - 1) as nat)
        &&& x[n - 1].mul_req(y[n - 1])
        &&& dot_from(acc, x, y, (n - 1) as nat).add_req(smul(x[n - 1], y[n - 1]))
    }
}

/// The operations of a shorter prefix of a permitted sum are permitted.
pub proof fn lemma_dot_from_req_prefix<T: Scalar>(acc: T, x: Seq<T>, y: Seq<T>, m: nat, n: nat)
    requires
        m <= n,
        dot_from_req(acc, x, y, n),
    ensures
        dot_from_req(acc, x, y, m),
    decreases n - m,
{
    if m < n {
        lemma_dot_from_req_prefix(acc, x, y, m, (n - 1) as nat);
    }
}

/// `x0*y0 + x1*y1 + x2*y2`, added left to right.
pub open spec fn dot3_spec<T: Scalar>(x0: T, y0: T, x1: T, y1: T, x2: T, y2: T) -> T {
    sadd(sadd(smul(x0, y0), smul(x1, y1)), smul(x2, y2))
}

/// Every operation in `dot3_spec(..)` is permitted.
pub open spec fn dot3_req<T: Scalar>(x0: T, y0: T, x1: T, y1: T, x2: T, y2: T) -> bool {
    &&& x0.mul_req(y0)
    &&& x1.mul_req(y1)
    &&& x2.mul_req(y2)
    &&& smul(x0, y0).add_req(smul(x1, y1))
    &&& sadd(smul(x0, y0), smul(x1, y1)).add_req(smul(x2, y2))
}

/// Computes `x0*y0 + x1*y1 + x2*y2`, added left to right.
pub(crate) fn sum3_products<T: Scalar>(x0: T, y0: T, x1: T, y1: T, x2: T, y2: T) -> (r: T)
    requires
        total_arith::<T>() || (exact_arith::<T>() && dot3_req(x0, y0, x1, y1, x2, y2)),
    ensures
        exact_arith::<T>() ==> r == dot3_spec(x0, y0, x1, y1, x2, y2),
{
    let p0 = x0 * y0;
    let p1 = x1 * y1;
    let s = p0 + p1;
    let p2 = x2 * y2;
    s + p2
}

/// `acc + x[0] + ... + x[n-1]`, added left to right.
pub open spec fn sum_from<T: Scalar>(acc: T, x: Seq<T>, n: nat) -> T
    decreases n,
{
    if n == 0 {
        acc
    } else {
        sadd(sum_from(acc, x, (n - 1) as nat), x[n - 1])
    }
}

/// Every addition in `sum_from(acc, x, n)` is permitted.
pub open spec fn sum_from_req<T: Scalar>(acc: T, x: Seq<T>, n: nat) -> bool
    decreases n,
{
    if n == 0 {
        true
    } else {
        sum_from_req(acc, x, (n - 1) as nat) && add_ok(sum_from(acc, x, (n - 1) as nat), x[n - 1])
    }
}

/// The additions of a shorter prefix of a permitted sum are permitted.
pub proof fn lemma_sum_from_req_prefix<T: Scalar>(acc: T, x: Seq<T>, m: nat, n: nat)
    requires
        m <= n,
        sum_from_req(acc, x, n),
    ensures
        sum_from_req(acc, x, m),
    decreases n - m,
{
    if m < n {
        lemma_sum_from_req_prefix(acc, x, m, (n - 1) as nat);
    }
}

/// `acc` plus the terms `term(r, c)` in row-major order: all of rows
/// `0..i` (each with columns `0..ncols`), then row `i` up to column `j`.
pub open spec fn grid_sum<T: Scalar>(
    acc: T,
    term: spec_fn(int, int) -> T,
    ncols: nat,
    i: nat,
    j: nat,
) -> T
    decreases i, j,
{
    if j == 0 {
        if i == 0 {
            acc
        } else {
            grid_sum(acc, term, ncols, (i - 1) as nat, ncols)
        }
    } else {
        sadd(grid_sum(acc, term, ncols, i, (j - 1) as nat), term(i as int, j - 1))
    }
}

/// Every operation in `grid_sum(acc, term, ncols, i, j)` is permitted, given
/// that `term_ok(r, c)` says the operations computing `term(r, c)` are.
pub open spec fn grid_sum_req<T: Scalar>(
    acc: T,
    term: spec_fn(int, int) -> T,
    term_ok: spec_fn(int, int) -> bool,
    ncols: nat,
    i: nat,
    j: nat,
) -> bool
    decreases i, j,
{
    if j == 0 {
        if i == 0 {
            true
        } else {
            grid_sum_req(acc, term, term_ok, ncols, (i - 1) as nat, ncols)
        }
    } else {
        &&& grid_sum_req(acc, term, term_ok, ncols, i, (j - 1) as nat)
        &&& term_ok(i as int, j - 1)
        &&& add_ok(grid_sum(acc, term, ncols, i, (j - 1) as nat), term(i as int, j - 1))
    }
}

/// The operations of an earlier point of a permitted grid sum are
/// permitted.
pub proof fn lemma_grid_sum_req_prefix<T: Scalar>(
    acc: T,
    term: spec_fn(int, int) -> T,
    term_ok: spec_fn(int, int) -> bool,
    ncols: nat,
    i: nat,
    j: nat,
    n: nat,
)
    requires
        j <= ncols,
        i < n,
        grid_sum_req(acc, term, term_ok, ncols, n, 0),
    ensures
        grid_sum_req(acc, term, term_ok, ncols, i, j),
    decreases n - i, ncols - j,
{
    if j < ncols {
        lemma_grid_sum_req_prefix(acc, term, term_ok, ncols, i, (j + 1) as nat, n);
    } else if i + 1 < n {
        lemma_grid_sum_req_prefix(acc, term, term_ok, ncols, (i + 1) as nat, 0, n);
    }
}

/// `a b - c d`, and whether its operations are permitted.
pub open spec fn cross_term<T: Scalar>(a: T, b: T, c: T, d: T) -> T {
    ssub(smul(a, b), smul(c, d))
}

pub open spec fn cross_term_req<T: Scalar>(a: T, b: T, c: T, d: T) -> bool {
    mul_ok(a, b) && mul_ok(c, d) && sub_ok(smul(a, b), smul(c, d))
}

/// Computes `a b - c d`.
pub(crate) fn cross_term_exec<T: Scalar>(a: T, b: T, c: T, d: T) -> (r: T)
    requires
        total_arith::<T>() || (exact_arith::<T>() && cross_term_req(a, b, c, d)),
    ensures
        exact_arith::<T>() ==> r == cross_term(a, b, c, d),
{
    let p = a * b;
    let q = c * d;
    p - q
}

/// A scalar that can be halved: a plain scalar is divided by two, a jet is
/// halved value and derivative by derivative (so a jet is scaled, never
/// divided by another jet).
pub trait Halve: Sized {
    /// `halve` computes `halve_spec`.
    spec fn obeys_halve_spec() -> bool;

    /// Halving `self` is permitted.
    spec fn halve_req(self) -> bool;

    /// The half of `self`.
    spec fn halve_spec(self) -> Self;

    /// Half of `self`.
    fn halve(self) -> (r: Self)
        requires
            self.halve_req(),
        ensures
            Self::obeys_halve_spec() ==> r == self.halve_spec(),
    ;
}

/// Plain (ordered) scalars halve by dividing by `T::from(2)`.
impl<T: Scalar + Div<Output = T> + From<u8> + PartialOrd> Halve for T {
    open spec fn obeys_halve_spec() -> bool {
        T::obeys_div_spec() && <T as FromSpec<u8>>::obeys_from_spec()
    }

    open spec fn halve_req(self) -> bool {
        forall|two: T| #[trigger] is_two(two) ==> self.div_req(two)
    }

    open spec fn halve_spec(self) -> T {
        self.div_spec(<T as FromSpec<u8>>::from_spec(2u8))
    }

    fn halve(self) -> (r: T) {
        let two = T::from(2u8);
        assert(is_two(two));
        self / two
    }
}

/// Column `j` of a `K × N` matrix.
pub open spec fn column<T, const K: usize, const N: usize>(b: [[T; N]; K], j: int) -> Seq<T> {
    Seq::new(K as nat, |k: int| b[k][j])
}

} // verus!
