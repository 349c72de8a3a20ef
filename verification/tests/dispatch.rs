use nolan::differentiate::{
    differentiate1_vec, differentiate2_vec, differentiate3_vec, differentiate_dyn, differentiate_dyn_6,
    differentiate_dyn_9, AutoDiff, AutoDiffFn, Order,
};
use nolan::jets::{Jet1, Jet2, Jet3};

const TOL: f64 = 1e-12;

fn close(a: f64, b: f64) -> bool {
    (a - b).abs() <= TOL * b.abs().max(1.0)
}

/// Square root by Newton's iteration, in the arithmetic that `AutoDiff`
/// offers (on jets it converges in the value and every derivative).
fn newton_sqrt<T: AutoDiff>(v: T) -> T {
    let two = T::from(2u8);
    let mut s = T::from(1u8);
    for _ in 0..60 {
        s = (s + v / s) / two;
    }
    s
}

/// Point-mass gravitational acceleration `-r / |r|³` (unit `μ`), written
/// once over any `AutoDiff` type.
struct GravityAccel;

impl AutoDiffFn<6, 3> for GravityAccel {
    fn eval<T: AutoDiff>(&self, xs: [T; 6]) -> [T; 3] {
        let [x, y, z, _vx, _vy, _vz] = xs;
        let r2 = x * x + y * y + z * z;
        let r = newton_sqrt(r2);
        let r3_inv = T::from(1u8) / (r2 * r);
        [-(x * r3_inv), -(y * r3_inv), -(z * r3_inv)]
    }
}

#[test]
fn differentiate_dyn_first_matches_flat_api() {
    let state = [1.0_f64, 0.5, 0.1, 0.0, 0.0, 0.0];
    let f = GravityAccel;

    let d = differentiate_dyn_6(Order::First, state, &f);
    assert_eq!(d.order(), Order::First);
    assert!(d.hessians().is_none());
    assert!(d.tensors().is_none());

    let (flat_values, flat_jac) =
        differentiate1_vec::<6, 3, f64, _>(state, |xs| f.eval::<Jet1<6, f64>>(xs));

    for m in 0..3 {
        assert_eq!(d.values()[m], flat_values[m]);
        for i in 0..6 {
            assert_eq!(d.jacobian()[m][i], flat_jac[m][i]);
        }
    }
}

#[test]
fn differentiate_dyn_second_matches_flat_api() {
    let state = [1.0_f64, 0.5, 0.1, 0.0, 0.0, 0.0];
    let f = GravityAccel;

    let d = differentiate_dyn_6(Order::Second, state, &f);
    assert_eq!(d.order(), Order::Second);
    assert!(d.hessians().is_some());
    assert!(d.tensors().is_none());

    let (flat_values, flat_jac, flat_hess) =
        differentiate2_vec::<6, 21, 3, f64, _>(state, |xs| f.eval::<Jet2<6, 21, f64>>(xs));

    for m in 0..3 {
        assert_eq!(d.values()[m], flat_values[m]);
        for i in 0..6 {
            assert_eq!(d.jacobian()[m][i], flat_jac[m][i]);
            for j in 0..6 {
                assert_eq!(d.hessians().unwrap()[m][i][j], flat_hess[m][i][j]);
            }
        }
    }
}

#[test]
fn differentiate_dyn_third_matches_flat_api() {
    let state = [1.0_f64, 0.5, 0.1, 0.0, 0.0, 0.0];
    let f = GravityAccel;

    let d = differentiate_dyn_6(Order::Third, state, &f);
    assert_eq!(d.order(), Order::Third);
    assert!(d.hessians().is_some());
    assert!(d.tensors().is_some());

    let (flat_values, flat_jac, flat_hess, flat_tens) = differentiate3_vec::<6, 21, 56, 3, f64, _>(
        state,
        |xs| f.eval::<Jet3<6, 21, 56, f64>>(xs),
    );

    for m in 0..3 {
        assert_eq!(d.values()[m], flat_values[m]);
        for i in 0..6 {
            assert_eq!(d.jacobian()[m][i], flat_jac[m][i]);
            for j in 0..6 {
                assert_eq!(d.hessians().unwrap()[m][i][j], flat_hess[m][i][j]);
                for k in 0..6 {
                    assert_eq!(d.tensors().unwrap()[m][i][j][k], flat_tens[m][i][j][k]);
                }
            }
        }
    }
}

#[test]
fn differentiate_dyn_escalation_scenario() {
    // Decide the order at run time from a nonlinearity diagnostic: the
    // default is second order; past the threshold, escalate to third.
    let state = [1.0_f64, 0.5, 0.1, 0.0, 0.0, 0.0];
    let f = GravityAccel;

    let nonlinearity_proxy = 0.42_f64;

    let order = if nonlinearity_proxy > 0.3 { Order::Third } else { Order::Second };

    let d = differentiate_dyn_6(order, state, &f);
    assert_eq!(d.values().len(), 3);
    assert_eq!(d.jacobian().len(), 3);
    assert_eq!(d.order(), Order::Third);
    let tens = d.tensors().expect("third-order dispatch yields tensors");
    assert!(tens[0].iter().flatten().any(|row| row.iter().any(|v| *v != 0.0)));
}

struct SumSquares;

impl AutoDiffFn<9, 1> for SumSquares {
    fn eval<T: AutoDiff>(&self, xs: [T; 9]) -> [T; 1] {
        let mut acc = T::from(0u8);
        for xi in xs {
            acc = acc + xi * xi;
        }
        [acc]
    }
}

#[test]
fn differentiate_dyn_9_works() {
    let state = [1.0_f64; 9];
    let f = SumSquares;

    let d1 = differentiate_dyn_9(Order::First, state, &f);
    assert_eq!(d1.order(), Order::First);
    assert!(close(d1.values()[0], 9.0));
    for i in 0..9 {
        assert!(close(d1.jacobian()[0][i], 2.0));
    }

    let d2 = differentiate_dyn_9(Order::Second, state, &f);
    assert_eq!(d2.order(), Order::Second);
    assert!(close(d2.hessians().unwrap()[0][0][0], 2.0));
    assert!(close(d2.hessians().unwrap()[0][0][1], 0.0));

    // Third order for a quadratic: every third derivative is zero.
    let d3 = differentiate_dyn_9(Order::Third, state, &f);
    for i in 0..9 {
        for j in 0..9 {
            for k in 0..9 {
                assert!(close(d3.tensors().unwrap()[0][i][j][k], 0.0));
            }
        }
    }
}

/// `f(x, y) = (x²y, x - y)` on integers.
struct IntegerPair;

impl AutoDiffFn<2, 2> for IntegerPair {
    fn eval<T: AutoDiff>(&self, xs: [T; 2]) -> [T; 2] {
        let [x, y] = xs;
        [x * x * y, x - y]
    }
}

#[test]
fn differentiate_dyn_on_integers_is_exact_at_every_order() {
    let x = [3i64, 5];
    let d1 = differentiate_dyn::<2, 3, 4, 2, i64, _>(Order::First, x, &IntegerPair);
    assert_eq!(*d1.values(), [45, -2]);
    assert_eq!(*d1.jacobian(), [[30, 9], [1, -1]]);
    assert!(d1.hessians().is_none());

    let d2 = differentiate_dyn::<2, 3, 4, 2, i64, _>(Order::Second, x, &IntegerPair);
    // ∂²(x²y) = [[2y, 2x], [2x, 0]].
    assert_eq!(d2.hessians().unwrap()[0], [[10, 6], [6, 0]]);
    assert_eq!(d2.hessians().unwrap()[1], [[0, 0], [0, 0]]);
    assert!(d2.tensors().is_none());

    let d3 = differentiate_dyn::<2, 3, 4, 2, i64, _>(Order::Third, x, &IntegerPair);
    // ∂³(x²y): only ∂x∂x∂y and its permutations, equal to 2.
    let t = d3.tensors().unwrap()[0];
    assert_eq!(t[0][0][1], 2);
    assert_eq!(t[1][0][0], 2);
    assert_eq!(t[0][1][0], 2);
    assert_eq!(t[0][0][0], 0);
    assert_eq!(t[1][1][0], 0);
    assert_eq!(d3.values(), d1.values());
}
