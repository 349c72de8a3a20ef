use nolan::differentiate::{
    differentiate1, differentiate1_vec, differentiate2, differentiate2_6, differentiate2_9,
    differentiate2_vec, differentiate3, differentiate3_6, differentiate3_9, differentiate3_vec,
};
use nolan::differentiate::{Gradient, Hessian, ThirdOrderTensor};
use nolan::jets::{Jet1, Jet2};

const TOL: f64 = 1e-12;

fn close(a: f64, b: f64) -> bool {
    (a - b).abs() <= TOL * b.abs().max(1.0)
}

#[test]
fn differentiate2_matches_closed_form() {
    // f(x, y) = x² y
    let a = 1.3_f64;
    let b = 0.7_f64;
    let (value, grad, hess) = differentiate2::<2, 3, f64, _>([a, b], |[x, y]| x * x * y);
    assert!(close(value, a * a * b));
    assert!(close(grad[0], 2.0 * a * b));
    assert!(close(grad[1], a * a));
    assert!(close(hess[0][0], 2.0 * b));
    assert!(close(hess[0][1], 2.0 * a));
    assert!(close(hess[1][0], 2.0 * a));
    assert!(close(hess[1][1], 0.0));
}

#[test]
fn differentiate3_matches_closed_form() {
    // f(x) = x³. ∂³/∂x³ = 6.
    let (value, grad, hess, tens) =
        differentiate3::<1, 1, 1, f64, _>([2.5], |[x]| x * x * x);
    assert!(close(value, 2.5f64.powi(3)));
    assert!(close(grad[0], 3.0 * 2.5 * 2.5));
    assert!(close(hess[0][0], 6.0 * 2.5));
    assert!(close(tens[0][0][0], 6.0));
}

#[test]
fn differentiate2_vec_shape_matches_manual() {
    // f(x, y) = (x², xy) at (2, 3).
    let (values, jac, hess) =
        differentiate2_vec::<2, 3, 2, f64, _>([2.0, 3.0], |[x, y]| [x * x, x * y]);
    assert!(close(values[0], 4.0));
    assert!(close(values[1], 6.0));
    assert!(close(jac[0][0], 4.0));
    assert!(close(jac[0][1], 0.0));
    assert!(close(jac[1][0], 3.0));
    assert!(close(jac[1][1], 2.0));
    assert!(close(hess[0][0][0], 2.0));
    assert!(close(hess[0][0][1], 0.0));
    assert!(close(hess[0][1][1], 0.0));
    assert!(close(hess[1][0][0], 0.0));
    assert!(close(hess[1][0][1], 1.0));
    assert!(close(hess[1][1][0], 1.0));
    assert!(close(hess[1][1][1], 0.0));
}

#[test]
fn differentiate3_vec_symmetric_third_tensor() {
    // f(x, y) = (x³, y²·x).
    let (values, _jac, _hess, tens) = differentiate3_vec::<2, 3, 4, 2, f64, _>(
        [1.5, 1.0],
        |[x, y]| [x * x * x, y * y * x],
    );
    assert!(close(values[0], 1.5f64.powi(3)));
    assert!(close(values[1], 1.0 * 1.5));
    assert!(close(tens[0][0][0][0], 6.0));
    assert!(close(tens[0][0][0][1], 0.0));
    assert!(close(tens[1][0][1][1], 2.0));
    assert!(close(tens[1][1][0][1], 2.0));
    assert!(close(tens[1][1][1][0], 2.0));
    assert!(close(tens[1][0][0][0], 0.0));
    assert!(close(tens[1][1][1][1], 0.0));
}

#[test]
fn differentiate2_6_works() {
    // f(x0..x5) = x0 * x1 + x2 * x3 + x4 * x5
    let x = [1.0, 2.0, 3.0, 4.0, 5.0, 6.0];
    let (value, grad, hess) = differentiate2_6(x, |[a, b, c, d, e, f]| a * b + c * d + e * f);
    assert!(close(value, 1.0 * 2.0 + 3.0 * 4.0 + 5.0 * 6.0));
    assert!(close(grad[0], 2.0));
    assert!(close(grad[1], 1.0));
    assert!(close(grad[2], 4.0));
    assert!(close(grad[3], 3.0));
    assert!(close(grad[4], 6.0));
    assert!(close(grad[5], 5.0));
    assert!(close(hess[0][1], 1.0));
    assert!(close(hess[1][0], 1.0));
    assert!(close(hess[2][3], 1.0));
    assert!(close(hess[3][2], 1.0));
    assert!(close(hess[4][5], 1.0));
    assert!(close(hess[5][4], 1.0));
    assert!(close(hess[0][0], 0.0));
    assert!(close(hess[2][5], 0.0));
}

#[test]
fn differentiate3_6_matches_generic() {
    let x = [1.0, 2.0, 3.0, 4.0, 5.0, 6.0];
    let (v_g, g_g, h_g, t_g) = differentiate3::<6, 21, 56, f64, _>(x, |[a, b, c, d, e, f]| {
        a * b * c + d * e * f
    });
    let (v_s, g_s, h_s, t_s) = differentiate3_6(x, |[a, b, c, d, e, f]| a * b * c + d * e * f);
    assert_eq!(v_g, v_s);
    for i in 0..6 {
        assert_eq!(g_g[i], g_s[i]);
    }
    for i in 0..6 {
        for j in 0..6 {
            assert_eq!(h_g[i][j], h_s[i][j]);
            for k in 0..6 {
                assert_eq!(t_g[i][j][k], t_s[i][j][k]);
            }
        }
    }
}

#[test]
fn differentiate3_9_gives_nonzero_tens() {
    // f(x0..x8) = x0·x1·x2 + x3·x4·x5 + x6·x7·x8.
    let x = [1.0; 9];
    let (value, _grad, _hess, tens) = differentiate3_9(x, |[a, b, c, d, e, f, g, h, i]| {
        a * b * c + d * e * f + g * h * i
    });
    assert!(close(value, 3.0));
    assert!(close(tens[0][1][2], 1.0));
    assert!(close(tens[2][1][0], 1.0));
    assert!(close(tens[3][4][5], 1.0));
    assert!(close(tens[6][7][8], 1.0));
    assert!(close(tens[0][0][0], 0.0));
    assert!(close(tens[0][3][6], 0.0));
}

#[test]
fn differentiate1_vec_spherical() {
    // f(x, y, z) = (r, theta) where r = sqrt(x²+y²+z²), theta = atan2(z, sqrt(x²+y²))
    let x = 3.0_f64;
    let y = 4.0_f64;
    let z = 0.0_f64;
    let (values, jac) = differentiate1_vec::<3, 2, f64, _>([x, y, z], |[x, y, z]| {
        let sq = x * x + y * y + z * z;
        let r = sq.compose(sq.value.sqrt(), 0.5 / sq.value.sqrt());
        let rho_sq = x * x + y * y;
        let rho = rho_sq.compose(rho_sq.value.sqrt(), 0.5 / rho_sq.value.sqrt());
        let theta = z.atan2_with(rho, z.value.atan2(rho.value));
        [r, theta]
    });
    // r = 5, theta = 0 (z = 0)
    assert!(close(values[0], 5.0));
    assert!(close(values[1], 0.0));
    // ∂r/∂x = x/r = 3/5, ∂r/∂y = 4/5, ∂r/∂z = 0
    assert!(close(jac[0][0], 3.0 / 5.0));
    assert!(close(jac[0][1], 4.0 / 5.0));
    assert!(close(jac[0][2], 0.0));
}

#[test]
fn differentiate1_polynomial_integer_exact() {
    // f(x, y) = x*y + x² at (3, 4): value 21, ∇f = (y + 2x, x) = (10, 3).
    let (value, grad) = differentiate1::<2, i64, _>([3, 4], |[x, y]| x * y + x * x);
    assert_eq!(value, 21);
    assert_eq!(grad, [10, 3]);
}

#[test]
fn differentiate1_vec_integer_jacobian() {
    // f(x, y, z) = (x·y, y·z - x) at (2, 3, 5).
    let (values, jac) =
        differentiate1_vec::<3, 2, i64, _>([2, 3, 5], |[x, y, z]| [x * y, y * z - x]);
    assert_eq!(values, [6, 13]);
    assert_eq!(jac[0], [3, 2, 0]);
    assert_eq!(jac[1], [-1, 5, 3]);
}

#[test]
fn differentiate2_9_integer_hessian_is_dense_and_symmetric() {
    // f = x0·x8 + x4·x4 at x = (1..9): ∂²f/∂x0∂x8 = 1, ∂²f/∂x4² = 2.
    let x = [1i64, 2, 3, 4, 5, 6, 7, 8, 9];
    let (value, grad, hess) = differentiate2_9(x, |xs| xs[0] * xs[8] + xs[4] * xs[4]);
    assert_eq!(value, 9 + 25);
    assert_eq!(grad[0], 9);
    assert_eq!(grad[8], 1);
    assert_eq!(grad[4], 10);
    assert_eq!(hess[0][8], 1);
    assert_eq!(hess[8][0], 1);
    assert_eq!(hess[4][4], 2);
    for i in 0..9 {
        for j in 0..9 {
            assert_eq!(hess[i][j], hess[j][i]);
        }
    }
}

#[test]
fn differentiate3_integer_mixed_third_derivative() {
    // f(x, y, z) = x·y·z at (2, 3, 4): ∂³f/∂x∂y∂z = 1 in every permutation.
    let (value, grad, hess, tens) =
        differentiate3::<3, 6, 10, i64, _>([2, 3, 4], |[x, y, z]| x * y * z);
    assert_eq!(value, 24);
    assert_eq!(grad, [12, 8, 6]);
    assert_eq!(hess[0][1], 4);
    assert_eq!(hess[2][1], 2);
    assert_eq!(hess[0][0], 0);
    for (i, j, k) in [(0, 1, 2), (0, 2, 1), (1, 0, 2), (1, 2, 0), (2, 0, 1), (2, 1, 0)] {
        assert_eq!(tens[i][j][k], 1);
    }
    assert_eq!(tens[0][0][1], 0);
}

#[test]
fn differentiate3_6_integer_cubic() {
    // f = x5³ at x5 = 2: ∂³f/∂x5³ = 6.
    let x = [0i64, 0, 0, 0, 0, 2];
    let (value, _grad, hess, tens) = differentiate3_6(x, |xs| xs[5] * xs[5] * xs[5]);
    assert_eq!(value, 8);
    assert_eq!(hess[5][5], 12);
    assert_eq!(tens[5][5][5], 6);
}

#[test]
fn manual_seed_matches_differentiate2() {
    let x = Jet2::<2, 3, f64>::variable(1.5, 0);
    let y = Jet2::<2, 3, f64>::variable(-0.5, 1);
    let manual = x * y * y;
    let (value, grad, hess) = differentiate2::<2, 3, f64, _>([1.5, -0.5], |[x, y]| x * y * y);
    assert_eq!(value, manual.value);
    assert_eq!(grad, manual.grad);
    assert_eq!(hess[1][1], manual.hess[2]);
    assert_eq!(hess[0][1], manual.hess[1]);
    let c = Jet1::<3, f64>::constant(4.0);
    assert_eq!(c.extract_grad(), [0.0; 3]);
}

#[test]
fn differentiate2_9_matches_generic() {
    // f(x0..x8) = Σ i·xᵢ². Hessian is diagonal with 2i on the diagonal.
    let x = [0.5, 0.4, 0.3, 0.2, 0.1, 0.0, -0.1, -0.2, -0.3];
    let (v_g, g_g, h_g) = differentiate2::<9, 45, f64, _>(x, |xs| {
        let mut acc = Jet2::<9, 45, f64>::constant(0.0);
        for (i, xi) in xs.into_iter().enumerate() {
            acc = acc + xi * xi * (i as f64);
        }
        acc
    });
    let (v_s, g_s, h_s) = differentiate2_9(x, |xs| {
        let mut acc = Jet2::<9, 45, f64>::constant(0.0);
        for (i, xi) in xs.into_iter().enumerate() {
            acc = acc + xi * xi * (i as f64);
        }
        acc
    });
    assert_eq!(v_g, v_s);
    for i in 0..9 {
        assert_eq!(g_g[i], g_s[i]);
        for j in 0..9 {
            assert_eq!(h_g[i][j], h_s[i][j]);
        }
    }
    assert!(close(h_s[3][3], 6.0));
    assert!(close(h_s[3][4], 0.0));
}

#[test]
fn derivative_arrays_have_the_documented_shapes() {
    let (_v, g, h, t) = differentiate3::<2, 3, 4, i64, _>([1, 2], |[x, y]| x * x * y);
    let g: Gradient<2, i64> = g;
    let h: Hessian<2, i64> = h;
    let t: ThirdOrderTensor<2, i64> = t;
    // f = x²y at (1, 2): ∇f = (4, 1), ∇²f = [[4, 2], [2, 0]], ∂³f/∂x²∂y = 2.
    assert_eq!(g, [4, 1]);
    assert_eq!(h, [[4, 2], [2, 0]]);
    assert_eq!(t[0][0][1], 2);
    assert_eq!(t[1][0][0], 2);
    assert_eq!(t[0][0][0], 0);
}
