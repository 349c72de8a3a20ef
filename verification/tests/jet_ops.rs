use nolan::jets::{Jet1, Jet2, Jet3};

const TOL: f64 = 1e-12;

fn assert_close(actual: f64, expected: f64, what: &str) {
    assert!(
        (actual - expected).abs() <= TOL,
        "{}: expected {}, got {}",
        what,
        expected,
        actual
    );
}

type J3_2 = Jet3<2, 3, 4, f64>;
type J3_1 = Jet3<1, 1, 1, f64>;

#[test]
fn sub_preserves_derivatives() {
    let x = J3_2::variable(2.0, 0);
    let y = J3_2::variable(0.5, 1);
    let f = x - y;
    assert_close(f.value, 1.5, "value");
    assert_close(f.grad[0], 1.0, "grad[0]");
    assert_close(f.grad[1], -1.0, "grad[1]");
    for h in f.hess.iter() {
        assert_close(*h, 0.0, "hess");
    }
    for t in f.tens.iter() {
        assert_close(*t, 0.0, "tens");
    }
}

#[test]
fn mul_xy_zero_third_derivative() {
    let a = 1.7;
    let b = -2.3;
    let x = J3_2::variable(a, 0);
    let y = J3_2::variable(b, 1);
    let f = x * y;
    assert_close(f.value, a * b, "value");
    assert_close(f.grad[0], b, "∂(xy)/∂x = y");
    assert_close(f.grad[1], a, "∂(xy)/∂y = x");
    assert_close(f.hess[0], 0.0, "∂²(xy)/∂x² = 0");
    assert_close(f.hess[1], 1.0, "∂²(xy)/∂x∂y = 1");
    assert_close(f.hess[2], 0.0, "∂²(xy)/∂y² = 0");
    for (idx, t) in f.tens.iter().enumerate() {
        assert_close(*t, 0.0, &format!("tens[{idx}] of xy"));
    }
}

#[test]
fn mul_x2y_nonzero_third_derivative() {
    let a = 1.3;
    let b = 0.7;
    let x = J3_2::variable(a, 0);
    let y = J3_2::variable(b, 1);
    let f = (x * x) * y;
    assert_close(f.value, a * a * b, "value");
    assert_close(f.grad[0], 2.0 * a * b, "∂(x²y)/∂x");
    assert_close(f.grad[1], a * a, "∂(x²y)/∂y");
    assert_close(f.hess[0], 2.0 * b, "∂²(x²y)/∂x²");
    assert_close(f.hess[1], 2.0 * a, "∂²(x²y)/∂x∂y");
    assert_close(f.hess[2], 0.0, "∂²(x²y)/∂y²");
    assert_close(f.tens[0], 0.0, "∂³(x²y)/∂x³");
    assert_close(f.tens[1], 2.0, "∂³(x²y)/∂y∂x² = 2");
    assert_close(f.tens[2], 0.0, "∂³(x²y)/∂y²∂x");
    assert_close(f.tens[3], 0.0, "∂³(x²y)/∂y³");
}

#[test]
fn mul_x_cubed_third_derivative_is_six() {
    let a = 2.5;
    let x = J3_1::variable(a, 0);
    let f = x * x * x;
    assert_close(f.value, a * a * a, "value");
    assert_close(f.grad[0], 3.0 * a * a, "∂x³/∂x = 3x²");
    assert_close(f.hess[0], 6.0 * a, "∂²x³/∂x² = 6x");
    assert_close(f.tens[0], 6.0, "∂³x³/∂x³ = 6");
}

#[test]
fn jet1_integer_product_rule() {
    let x = Jet1::<2, i32>::variable(3, 0);
    let y = Jet1::<2, i32>::variable(5, 1);
    let f = x * y + x - y;
    assert_eq!(f.value, 15 + 3 - 5);
    assert_eq!(f.grad, [5 + 1, 3 - 1]);
    assert_eq!(f.grad_at(1), 2);
}

#[test]
fn jet2_integer_leibniz_rule() {
    // f = x²·y at (3, 2): ∂f = (12, 9), ∂² = [[4, 6], [6, 0]].
    let x = Jet2::<2, 3, i64>::variable(3, 0);
    let y = Jet2::<2, 3, i64>::variable(2, 1);
    let f = x * x * y;
    assert_eq!(f.value, 18);
    assert_eq!(f.grad, [12, 9]);
    assert_eq!(f.hess, [4, 6, 0]);
    assert_eq!(f.hess_at(0, 1), 6);
    assert_eq!(f.hess_at(1, 0), 6);
    assert_eq!(f.extract_hess(), [[4, 6], [6, 0]]);
}

#[test]
fn jet3_integer_tensor_accessor_is_fully_symmetric() {
    // f = x·y²·z at (1, 2, 3).
    let x = Jet3::<3, 6, 10, i64>::variable(1, 0);
    let y = Jet3::<3, 6, 10, i64>::variable(2, 1);
    let z = Jet3::<3, 6, 10, i64>::variable(3, 2);
    let f = x * y * y * z;
    assert_eq!(f.value, 12);
    // ∂³f/∂x∂y∂z = 2y = 4, ∂³f/∂y²∂x = 2z = 6, ∂³f/∂y²∂z = 2x = 2.
    let dense = f.extract_tens();
    for i in 0..3 {
        for j in 0..3 {
            for k in 0..3 {
                let v = f.tens_at(i, j, k);
                assert_eq!(v, f.tens_at(i, k, j));
                assert_eq!(v, f.tens_at(j, i, k));
                assert_eq!(v, f.tens_at(j, k, i));
                assert_eq!(v, f.tens_at(k, i, j));
                assert_eq!(v, f.tens_at(k, j, i));
                assert_eq!(v, dense[i][j][k]);
            }
        }
    }
    assert_eq!(f.tens_at(0, 1, 2), 4);
    assert_eq!(f.tens_at(1, 1, 0), 6);
    assert_eq!(f.tens_at(2, 1, 1), 2);
    assert_eq!(f.tens_at(0, 0, 0), 0);
    assert_eq!(f.extract_hess()[1][1], 2 * 1 * 3);
}

#[test]
fn jet_constant_has_no_derivatives() {
    let c = Jet3::<2, 3, 4, f64>::constant(5.0);
    assert_eq!(c.value, 5.0);
    assert_eq!(c.grad, [0.0; 2]);
    assert_eq!(c.hess, [0.0; 3]);
    assert_eq!(c.tens, [0.0; 4]);
    let v = Jet2::<3, 6, f64>::variable(1.0, 1);
    assert_eq!(v.extract_grad(), [0.0, 1.0, 0.0]);
    assert_eq!(v.extract_hess(), [[0.0; 3]; 3]);
}

#[test]
fn add_preserves_derivatives() {
    // f(x, y) = 3*x + 2*y + 7
    let x = J3_2::variable(1.5, 0);
    let y = J3_2::variable(-0.3, 1);
    let f = x * 3.0 + y * 2.0 + 7.0;
    assert_close(f.value, 3.0 * 1.5 + 2.0 * -0.3 + 7.0, "value");
    assert_close(f.grad[0], 3.0, "grad[0]");
    assert_close(f.grad[1], 2.0, "grad[1]");
    for h in f.hess.iter() {
        assert_close(*h, 0.0, "hess");
    }
    for t in f.tens.iter() {
        assert_close(*t, 0.0, "tens");
    }
}

#[test]
fn div_x_over_y() {
    let a = 3.0;
    let b: f64 = 2.0;
    let x = J3_2::variable(a, 0);
    let y = J3_2::variable(b, 1);
    let f = x / y;
    assert_close(f.value, a / b, "value");
    assert_close(f.grad[0], 1.0 / b, "∂(x/y)/∂x");
    assert_close(f.grad[1], -a / (b * b), "∂(x/y)/∂y");
    assert_close(f.hess[0], 0.0, "∂²(x/y)/∂x²");
    assert_close(f.hess[1], -1.0 / (b * b), "∂²(x/y)/∂x∂y");
    assert_close(f.hess[2], 2.0 * a / b.powi(3), "∂²(x/y)/∂y²");
    assert_close(f.tens[0], 0.0, "∂³(x/y)/∂x³");
    assert_close(f.tens[1], 0.0, "∂³(x/y)/∂y∂x²");
    assert_close(f.tens[2], 2.0 / b.powi(3), "∂³(x/y)/∂y²∂x");
    assert_close(f.tens[3], -6.0 * a / b.powi(4), "∂³(x/y)/∂y³");
}

#[test]
fn div_one_over_x() {
    let a: f64 = 1.25;
    let one = J3_1::constant(1.0);
    let x = J3_1::variable(a, 0);
    let f = one / x;
    assert_close(f.value, 1.0 / a, "value");
    assert_close(f.grad[0], -1.0 / (a * a), "∂(1/x)/∂x");
    assert_close(f.hess[0], 2.0 / a.powi(3), "∂²(1/x)/∂x²");
    assert_close(f.tens[0], -6.0 / a.powi(4), "∂³(1/x)/∂x³");
}

#[test]
fn neg_flips_all_derivatives() {
    let a: f64 = 1.5;
    let x = J3_1::variable(a, 0);
    let f = -(x * x * x);
    assert_close(f.value, -a.powi(3), "value");
    assert_close(f.grad[0], -3.0 * a * a, "grad");
    assert_close(f.hess[0], -6.0 * a, "hess");
    assert_close(f.tens[0], -6.0, "tens");
}

#[test]
fn add_f64_preserves_derivatives() {
    let a = 0.7;
    let x = J3_1::variable(a, 0);
    let f = x + 5.0;
    assert_close(f.value, a + 5.0, "value");
    assert_close(f.grad[0], 1.0, "grad");
    assert_close(f.hess[0], 0.0, "hess");
    assert_close(f.tens[0], 0.0, "tens");
}

#[test]
fn mul_by_f64_scales_all_derivatives() {
    let a: f64 = 1.1;
    let x = J3_1::variable(a, 0);
    let f = (x * x * x) * 3.0;
    assert_close(f.value, 3.0 * a.powi(3), "value");
    assert_close(f.grad[0], 9.0 * a * a, "grad");
    assert_close(f.hess[0], 18.0 * a, "hess");
    assert_close(f.tens[0], 18.0, "tens");
}

#[test]
fn div_by_f64_scales_all_derivatives() {
    let a: f64 = 2.0;
    let x = J3_1::variable(a, 0);
    let f = (x * x * x) / 2.0;
    assert_close(f.value, a.powi(3) / 2.0, "value");
    assert_close(f.grad[0], 3.0 * a * a / 2.0, "grad");
    assert_close(f.hess[0], 6.0 * a / 2.0, "hess");
    assert_close(f.tens[0], 6.0 / 2.0, "tens");
}

#[test]
fn jet2_integer_quotient_rule() {
    // f = x / y at (8, 2) over i64: value 4, ∂f/∂x = (1 - 4·0)/2 = 0 (truncated),
    // ∂f/∂y = (0 - 4·1)/2 = -2.
    let x = Jet2::<2, 3, i64>::variable(8, 0);
    let y = Jet2::<2, 3, i64>::variable(2, 1);
    let f = x / y;
    assert_eq!(f.value, 4);
    assert_eq!(f.grad, [0, -2]);
    // ∂²f/∂y² = (0 - 4·0 - (-2)·1 - (-2)·1) / 2 = 2.
    assert_eq!(f.hess[2], 2);
}

#[test]
fn jet1_integer_scalar_ops_and_negation() {
    let x = Jet1::<2, i32>::variable(3, 0);
    let f = -(x * 4 + 1 - 2);
    assert_eq!(f.value, -(12 + 1 - 2));
    assert_eq!(f.grad, [-4, 0]);
    let g = (x * 6) / 3;
    // Divides by multiplying with 1/3, which truncates to 0 for integers.
    assert_eq!(g.value, 0);
    assert_eq!(g.grad, [0, 0]);
}

#[test]
fn test_jet1_9_variable_seeds_gradient() {
    let x = Jet1::<9, f64>::variable(1.5, 6);
    assert_eq!(x.value, 1.5);
    for i in 0..9 {
        let expected = if i == 6 { 1.0 } else { 0.0 };
        assert_eq!(x.grad_at(i), expected, "grad({i}) = {}, expected {expected}", x.grad_at(i));
    }
}

#[test]
fn test_jet1_6_variable_seeds_gradient() {
    for idx in 0..6 {
        let x = Jet1::<6, f64>::variable(2.0, idx);
        assert_eq!(x.value, 2.0);
        for j in 0..6 {
            let expected = if j == idx { 1.0 } else { 0.0 };
            assert_eq!(x.grad_at(j), expected);
        }
    }
}

#[test]
fn test_extract_grad_identity() {
    let x = Jet1::<6, f64>::variable(3.0, 2);
    let g: [f64; 6] = x.extract_grad();
    assert_eq!(g, [0.0, 0.0, 1.0, 0.0, 0.0, 0.0]);
}

#[test]
fn test_extract_grad_constant() {
    let c = Jet1::<6, f64>::constant(5.0);
    let g: [f64; 6] = c.extract_grad();
    assert_eq!(g, [0.0; 6]);
}

#[test]
fn test_extract_grad_after_arithmetic() {
    let x = Jet1::<2, f64>::variable(2.0, 0);
    let y = Jet1::<2, f64>::variable(3.0, 1);
    let f = x * y;
    let g: [f64; 2] = f.extract_grad();
    assert_eq!(g[0], 3.0);
    assert_eq!(g[1], 2.0);
}

#[test]
fn test_extract_grad_jet2() {
    let x = Jet2::<3, 6, f64>::variable(1.0, 1);
    let g: [f64; 3] = x.extract_grad();
    assert_eq!(g, [0.0, 1.0, 0.0]);
}

#[test]
fn test_extract_hess_constant() {
    let c = Jet2::<3, 6, f64>::constant(5.0);
    let h: [[f64; 3]; 3] = c.extract_hess();
    assert_eq!(h, [[0.0; 3]; 3]);
}

#[test]
fn test_extract_hess_variable() {
    let x = Jet2::<3, 6, f64>::variable(2.0, 0);
    let h: [[f64; 3]; 3] = x.extract_hess();
    assert_eq!(h, [[0.0; 3]; 3]);
}

#[test]
fn test_extract_hess_product() {
    let x = Jet2::<2, 3, f64>::variable(2.0, 0);
    let y = Jet2::<2, 3, f64>::variable(3.0, 1);
    let f = x * y;
    let h: [[f64; 2]; 2] = f.extract_hess();
    assert_eq!(h[0][0], 0.0);
    assert_eq!(h[1][1], 0.0);
    assert_eq!(h[0][1], 1.0);
    assert_eq!(h[1][0], 1.0);
}

#[test]
fn test_extract_hess_square() {
    let x = Jet2::<1, 1, f64>::variable(3.0, 0);
    let f = x * x;
    let h: [[f64; 1]; 1] = f.extract_hess();
    assert_eq!(h[0][0], 2.0);
}

#[test]
fn test_extract_hess_symmetry() {
    let x = Jet2::<3, 6, f64>::variable(1.0, 0);
    let y = Jet2::<3, 6, f64>::variable(2.0, 1);
    let z = Jet2::<3, 6, f64>::variable(3.0, 2);
    let f = x * y * z;
    let h: [[f64; 3]; 3] = f.extract_hess();
    for i in 0..3 {
        for j in 0..3 {
            assert_eq!(h[i][j], h[j][i], "Hessian not symmetric at [{i}][{j}]");
        }
    }
    assert_eq!(h[0][1], 3.0);
    assert_eq!(h[0][2], 2.0);
    assert_eq!(h[1][2], 1.0);
}

#[test]
fn readme_jet1_example() {
    let x = Jet1::<3, f64>::variable(2.0, 0);
    let y = Jet1::<3, f64>::variable(3.0, 1);
    let f = x * x + y;
    assert_eq!(f.value, 7.0);
    assert_eq!(f.grad[0], 4.0);
    assert_eq!(f.grad[1], 1.0);
}

#[test]
fn readme_jet2_example() {
    let x = Jet2::<2, 3, f64>::variable(2.0, 0);
    let y = Jet2::<2, 3, f64>::variable(3.0, 1);
    let f = x * x * y;
    assert_eq!(f.value, 12.0);
    assert_eq!(f.grad, [12.0, 4.0]);
    assert_eq!(f.hess, [6.0, 4.0, 0.0]);
}

#[test]
fn integer_jet_multiplication_is_commutative() {
    let x = Jet3::<2, 3, 4, i64>::variable(3, 0);
    let y = Jet3::<2, 3, 4, i64>::variable(-2, 1);
    let a = x * x + y;
    let b = x * y * y - x;
    let ab = a * b;
    let ba = b * a;
    assert_eq!(ab.value, ba.value);
    assert_eq!(ab.grad, ba.grad);
    assert_eq!(ab.hess, ba.hess);
    assert_eq!(ab.tens, ba.tens);
    let p = Jet2::<2, 3, i64>::variable(5, 0) * Jet2::<2, 3, i64>::variable(7, 1);
    let q = Jet2::<2, 3, i64>::variable(7, 1) * Jet2::<2, 3, i64>::variable(5, 0);
    assert_eq!(p.hess, q.hess);
    assert_eq!(p.hess, [0, 1, 0]);
}
