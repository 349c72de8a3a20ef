use nolan::jets::Jet1;
use nolan::linalg::generic::{
    mahalanobis_distance_squared_with_inv, mat_ata, mat_mul, mat_quadratic_form, mat_symmetrize,
    mat_trace_cube,
    mat_trace, mat_trace_product, mat_transpose, mat_vec_mul,
};
use nolan::linalg::mat3::{mat3_det, mat3_mul, mat3_transpose, mat3_transpose_vec_mul, mat3_vec_mul};
use nolan::linalg::mat6::{mat6_add, mat6_mul, mat6_symmetrize, mat6_transpose, mat6_vec_mul};
use nolan::linalg::mat9::{mat9_add, mat9_mul, mat9_symmetrize, mat9_transpose, mat9_vec_mul};
use nolan::linalg::regularize::tikhonov;
use nolan::linalg::vec3::{cross3, dot3, norm_squared3};

fn identity3() -> [[f64; 3]; 3] {
    [[1.0, 0.0, 0.0], [0.0, 1.0, 0.0], [0.0, 0.0, 1.0]]
}

fn identity6() -> [[f64; 6]; 6] {
    let mut id = [[0.0; 6]; 6];
    for i in 0..6 {
        id[i][i] = 1.0;
    }
    id
}

fn diagonal6(vals: &[f64; 6]) -> [[f64; 6]; 6] {
    let mut m = [[0.0; 6]; 6];
    for i in 0..6 {
        m[i][i] = vals[i];
    }
    m
}

fn identity9() -> [[f64; 9]; 9] {
    let mut id = [[0.0; 9]; 9];
    for i in 0..9 {
        id[i][i] = 1.0;
    }
    id
}

fn diagonal9(vals: &[f64; 9]) -> [[f64; 9]; 9] {
    let mut m = [[0.0; 9]; 9];
    for i in 0..9 {
        m[i][i] = vals[i];
    }
    m
}

// ── 3 × 3 ────────────────────────────────────────────────────────

#[test]
fn test_mat3_mul_identity() {
    let id = identity3();
    let a = [[1.0, 2.0, 3.0], [4.0, 5.0, 6.0], [7.0, 8.0, 9.0]];
    let c = mat3_mul(&a, &id);
    for i in 0..3 {
        for j in 0..3 {
            assert!((c[i][j] - a[i][j]).abs() < 1e-15);
        }
    }
}

#[test]
fn test_mat3_transpose() {
    let a = [[1.0, 2.0, 3.0], [4.0, 5.0, 6.0], [7.0, 8.0, 9.0]];
    let t = mat3_transpose(&a);
    for i in 0..3 {
        for j in 0..3 {
            assert!(f64::abs(t[i][j] - a[j][i]) < 1e-15);
        }
    }
}

#[test]
fn test_mat3_vec_mul_identity() {
    let id = identity3();
    let x = [1.0, 2.0, 3.0];
    let y = mat3_vec_mul(&id, &x);
    for i in 0..3 {
        assert!((y[i] - x[i]).abs() < 1e-15);
    }
}

#[test]
fn test_mat3_transpose_vec_mul() {
    let a = [[1.0, 2.0, 3.0], [4.0, 5.0, 6.0], [7.0, 8.0, 9.0]];
    let x = [1.0, 1.0, 1.0];
    let y = mat3_transpose_vec_mul(&a, &x);
    // A^T * [1,1,1] = column sums = [1+4+7, 2+5+8, 3+6+9] = [12, 15, 18]
    assert!(f64::abs(y[0] - 12.0) < 1e-14);
    assert!(f64::abs(y[1] - 15.0) < 1e-14);
    assert!(f64::abs(y[2] - 18.0) < 1e-14);
}

#[test]
fn test_mat3_det_identity_f64() {
    let id = identity3();
    assert!((mat3_det(&id) - 1.0).abs() < 1e-15);
}

#[test]
fn test_mat3_det_diagonal_f64() {
    let m = [[2.0, 0.0, 0.0], [0.0, 3.0, 0.0], [0.0, 0.0, 4.0]];
    assert!(f64::abs(mat3_det(&m) - 24.0) < 1e-15);
}

#[test]
fn test_mat3_det_singular_f64() {
    let m = [[1.0, 2.0, 3.0], [2.0, 4.0, 6.0], [0.0, 1.0, 0.0]];
    assert!(f64::abs(mat3_det(&m)) < 1e-15);
}

#[test]
fn test_mat3_det_sign_flip_on_row_swap() {
    let a = [[1.0, 2.0, 0.0], [0.0, 1.0, 3.0], [4.0, 0.0, 1.0]];
    let mut b = a;
    b.swap(0, 1);
    assert!(f64::abs(mat3_det(&a) + mat3_det(&b)) < 1e-13);
}

#[test]
fn mat3_det_of_integer_matrix_is_exact() {
    let a: [[i64; 3]; 3] = [[2, -1, 0], [1, 3, 4], [0, 5, -2]];
    // 2(3·(-2) - 4·5) - (-1)(1·(-2) - 4·0) + 0 = 2(-26) + (-2) = -54
    assert_eq!(mat3_det(&a), -54);
}

#[test]
fn mat3_transpose_vec_mul_matches_explicit_transpose() {
    let a = [[1.5, -2.0, 3.25], [4.0, 0.5, -6.0], [7.0, 8.0, 9.5]];
    let x = [0.3, -1.7, 2.2];
    let direct = mat3_transpose_vec_mul(&a, &x);
    let via_t = mat3_vec_mul(&mat3_transpose(&a), &x);
    assert_eq!(direct, via_t);
}

#[test]
fn mat3_mul_of_integer_matrices() {
    let a: [[i64; 3]; 3] = [[1, 2, 3], [4, 5, 6], [7, 8, 9]];
    let b: [[i64; 3]; 3] = [[9, 8, 7], [6, 5, 4], [3, 2, 1]];
    assert_eq!(mat3_mul(&a, &b), [[30, 24, 18], [84, 69, 54], [138, 114, 90]]);
}

// ── 6 × 6 ────────────────────────────────────────────────────────

#[test]
fn test_mat6_mul_identity() {
    let id = identity6();
    let a = diagonal6(&[1.0, 2.0, 3.0, 4.0, 5.0, 6.0]);
    let c = mat6_mul(&a, &id);
    for i in 0..6 {
        for j in 0..6 {
            assert!((c[i][j] - a[i][j]).abs() < 1e-15);
        }
    }
}

#[test]
fn test_mat6_transpose() {
    let mut a = [[0.0; 6]; 6];
    for i in 0..6 {
        for j in 0..6 {
            a[i][j] = (i * 6 + j) as f64;
        }
    }
    let t = mat6_transpose(&a);
    for i in 0..6 {
        for j in 0..6 {
            assert!((t[i][j] - a[j][i]).abs() < 1e-15);
        }
    }
}

#[test]
fn test_mat6_vec_mul_identity() {
    let id = identity6();
    let x = [1.0, 2.0, 3.0, 4.0, 5.0, 6.0];
    let y = mat6_vec_mul(&id, &x);
    for i in 0..6 {
        assert!((y[i] - x[i]).abs() < 1e-15);
    }
}

#[test]
fn test_mat6_add() {
    let a = diagonal6(&[1.0, 2.0, 3.0, 4.0, 5.0, 6.0]);
    let b = diagonal6(&[6.0, 5.0, 4.0, 3.0, 2.0, 1.0]);
    let c = mat6_add(&a, &b);
    for i in 0..6 {
        assert!((c[i][i] - 7.0).abs() < 1e-15);
    }
}

#[test]
fn test_mat6_symmetrize() {
    let mut a = [[0.0; 6]; 6];
    a[0][1] = 2.0;
    a[1][0] = 4.0;
    let s = mat6_symmetrize(&a);
    assert!(f64::abs(s[0][1] - 3.0) < 1e-15);
    assert!(f64::abs(s[1][0] - 3.0) < 1e-15);
}

// ── 9 × 9 ────────────────────────────────────────────────────────

#[test]
fn test_mat9_mul_identity() {
    let id = identity9();
    let a = diagonal9(&[1.0, 2.0, 3.0, 4.0, 5.0, 6.0, 7.0, 8.0, 9.0]);
    let c = mat9_mul(&a, &id);
    for i in 0..9 {
        for j in 0..9 {
            assert!((c[i][j] - a[i][j]).abs() < 1e-15);
        }
    }
}

#[test]
fn test_mat9_transpose() {
    let mut a = [[0.0; 9]; 9];
    for i in 0..9 {
        for j in 0..9 {
            a[i][j] = (i * 9 + j) as f64;
        }
    }
    let t = mat9_transpose(&a);
    for i in 0..9 {
        for j in 0..9 {
            assert!((t[i][j] - a[j][i]).abs() < 1e-15);
        }
    }
}

#[test]
fn test_mat9_vec_mul_identity() {
    let id = identity9();
    let x = [1.0, 2.0, 3.0, 4.0, 5.0, 6.0, 7.0, 8.0, 9.0];
    let y = mat9_vec_mul(&id, &x);
    for i in 0..9 {
        assert!((y[i] - x[i]).abs() < 1e-15);
    }
}

#[test]
fn test_mat9_add() {
    let a = diagonal9(&[1.0, 2.0, 3.0, 4.0, 5.0, 6.0, 7.0, 8.0, 9.0]);
    let b = diagonal9(&[9.0, 8.0, 7.0, 6.0, 5.0, 4.0, 3.0, 2.0, 1.0]);
    let c = mat9_add(&a, &b);
    for i in 0..9 {
        assert!((c[i][i] - 10.0).abs() < 1e-15);
    }
}

#[test]
fn test_mat9_symmetrize() {
    let mut a = [[0.0; 9]; 9];
    a[0][1] = 2.0;
    a[1][0] = 4.0;
    let s = mat9_symmetrize(&a);
    assert!(f64::abs(s[0][1] - 3.0) < 1e-15);
    assert!(f64::abs(s[1][0] - 3.0) < 1e-15);
}

// ── N × N ────────────────────────────────────────────────────────

#[test]
fn test_mat_symmetrize() {
    let mut a = [[0.0; 4]; 4];
    a[0][1] = 2.0;
    a[1][0] = 4.0;
    a[2][3] = 6.0;
    a[3][2] = 8.0;
    let s = mat_symmetrize(&a);
    assert!(f64::abs(s[0][1] - 3.0) < 1e-15);
    assert!(f64::abs(s[1][0] - 3.0) < 1e-15);
    assert!(f64::abs(s[2][3] - 7.0) < 1e-15);
    assert!(f64::abs(s[3][2] - 7.0) < 1e-15);
}

#[test]
fn test_mat_quadratic_form() {
    // x^T I x = ||x||^2
    let mut id = [[0.0; 3]; 3];
    for i in 0..3 {
        id[i][i] = 1.0;
    }
    let x = [1.0, 2.0, 3.0];
    let q = mat_quadratic_form(&x, &id);
    assert!(f64::abs(q - 14.0) < 1e-15);
}

#[test]
fn test_mat_trace() {
    let a = [[1.0, 2.0, 3.0], [4.0, 5.0, 6.0], [7.0, 8.0, 9.0]];
    assert!(f64::abs(mat_trace(&a) - 15.0) < 1e-15);
}

#[test]
fn test_mat_mul_identity() {
    let i: [[f64; 3]; 3] =
        std::array::from_fn(|i| std::array::from_fn(|j| if i == j { 1.0 } else { 0.0 }));
    let a = [[1.0, 2.0, 3.0], [4.0, 5.0, 6.0], [7.0, 8.0, 9.0]];
    let c = mat_mul::<f64, 3, 3, 3>(&a, &i);
    for row in 0..3 {
        for col in 0..3 {
            assert_eq!(c[row][col], a[row][col]);
        }
    }
}

#[test]
fn test_mat_mul_rectangular_2x3_times_3x4() {
    let a: [[f64; 3]; 2] = [[1.0, 2.0, 3.0], [4.0, 5.0, 6.0]];
    let b: [[f64; 4]; 3] = [
        [1.0, 0.0, 0.0, 1.0],
        [0.0, 1.0, 0.0, 1.0],
        [0.0, 0.0, 1.0, 1.0],
    ];
    let c = mat_mul::<f64, 2, 3, 4>(&a, &b);
    let expected: [[f64; 4]; 2] = [[1.0, 2.0, 3.0, 6.0], [4.0, 5.0, 6.0, 15.0]];
    for row in 0..2 {
        for col in 0..4 {
            assert!((c[row][col] - expected[row][col]).abs() < 1e-14);
        }
    }
}

#[test]
fn test_mat_mul_matches_mat3_mul() {
    // Byte-equality with the 3×3 specialization.
    let a = [[1.0, 2.0, 3.0], [4.0, 5.0, 6.0], [7.0, 8.0, 9.0]];
    let b = [[9.0, 8.0, 7.0], [6.0, 5.0, 4.0], [3.0, 2.0, 1.0]];
    let c_specialized = mat3_mul(&a, &b);
    let c_generic = mat_mul::<f64, 3, 3, 3>(&a, &b);
    for i in 0..3 {
        for j in 0..3 {
            assert_eq!(c_specialized[i][j], c_generic[i][j]);
        }
    }
}

#[test]
fn test_mat_transpose_square() {
    let a = [[1.0, 2.0, 3.0], [4.0, 5.0, 6.0], [7.0, 8.0, 9.0]];
    let t = mat_transpose::<f64, 3, 3>(&a);
    for i in 0..3 {
        for j in 0..3 {
            assert_eq!(t[j][i], a[i][j]);
        }
    }
}

#[test]
fn test_mat_transpose_rectangular() {
    let a: [[f64; 4]; 2] = [[1.0, 2.0, 3.0, 4.0], [5.0, 6.0, 7.0, 8.0]];
    let t: [[f64; 2]; 4] = mat_transpose::<f64, 2, 4>(&a);
    for i in 0..2 {
        for j in 0..4 {
            assert_eq!(t[j][i], a[i][j]);
        }
    }
}

#[test]
fn test_mat_transpose_involutive() {
    let a: [[f64; 5]; 3] = std::array::from_fn(|i| std::array::from_fn(|j| (3 * i + j) as f64));
    let t = mat_transpose::<f64, 3, 5>(&a);
    let tt = mat_transpose::<f64, 5, 3>(&t);
    for i in 0..3 {
        for j in 0..5 {
            assert_eq!(tt[i][j], a[i][j]);
        }
    }
}

#[test]
fn test_mat_ata_identity() {
    let i: [[f64; 3]; 3] =
        std::array::from_fn(|i| std::array::from_fn(|j| if i == j { 1.0 } else { 0.0 }));
    let c = mat_ata::<f64, 3, 3>(&i);
    for row in 0..3 {
        for col in 0..3 {
            assert_eq!(c[row][col], if row == col { 1.0 } else { 0.0 });
        }
    }
}

#[test]
fn test_mat_ata_matches_explicit() {
    let a: [[f64; 3]; 4] = [
        [1.0, 2.0, 3.0],
        [4.0, 5.0, 6.0],
        [7.0, 8.0, 9.0],
        [-1.0, 0.5, 0.25],
    ];
    let at = mat_transpose::<f64, 4, 3>(&a);
    let expected = mat_mul::<f64, 3, 4, 3>(&at, &a);
    let computed = mat_ata::<f64, 4, 3>(&a);
    for i in 0..3 {
        for j in 0..3 {
            assert!(
                (computed[i][j] - expected[i][j]).abs() < 1e-12,
                "({i},{j}): {} vs {}",
                computed[i][j],
                expected[i][j]
            );
        }
    }
}

#[test]
fn test_mat_ata_symmetric() {
    let a: [[f64; 4]; 3] = std::array::from_fn(|i| std::array::from_fn(|j| (i + j) as f64));
    let c = mat_ata::<f64, 3, 4>(&a);
    for i in 0..4 {
        for j in 0..4 {
            assert_eq!(c[i][j], c[j][i]);
        }
    }
}

#[test]
fn mat_mul_with_an_empty_inner_dimension_is_zero() {
    let a: [[i64; 0]; 2] = [[], []];
    let b: [[i64; 3]; 0] = [];
    assert_eq!(mat_mul::<i64, 2, 0, 3>(&a, &b), [[0; 3]; 2]);
}

#[test]
fn mat_vec_mul_and_trace_product_on_integers() {
    let a: [[i64; 2]; 2] = [[1, 2], [3, 4]];
    let b: [[i64; 2]; 2] = [[5, 6], [7, 8]];
    assert_eq!(mat_vec_mul(&a, &[1, -1]), [-1, -1]);
    // Tr(AB) = 1·5 + 2·7 + 3·6 + 4·8 = 69
    assert_eq!(mat_trace_product(&a, &b), 69);
    assert_eq!(mat_trace(&a), 5);
}

#[test]
fn mahalanobis_with_identity_inverse_is_squared_distance() {
    let x = [3.0, 4.0];
    let mu = [0.0, 0.0];
    let cov_inv = [[1.0, 0.0], [0.0, 1.0]];
    let d2 = mahalanobis_distance_squared_with_inv(&x, &mu, &cov_inv);
    assert!(f64::abs(d2 - 25.0) < 1e-12);
    let xi: [i64; 2] = [5, 1];
    let mi: [i64; 2] = [2, 3];
    let ci: [[i64; 2]; 2] = [[2, 1], [1, 3]];
    // δ = (3, -2): 2·9 + 1·3·(-2)·2 + 3·4 = 18 - 12 + 12 = 18
    assert_eq!(mahalanobis_distance_squared_with_inv(&xi, &mi, &ci), 18);
}

#[test]
fn symmetrize_is_exactly_symmetric() {
    let a = [[1.0, 0.1, 0.7], [0.3, 2.0, -5.0], [1.1, 4.0, 3.0]];
    let s = mat_symmetrize(&a);
    for i in 0..3 {
        for j in 0..3 {
            assert_eq!(s[i][j], s[j][i]);
        }
        assert_eq!(s[i][i], a[i][i]);
    }
}

// ── regularization ───────────────────────────────────────────────

#[test]
fn tikhonov_adds_alpha_to_diagonal() {
    let a = [[1.0, 0.5], [0.5, 2.0]];
    let out = tikhonov::<f64, 2>(&a, 0.1);
    assert!((out[0][0] - 1.1).abs() < 1e-15);
    assert!((out[1][1] - 2.1).abs() < 1e-15);
    // Off-diagonals untouched.
    assert_eq!(out[0][1], a[0][1]);
    assert_eq!(out[1][0], a[1][0]);
}

#[test]
fn tikhonov_alpha_zero_is_identity() {
    let a = [[1.0, 0.5, 0.0], [0.5, 2.0, 0.3], [0.0, 0.3, 1.5]];
    let out = tikhonov::<f64, 3>(&a, 0.0);
    for i in 0..3 {
        for j in 0..3 {
            assert_eq!(out[i][j], a[i][j]);
        }
    }
}

// ── 3-vectors ────────────────────────────────────────────────────

#[test]
fn test_dot3_f64() {
    let a = [1.0, 2.0, 3.0];
    let b = [4.0, 5.0, 6.0];
    assert!(f64::abs(dot3(&a, &b) - 32.0) < 1e-15);
}

#[test]
fn test_cross3_f64() {
    let a = [1.0, 0.0, 0.0];
    let b = [0.0, 1.0, 0.0];
    let c = cross3(&a, &b);
    assert!(f64::abs(c[0]) < 1e-15);
    assert!(f64::abs(c[1]) < 1e-15);
    assert!(f64::abs(c[2] - 1.0) < 1e-15);
}

#[test]
fn test_cross3_orthogonality() {
    let a = [1.0, 2.0, 3.0];
    let b = [4.0, 5.0, 6.0];
    let c = cross3(&a, &b);
    assert!(f64::abs(dot3(&a, &c)) < 1e-14);
    assert!(f64::abs(dot3(&b, &c)) < 1e-14);
}

#[test]
fn cross3_of_integers_is_orthogonal_and_anticommutative() {
    let a: [i64; 3] = [2, -7, 5];
    let b: [i64; 3] = [-3, 4, 11];
    let c = cross3(&a, &b);
    assert_eq!(c, [-97, -37, -13]);
    assert_eq!(dot3(&a, &c), 0);
    assert_eq!(dot3(&b, &c), 0);
    let d = cross3(&b, &a);
    assert_eq!(d, [97, 37, 13]);
    assert_eq!(norm_squared3(&a), 4 + 49 + 25);
}

#[test]
fn test_mat_quadratic_form_jet1() {
    let mut id = [[Jet1::<3, f64>::constant(0.0); 3]; 3];
    for i in 0..3 {
        id[i][i] = Jet1::<3, f64>::constant(1.0);
    }
    let x = [
        Jet1::<3, f64>::variable(1.0, 0),
        Jet1::<3, f64>::variable(2.0, 1),
        Jet1::<3, f64>::variable(3.0, 2),
    ];
    let q = mat_quadratic_form(&x, &id);
    assert!((q.value - 14.0).abs() < 1e-15);
    assert!((q.grad_at(0) - 2.0).abs() < 1e-14);
    assert!((q.grad_at(1) - 4.0).abs() < 1e-14);
    assert!((q.grad_at(2) - 6.0).abs() < 1e-14);
}

#[test]
fn test_dot3_jet1() {
    let a = [
        Jet1::<3, f64>::variable(1.0, 0),
        Jet1::<3, f64>::variable(2.0, 1),
        Jet1::<3, f64>::variable(3.0, 2),
    ];
    let b = [
        Jet1::<3, f64>::constant(4.0),
        Jet1::<3, f64>::constant(5.0),
        Jet1::<3, f64>::constant(6.0),
    ];
    let d = dot3(&a, &b);
    assert!((d.value - 32.0).abs() < 1e-15);
    assert!((d.grad_at(0) - 4.0).abs() < 1e-15);
    assert!((d.grad_at(1) - 5.0).abs() < 1e-15);
    assert!((d.grad_at(2) - 6.0).abs() < 1e-15);
}

#[test]
fn test_cross3_jet1() {
    let a = [
        Jet1::<1, f64>::variable(1.0, 0),
        Jet1::<1, f64>::constant(0.0),
        Jet1::<1, f64>::constant(0.0),
    ];
    let b = [
        Jet1::<1, f64>::constant(0.0),
        Jet1::<1, f64>::constant(1.0),
        Jet1::<1, f64>::constant(0.0),
    ];
    let c = cross3(&a, &b);
    assert!((c[2].value - 1.0).abs() < 1e-15);
    assert!((c[2].grad_at(0) - 1.0).abs() < 1e-15);
}

#[test]
fn test_mat3_det_jet1_partials() {
    let a = [
        [
            Jet1::<1, f64>::variable(1.0, 0),
            Jet1::<1, f64>::constant(0.0),
            Jet1::<1, f64>::constant(0.0),
        ],
        [
            Jet1::<1, f64>::constant(0.0),
            Jet1::<1, f64>::constant(2.0),
            Jet1::<1, f64>::constant(0.0),
        ],
        [
            Jet1::<1, f64>::constant(0.0),
            Jet1::<1, f64>::constant(0.0),
            Jet1::<1, f64>::constant(3.0),
        ],
    ];
    let d = mat3_det(&a);
    assert!((d.value - 6.0).abs() < 1e-13);
    assert!((d.grad_at(0) - 6.0).abs() < 1e-13);
}

#[test]
fn mat_mul_of_integer_jets_propagates_derivatives() {
    // [x 1] · [[x], [2]] = x² + 2 at x = 3: value 11, derivative 6.
    let x = Jet1::<1, i64>::variable(3, 0);
    let one = Jet1::<1, i64>::constant(1);
    let two = Jet1::<1, i64>::constant(2);
    let c = mat_mul(&[[x, one]], &[[x], [two]]);
    assert_eq!(c[0][0].value, 11);
    assert_eq!(c[0][0].grad, [6]);
}

#[test]
fn test_mat_trace_cube_identity() {
    let i: [[f64; 3]; 3] =
        std::array::from_fn(|i| std::array::from_fn(|j| if i == j { 1.0 } else { 0.0 }));
    assert!((mat_trace_cube(&i, &i) - 3.0).abs() < 1e-12);
}

#[test]
fn test_mat_trace_cube_scalar_matrix() {
    let a = [[2.0, 0.0], [0.0, 2.0]];
    let b = [[3.0, 0.0], [0.0, 3.0]];
    let n = 2.0;
    let expected = n * (2.0 * 3.0_f64).powi(3);
    assert!((mat_trace_cube(&a, &b) - expected).abs() < 1e-12);
}

#[test]
fn mat_trace_cube_integer_exact() {
    // M = A B = [[1, 2], [3, 4]]; M³ = [[37, 54], [81, 118]]; Tr = 155.
    let a: [[i64; 2]; 2] = [[1, 2], [3, 4]];
    let id: [[i64; 2]; 2] = [[1, 0], [0, 1]];
    assert_eq!(mat_trace_cube(&a, &id), 155);
}

#[test]
fn integer_row_swap_negates_determinant() {
    let m: [[i64; 3]; 3] = [[2, -1, 4], [3, 5, -2], [7, 0, 1]];
    let s: [[i64; 3]; 3] = [m[1], m[0], m[2]];
    assert_eq!(mat3_det(&s), -mat3_det(&m));
    assert_eq!(mat3_det(&m), -113);
}

#[test]
fn integer_mat_mul_matches_mat3_mul_and_tikhonov_zero() {
    let a: [[i64; 3]; 3] = [[1, -2, 3], [0, 4, -5], [6, 7, 8]];
    let b: [[i64; 3]; 3] = [[9, 1, 0], [-3, 2, 5], [4, -6, 7]];
    assert_eq!(mat_mul(&a, &b), mat3_mul(&a, &b));
    assert_eq!(tikhonov(&a, 0), a);
    let t = mat_transpose(&a);
    assert_eq!(mat_transpose(&t), a);
}

#[test]
fn symmetrizing_twice_changes_nothing_on_unsigned_integers() {
    let a: [[u64; 3]; 3] = [[1, 2, 9], [4, 5, 0], [7, 13, 3]];
    let s = mat_symmetrize(&a);
    assert_eq!(s, [[1, 3, 8], [3, 5, 6], [8, 6, 3]]);
    assert_eq!(mat_symmetrize(&s), s);
}

#[test]
fn integer_mat9_add_is_commutative() {
    let mut a = [[0i64; 9]; 9];
    let mut b = [[0i64; 9]; 9];
    for i in 0..9 {
        for j in 0..9 {
            a[i][j] = (i as i64) * 10 - (j as i64) * 3;
            b[i][j] = (j as i64) * (j as i64) - (i as i64);
        }
    }
    let c = mat9_add(&a, &b);
    assert_eq!(c, mat9_add(&b, &a));
    assert_eq!(c[2][5], 20 - 15 + 25 - 2);
}

#[test]
fn integer_transpose_vec_mul_matches_transpose_then_mul() {
    let a: [[i64; 3]; 3] = [[1, 2, 3], [4, 5, 6], [7, 8, 9]];
    let x: [i64; 3] = [2, -1, 3];
    let y = mat3_transpose_vec_mul(&a, &x);
    assert_eq!(y, mat3_vec_mul(&mat3_transpose(&a), &x));
    assert_eq!(y, [19, 23, 27]);
}

#[test]
fn symmetrize_of_jets_averages_derivatives() {
    let x = Jet1::<2, f64>::variable(1.0, 0);
    let y = Jet1::<2, f64>::variable(2.0, 1);
    let a = [[x, x * y], [y, y]];
    let s = mat_symmetrize(&a);
    // (x·y + y) / 2 at (1, 2): value 2, ∂/∂x = y/2 = 1, ∂/∂y = (x + 1)/2 = 1.
    assert_eq!(s[0][1].value, 2.0);
    assert_eq!(s[0][1].grad, [1.0, 1.0]);
    assert_eq!(s[1][0].value, s[0][1].value);
    assert_eq!(s[1][0].grad, s[0][1].grad);
    assert_eq!(s[0][0].value, 1.0);
    assert_eq!(s[0][0].grad, [1.0, 0.0]);
}

#[test]
fn constant_jet_from_small_integer() {
    let two: Jet1<3, i64> = Jet1::from(2u8);
    assert_eq!(two.value, 2);
    assert_eq!(two.grad, [0, 0, 0]);
}

#[test]
fn symmetrize_of_jets_keeps_derivatives_finite_when_the_sum_overflows() {
    let x = Jet1::<2, f64>::variable(f64::MAX, 0);
    let a = [[x, x], [x, x]];
    let s = mat_symmetrize(&a);
    // The value overflows to infinity; the derivative is halved, not divided
    // by a jet, so it stays (1 + 1) / 2 = 1.
    assert_eq!(s[0][1].value, f64::INFINITY);
    assert_eq!(s[0][1].grad, [1.0, 0.0]);
    assert_eq!(s[1][0].grad, [1.0, 0.0]);
}
