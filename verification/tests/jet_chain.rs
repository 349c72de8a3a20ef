use nolan::jets::{Jet1, Jet2, Jet3};

fn close(a: f64, b: f64) -> bool {
    (a - b).abs() <= 1e-12 * b.abs().max(1.0)
}

#[test]
fn compose_integer_second_order_chain_rule() {
    // f = x·y at (2, 3): ∇f = (3, 2), ∇²f = [[0, 1], [1, 0]].
    // φ with φ(f) = 100, φ' = 2, φ'' = 3:
    // ∇(φ∘f) = 2∇f = (6, 4); ∇²(φ∘f) = 2∇²f + 3∇f∇fᵀ.
    let x = Jet2::<2, 3, i64>::variable(2, 0);
    let y = Jet2::<2, 3, i64>::variable(3, 1);
    let f = x * y;
    let g = f.compose(100, 2, 3);
    assert_eq!(g.value, 100);
    assert_eq!(g.grad, [6, 4]);
    assert_eq!(g.hess, [27, 2 + 3 * 2 * 3, 12]);
}

#[test]
fn compose_integer_first_and_third_order() {
    let x = Jet1::<1, i32>::variable(5, 0);
    let g = (x * x).compose(7, 4);
    assert_eq!(g.value, 7);
    assert_eq!(g.grad, [4 * 10]);

    // x³ composed with φ' = 1, φ'' = 0, φ''' = 0 keeps the derivatives.
    let x = Jet3::<1, 1, 1, i64>::variable(2, 0);
    let c = x * x * x;
    let same = c.compose(false, c.value, 1, 0, 0);
    assert_eq!(same.grad, c.grad);
    assert_eq!(same.hess, c.hess);
    assert_eq!(same.tens, c.tens);
    // φ''' alone on a variable: ∂³ = φ'''·(∂x)³ = 5, in both groupings.
    let v = x.compose(false, 0, 0, 0, 5);
    let w = x.compose(true, 0, 0, 0, 5);
    assert_eq!(v.tens, [5]);
    assert_eq!(w.tens, [5]);
}

#[test]
fn compose_sin_matches_closed_form() {
    let a: f64 = 0.7;
    let x = Jet3::<1, 1, 1, f64>::variable(a, 0);
    let s = x.compose(false, a.sin(), a.cos(), -a.sin(), -a.cos());
    assert!(close(s.value, a.sin()));
    assert!(close(s.grad[0], a.cos()));
    assert!(close(s.hess[0], -a.sin()));
    assert!(close(s.tens[0], -a.cos()));
    let c = x.compose(true, a.cos(), -a.sin(), -a.cos(), a.sin());
    assert!(close(c.tens[0], a.sin()));
}

#[test]
fn atan2_with_matches_closed_form() {
    // atan2(y, x) at (y, x) = (1, 2), r² = 5.
    let y = Jet2::<2, 3, f64>::variable(1.0, 0);
    let x = Jet2::<2, 3, f64>::variable(2.0, 1);
    let t = y.atan2_with(x, 1.0f64.atan2(2.0));
    assert!(close(t.value, 1.0f64.atan2(2.0)));
    assert!(close(t.grad[0], 2.0 / 5.0));
    assert!(close(t.grad[1], -1.0 / 5.0));
    assert!(close(t.hess[0], -4.0 / 25.0));
    assert!(close(t.hess[1], -3.0 / 25.0));
    assert!(close(t.hess[2], 4.0 / 25.0));

    let y1 = Jet1::<2, f64>::variable(1.0, 0);
    let x1 = Jet1::<2, f64>::variable(2.0, 1);
    let t1 = y1.atan2_with(x1, 0.5);
    assert_eq!(t1.value, 0.5);
    assert!(close(t1.grad[0], 2.0 / 5.0));

    let y3 = Jet3::<2, 3, 4, f64>::variable(1.0, 0);
    let x3 = Jet3::<2, 3, 4, f64>::variable(2.0, 1);
    let t3 = y3.atan2_with(x3, 0.25, [1.0, 2.0, 3.0, 4.0]);
    assert_eq!(t3.tens, [1.0, 2.0, 3.0, 4.0]);
    assert!(close(t3.hess[1], -3.0 / 25.0));
}
