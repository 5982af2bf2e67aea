use poly::diff::Differentiate;
use poly::Poly;

fn p(coefs: Vec<i64>, exp: i32) -> Poly {
    Poly { coefs, exp }
}

#[test]
fn diff() {
    // x^4 + 2x^2
    let quart = p(vec![1, 0, 2, 0], 1);
    // 4x^3 + 4x
    let cube = p(vec![4, 0, 4], 1);
    assert_eq!(quart.diff(), cube);
}

#[test]
fn negative() {
    // -x + x^-1
    let quart = p(vec![-1, 0, 1], -1);
    assert_eq!(quart.to_string(), "-x + x^-1");
}

#[test]
fn from_f64() {
    let x = Poly::from_scalar(1);
    assert_eq!(x.degree(), Some(0));
    assert_eq!(x.coefs, [1]);

    let y = Poly::from_scalar(0);
    assert_eq!(y.degree(), None);
    assert!(y.coefs.is_empty());
}

#[test]
fn reduce() {
    // x^2 + 0 + 0
    let mut quad = p(vec![1, 0, 0], 0);
    quad.reduce();
    assert_eq!(quad.coefs, [1]);
    assert_eq!(quad.exp, 2);

    // x^4 + 0 + x^2 + 0
    let mut quart = p(vec![1, 0, 1, 0], 1);
    quart.reduce();
    assert_eq!(quart.coefs, [1, 0, 1]);
    assert_eq!(quart.exp, 2);
}

#[test]
fn normalise() {
    let mut quad = p(vec![1, 0, 0], 0);
    let mut quart = p(vec![1, 0, 1, 0], 1);
    quad.normalise_with(&mut quart);
    assert_eq!(quad.coefs, [1]);
    assert_eq!(quad.exp, 2);
    assert_eq!(quart.coefs, [1, 0, 1]);
    assert_eq!(quart.exp, 2);

    let mut quad = p(vec![1], 2);
    let mut quart = p(vec![1, 0, 1, 0], 1);
    quad.normalise_with(&mut quart);
    assert_eq!(quad.coefs, [1]);
    assert_eq!(quad.exp, 2);
    assert_eq!(quart.coefs, [1, 0, 1]);
    assert_eq!(quart.exp, 2);
}

#[test]
fn ops() {
    let x = Poly::x();
    assert_eq!(x.clone().add(x.clone()), x.clone().mul_scalar(2));

    let y = x.clone().mul(x.clone()).add(x.clone());
    assert_eq!(y.to_string(), "x^2 + x");
}

#[test]
fn display_integer_terms() {
    // x^4 - 2x^2 + 3x
    let quart = p(vec![1, 0, -2, 3], 1);
    assert_eq!(quart.to_string(), "x^4 - 2x^2 + 3x");
}

#[test]
fn display_constants_and_zero() {
    assert_eq!(Poly::zero().to_string(), "0");
    assert_eq!(Poly::from_scalar(-7).to_string(), "-7");
    assert_eq!(Poly::from_scalar(1).to_string(), "1");
    assert_eq!(p(vec![0, 0], -3).to_string(), "0");
    assert_eq!(p(vec![1, 1], -1).to_string(), "1 + x^-1");
    assert_eq!(p(vec![2, 3], -1).to_string(), "2 + 3x^-1");
    assert_eq!(p(vec![-1, 0, 0, -12], -2).to_string(), "-x - 12x^-2");
    assert_eq!(p(vec![25, -1], 0).to_string(), "25x - 1");
}

#[test]
fn reduce_scenario_low_zeros() {
    let mut q = p(vec![1, 0, 0], 0);
    q.reduce();
    assert_eq!(q, p(vec![1], 2));
}

#[test]
fn reduce_both_ends_and_all_zero() {
    let mut q = p(vec![0, 0, 3, 0, 5, 0], -2);
    q.reduce();
    assert_eq!(q, p(vec![3, 0, 5], -1));

    let mut z = p(vec![0, 0, 0], -4);
    z.reduce();
    assert_eq!(z, Poly::zero());
}

#[test]
fn reduce_keeps_canonical() {
    let mut q = p(vec![2, 0, -1], -3);
    q.reduce();
    assert_eq!(q, p(vec![2, 0, -1], -3));
}

#[test]
fn add_commutes_and_is_canonical() {
    let a = p(vec![1, 0, 2, 0], 1);
    let b = p(vec![-1, 3], -1);
    let ab = a.clone().add(b.clone());
    let ba = b.add(a);
    assert_eq!(ab, ba);
    assert_eq!(ab, p(vec![1, 0, 2, 0, -1, 3], -1));
}

#[test]
fn add_cancels_leading_terms() {
    let a = p(vec![1, 2, 3], 0);
    let b = p(vec![-1, 1], 1);
    assert_eq!(a.add(b), p(vec![3, 3], 0));
}

#[test]
fn add_zero_and_mul_zero() {
    let a = p(vec![4, 0, -2], -1);
    assert_eq!(a.clone().add(Poly::zero()), a);
    assert_eq!(Poly::zero().add(a.clone()), a);
    assert_eq!(a.mul(Poly::zero()), Poly::zero());
}

#[test]
fn add_associative() {
    let a = p(vec![1, 5], 2);
    let b = p(vec![-1, 0, 7], 1);
    let c = p(vec![2, -7, 0, 0, 9], -2);
    let left = a.clone().add(b.clone()).add(c.clone());
    let right = a.add(b.add(c));
    assert_eq!(left, right);
    assert_eq!(left, p(vec![7, 0, 0, 0, 9], -2));
}

#[test]
fn sub_basic_and_larger_rhs() {
    let a = p(vec![3, 1], 0);
    let b = p(vec![1, 0, 1], 0);
    // (3x + 1) - (x^2 + 1) = -x^2 + 3x
    assert_eq!(a.clone().sub(b.clone()), p(vec![-1, 3], 1));
    // (x^2 + 1) - (3x + 1) = x^2 - 3x
    assert_eq!(b.sub(a.clone()), p(vec![1, -3], 1));
    assert_eq!(a.clone().sub(a.clone()), Poly::zero());
    assert_eq!(a.clone().sub(Poly::zero()), a);
    assert_eq!(Poly::zero().sub(a), p(vec![-3, -1], 0));
}

#[test]
fn mul_convolves() {
    // (x + 1)(x - 1) = x^2 - 1
    let a = p(vec![1, 1], 0);
    let b = p(vec![1, -1], 0);
    assert_eq!(a.mul(b), p(vec![1, 0, -1], 0));
    // (x^2 + x^-1) * 2x^-3 = 2x^-1 + 2x^-4
    let c = p(vec![1, 0, 0, 1], -1);
    let d = p(vec![2], -3);
    assert_eq!(c.mul(d), p(vec![2, 0, 0, 2], -4));
}

#[test]
fn mul_degree_adds() {
    let a = p(vec![3, 0, 1], -1);
    let b = p(vec![2, 5, 0, 0, 1], 2);
    let da = a.degree().unwrap();
    let db = b.degree().unwrap();
    let prod = a.mul(b);
    assert_eq!(prod.degree(), Some(da + db));
    assert_eq!(prod.degree(), Some(7));
}

#[test]
fn mul_reduces_operands() {
    let a = p(vec![0, 1, 0], 0);
    let b = p(vec![0, 2], 1);
    assert_eq!(a.mul(b), p(vec![2], 2));
}

#[test]
fn mul_scalar_keeps_window() {
    let a = p(vec![1, -2], 3);
    assert_eq!(a.clone().mul_scalar(-3), p(vec![-3, 6], 3));
    assert_eq!(a.mul_scalar(0), p(vec![0, 0], 3));
}

#[test]
fn variable_doubled() {
    let x = Poly::x();
    assert_eq!(x.clone().add(x.clone()), x.mul(Poly::from_scalar(2)));
}

#[test]
fn diff_of_constant_and_zero() {
    assert_eq!(Poly::from_scalar(9).diff(), Poly::zero());
    assert_eq!(Poly::zero().diff(), Poly::zero());
    // x^-1 differentiates to -x^-2
    assert_eq!(p(vec![1], -1).diff(), p(vec![-1], -2));
}

#[test]
fn diff_then_evaluate() {
    // 3x^3 - 2x + 5, derivative 9x^2 - 2
    let a = p(vec![3, 0, -2, 5], 0);
    let da = a.diff();
    for x in [-3i64, 0, 1, 2, 7] {
        assert_eq!(da.evaluate(x), 9 * x * x - 2);
    }
    // x^4 + 2x^2, derivative 4x^3 + 4x
    let b = p(vec![1, 0, 2, 0], 1);
    let db = b.diff();
    for x in [-2i64, 0, 3, 5] {
        assert_eq!(db.evaluate(x), 4 * x * x * x + 4 * x);
    }
}

#[test]
fn evaluate_scenario() {
    let a = p(vec![1, 0, 2, 0], 1);
    assert_eq!(a.evaluate(4), 288);
    assert_eq!(Poly::zero().evaluate(10), 0);
    assert_eq!(Poly::from_scalar(-4).evaluate(3), -4);
    assert_eq!(p(vec![1, 1], 2).evaluate(-2), -4);
}

#[test]
fn is_zero_on_zero_windows() {
    assert!(Poly::zero().is_zero());
    assert!(p(vec![0, 0], 5).is_zero());
    assert!(!Poly::x().is_zero());
}

#[test]
fn degree_of_window() {
    assert_eq!(p(vec![1, 0, 2, 0], 1).degree(), Some(4));
    assert_eq!(p(vec![-1, 0, 1], -1).degree(), Some(1));
    assert_eq!(Poly::x().degree(), Some(1));
    assert_eq!(Poly::zero().degree(), None);
}

#[test]
fn equality_is_structural() {
    assert_eq!(Poly::default(), Poly::zero());
    assert_ne!(p(vec![1, 0], 0), p(vec![1], 1));
    assert_ne!(p(vec![1], 0), p(vec![1], 1));
}

#[test]
fn diff_borrowed_keeps_operand() {
    let a = p(vec![2, 0, 0, 1], -1);
    let d = (&a).diff();
    // 2x^2 + x^-1 differentiates to 4x - x^-2
    assert_eq!(d, p(vec![4, 0, 0, -1], -2));
    assert_eq!(a.duplicate(), a);
}
