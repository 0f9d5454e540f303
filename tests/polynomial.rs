use public_transport::polynomial::{Polynomial, PolynomialBuilder};

#[test]
fn builder_collects_like_terms() {
    let a = Polynomial::builder().add(1, "x", 2).add(4, "x", 5).add(2, "x", 2).add(3, "y", 3).build();
    assert_eq!(a.coefficient("x", 2), 3);
    assert_eq!(a.coefficient("x", 5), 4);
    assert_eq!(a.coefficient("y", 3), 3);
    assert_eq!(a.coefficient("y", 2), 0);
}

#[test]
fn cancelled_terms_are_dropped() {
    let p = PolynomialBuilder::new().add(2, "x", 1).add(-2, "x", 1).build();
    let q = PolynomialBuilder::new().build();
    assert_eq!(p.coefficient("x", 1), 0);
    assert!(p.eq(&q));
}

#[test]
fn sums_add_coefficients() {
    let a = Polynomial::builder().add(1, "x", 2).add(4, "x", 5).add(2, "x", 2).add(3, "y", 3).build();
    let b = Polynomial::builder().add(10, "x", 3).add(-4, "x", 5).add(2, "z", 2).add(3, "z", 3).build();
    assert!(!a.eq(&b));
    let c = a.add(b);
    assert_eq!(c.coefficient("x", 2), 3);
    assert_eq!(c.coefficient("x", 5), 0);
    assert_eq!(c.coefficient("x", 3), 10);
    assert_eq!(c.coefficient("z", 3), 3);
    let d = Polynomial::builder().add(3, "x", 2).add(10, "x", 3).add(2, "z", 2).add(3, "z", 3).add(3, "y", 3).build();
    assert!(c.eq(&d));
    assert!(d.eq(&c));
}

#[test]
fn eq_looks_only_at_the_left_terms() {
    let empty = PolynomialBuilder::new().build();
    let x = PolynomialBuilder::new().add(1, "x", 1).build();
    assert!(empty.eq(&x));
    assert!(!x.eq(&empty));
    let x2 = PolynomialBuilder::new().add(2, "x", 1).build();
    assert!(!x.eq(&x2));
}
