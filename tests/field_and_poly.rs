use proof_of_function_relation::domain::Domain;
use proof_of_function_relation::field::Fe;
use proof_of_function_relation::poly::{divide_by_vanishing, evaluate, poly_add, poly_mul, poly_sub, shift_dense_poly};

fn fe(v: u64) -> Fe {
    Fe::from_u64(v)
}

fn same(a: Fe, b: Fe) -> bool {
    a.equals(&b)
}

#[test]
fn field_arithmetic_values() {
    assert!(same(fe(3).add(fe(4)), fe(7)));
    assert!(same(fe(3).mul(fe(4)), fe(12)));
    assert!(same(fe(10).sub(fe(4)), fe(6)));
    assert!(same(fe(4).sub(fe(10)).add(fe(6)), Fe::zero()));
    assert!(same(fe(5).neg().add(fe(5)), Fe::zero()));
    assert!(same(fe(3).pow(4), fe(81)));
    assert!(!same(fe(3), fe(4)));
}

#[test]
fn field_inverse_and_sqrt() {
    let inv = fe(7).inverse().unwrap();
    assert!(same(inv.mul(fe(7)), Fe::one()));
    assert!(Fe::zero().inverse().is_none());
    let root = fe(9).sqrt().unwrap();
    assert!(same(root.mul(root), fe(9)));
    assert!(Fe::zero().is_zero());
    assert!(!fe(1).is_zero());
}

#[test]
fn modulus_wraps_to_zero() {
    // The BN254 scalar field's prime, as little-endian limbs.
    let p = Fe { limbs: [4891460686036598785, 2896914383306846353, 13281191951274694749, 3486998266802970665] };
    assert!(p.is_zero());
    assert!(same(p.add(fe(5)), fe(5)));
}

#[test]
fn polynomial_operations() {
    // (1 + 2X) and (3 + X)
    let a = vec![fe(1), fe(2)];
    let b = vec![fe(3), fe(1)];
    let x = fe(5);
    assert!(same(evaluate(&a, x), fe(11)));
    assert!(same(evaluate(&poly_add(&a, &b), x), fe(19)));
    assert!(same(evaluate(&poly_sub(&a, &b), x), fe(3)));
    assert!(same(evaluate(&poly_mul(&a, &b), x), fe(88)));
    // p(2X) at 5 is p(10)
    assert!(same(evaluate(&shift_dense_poly(&a, fe(2)), x), fe(21)));
}

#[test]
fn division_by_vanishing_polynomial() {
    // X^5 + 3 divided by X^4 - 1: quotient X, remainder X + 3.
    let a = vec![fe(3), Fe::zero(), Fe::zero(), Fe::zero(), Fe::zero(), fe(1)];
    let (q, r) = divide_by_vanishing(&a, 4).unwrap();
    assert!(same(evaluate(&q, fe(2)), fe(2)));
    assert!(same(evaluate(&r, fe(2)), fe(5)));
}

#[test]
fn domain_fft_round_trip() {
    let d = Domain::new(6).unwrap();
    assert_eq!(d.size(), 8);
    let g = d.generator();
    assert!(same(g.pow(8), Fe::one()));
    assert!(!same(g.pow(4), Fe::one()));
    let coeffs = vec![fe(1), fe(2), fe(3)];
    let evals = d.fft(&coeffs);
    assert_eq!(evals.len(), 8);
    for i in 0..8u64 {
        assert!(same(evals[i as usize], evaluate(&coeffs, d.element(i))));
    }
    let back = d.ifft(&evals);
    for i in 0..8u64 {
        assert!(same(evaluate(&back, d.element(i)), evals[i as usize]));
    }
    assert!(same(d.evaluate_vanishing_polynomial(d.element(3)), Fe::zero()));
    assert!(same(d.evaluate_vanishing_polynomial(fe(2)), fe(255)));
}

#[test]
fn domain_sizes() {
    assert_eq!(Domain::new(1).unwrap().size(), 1);
    assert_eq!(Domain::new(4).unwrap().size(), 4);
    assert_eq!(Domain::new(5).unwrap().size(), 8);
    assert!(Domain::new(268435457).is_none());
}

#[test]
fn domain_beyond_two_adicity_is_refused() {
    assert!(Domain::new(usize::MAX).is_none());
    assert!(Domain::new(268435456).is_some());
}
