use proof_of_function_relation::error::Error;
use proof_of_function_relation::field::Fe;
use proof_of_function_relation::poly::evaluate;
use proof_of_function_relation::vo::{Combine, NewVO, ProductCheckVO, VirtualOracle};

fn fe(v: u64) -> Fe {
    Fe::from_u64(v)
}

fn same(a: Fe, b: Fe) -> bool {
    a.equals(&b)
}

fn general_vo() -> NewVO {
    // v = o1(X) * o0(2X) - X
    let combine = Combine::Sub(
        Box::new(Combine::Mul(Box::new(Combine::Term(0)), Box::new(Combine::Term(1)))),
        Box::new(Combine::Point),
    );
    NewVO::new(&vec![1, 0], &vec![fe(1), fe(2)], combine).unwrap()
}

#[test]
fn instantiate_then_evaluate_matches_query() {
    let vo = general_vo();
    let o0 = vec![fe(1), fe(1)]; // 1 + X
    let o1 = vec![fe(3), Fe::zero(), fe(1)]; // 3 + X^2
    let oracles = vec![o0.clone(), o1.clone()];
    let v = vo.compute_polynomial(&oracles).unwrap();
    for x in [0u64, 1, 5, 123456789] {
        let point = fe(x);
        let evals = vec![evaluate(&o1, point), evaluate(&o0, fe(2).mul(point))];
        let queried = VirtualOracle::query(&vo, &evals, point).unwrap();
        assert!(same(evaluate(&v, point), queried));
    }
    // at 5: (3 + 25) * (1 + 10) - 5 = 303
    assert!(same(evaluate(&v, fe(5)), fe(303)));
}

#[test]
fn new_vo_rejects_mismatched_lengths() {
    let r = NewVO::new(&vec![0, 1], &vec![fe(1)], Combine::Term(0));
    assert!(matches!(r, Err(Error::InputLengthError(_))));
    let r = NewVO::new(&vec![0, 1], &vec![fe(1), fe(1)], Combine::Term(2));
    assert!(matches!(r, Err(Error::InputLengthError(_))));
    let r = NewVO::new(&vec![], &vec![], Combine::Point);
    assert!(matches!(r, Err(Error::InputLengthError(_))));
}

#[test]
fn new_vo_needs_enough_oracles() {
    let vo = general_vo();
    assert_eq!(vo.number_of_internal_terms(), 2);
    let r = vo.compute_polynomial(&vec![vec![fe(1)]]);
    assert_eq!(r.err(), Some(Error::InstantiationError));
    let r = vo.query(&vec![String::from("a")], &(String::from("z"), fe(3)));
    assert_eq!(r.err(), Some(Error::InstantiationError));
    let evaluations = vec![(String::from("a"), fe(6), fe(7))];
    let r = vo.evaluate_from_concrete_evals(&vec![String::from("a")], fe(3), &evaluations);
    assert_eq!(r.err(), Some(Error::EvaluationError));
}

#[test]
fn term_labels_and_query_points() {
    let vo = general_vo();
    let labels = vec![String::from("a"), String::from("b")];
    assert_eq!(vo.get_term_labels(&labels), vec![String::from("b"), String::from("a")]);
    let points = vo.query(&labels, &(String::from("z"), fe(3))).unwrap();
    assert_eq!(points[0].0, "b");
    assert_eq!(points[0].1 .0, "z_times_alpha0");
    assert!(same(points[0].1 .1, fe(3)));
    assert_eq!(points[1].0, "a");
    assert_eq!(points[1].1 .0, "z_times_alpha1");
    assert!(same(points[1].1 .1, fe(6)));
}

#[test]
fn evaluate_from_concrete_evals_looks_up_by_label_and_point() {
    let vo = general_vo();
    let labels = vec![String::from("a"), String::from("b")];
    let evaluations = vec![
        (String::from("a"), fe(6), fe(7)),
        (String::from("b"), fe(3), fe(10)),
    ];
    // 10 * 7 - 3
    let v = vo.evaluate_from_concrete_evals(&labels, fe(3), &evaluations).unwrap();
    assert!(same(v, fe(67)));
    let missing = vec![(String::from("b"), fe(3), fe(10))];
    assert_eq!(vo.evaluate_from_concrete_evals(&labels, fe(3), &missing).err(), Some(Error::EvaluationError));
}

#[test]
fn product_check_oracle() {
    let vo = ProductCheckVO::new();
    assert_eq!(vo.num_of_oracles(), 3);
    assert_eq!(vo.mapping_vector(), vec![0, 1, 2]);
    let v = vo.query(&vec![fe(10), fe(2), fe(3)], fe(0)).unwrap();
    assert!(same(v, fe(4)));
    assert_eq!(vo.query(&vec![fe(10), fe(2)], fe(0)).err(), Some(Error::EvaluationError));
    assert_eq!(vo.instantiate_in_coeffs_form(&vec![vec![fe(1)]]).err(), Some(Error::InstantiationError));
    // (5 + X) - (1 + X)(2) = 3 - X
    let p = vo.instantiate_in_coeffs_form(&vec![vec![fe(5), fe(1)], vec![fe(1), fe(1)], vec![fe(2)]]).unwrap();
    assert!(same(evaluate(&p, fe(1)), fe(2)));
}

#[test]
fn square_and_inverse_presets() {
    let sq = NewVO::square_check();
    assert!(same(VirtualOracle::query(&sq, &vec![fe(10), fe(3)], fe(0)).unwrap(), fe(1)));
    let inv = NewVO::inverse_check();
    let two_inv = fe(2).inverse().unwrap();
    assert!(same(VirtualOracle::query(&inv, &vec![fe(2), two_inv], fe(0)).unwrap(), Fe::zero()));
    assert_eq!(sq.mapping_vector(), vec![0, 1]);
}

#[test]
fn instantiate_in_evals_form_matches_pointwise_values() {
    let vo = general_vo();
    let domain = proof_of_function_relation::domain::Domain::new(8).unwrap();
    let o0 = vec![fe(1), fe(1)];
    let o1 = vec![fe(3), Fe::zero(), fe(1)];
    let oracles = vec![o0.clone(), o1.clone()];
    let evals = vo.instantiate_in_evals_form(&oracles, &domain).unwrap();
    let v = vo.compute_polynomial(&oracles).unwrap();
    for i in 0..8u64 {
        assert!(same(evals[i as usize], evaluate(&v, domain.element(i))));
    }
    assert_eq!(vo.degree_bound(8), 8);
    assert_eq!(vo.compute_scaling_factor(&domain), 2);
    assert_eq!(vo.name(), "General VO");
    let labels = vec![String::from("a"), String::from("b")];
    assert_eq!(vo.get_h_labels(&labels), vo.get_term_labels(&labels));
}
