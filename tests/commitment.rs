use proof_of_function_relation::commitment::{
    AdditivelyHomomorphicPCS, LCTerm, LabeledCommitment, LabeledPolynomial, LinearCombination, KZG10,
};
use proof_of_function_relation::error::Error;
use proof_of_function_relation::field::Fe;
use proof_of_function_relation::poly::{evaluate, poly_add, poly_mul};

fn fe(v: u64) -> Fe {
    Fe::from_u64(v)
}

fn deterministic_polynomial(degree: u64, salt: u64) -> Vec<Fe> {
    (0..=degree).map(|i| fe(i * 7919 + salt * 104729 + 1)).collect()
}

#[test]
fn test_aggregate_comm_with_rand() {
    // Parameters
    let maximum_degree: usize = 16;
    let hiding_bound = 1;
    let enforced_degree_bounds = vec![10];

    // Setup the commitment scheme
    let (ck, vk) = KZG10::setup(maximum_degree, maximum_degree, hiding_bound, &Some(enforced_degree_bounds), 1).unwrap();

    // Define polynomials and a linear combination
    let a_unlabeled = deterministic_polynomial(7, 1);
    let a_poly = LabeledPolynomial::new(String::from("a"), a_unlabeled, Some(10), Some(1));

    let b_unlabeled = deterministic_polynomial(5, 2);
    let b_poly = LabeledPolynomial::new(String::from("b"), b_unlabeled, Some(10), Some(1));

    let a_plus_2b_poly = poly_add(&a_poly.coeffs, &poly_mul(&b_poly.coeffs, &vec![fe(2)]));
    let a_plus_2b_poly = LabeledPolynomial::new(String::from("a_plus_2b"), a_plus_2b_poly, Some(10), Some(1));
    let polynomials = vec![a_poly.clone(), b_poly.clone()];
    let linear_combination = LinearCombination {
        label: String::from("a_plus_b"),
        terms: vec![(Fe::one(), LCTerm::PolyLabel(String::from("a"))), (fe(2), LCTerm::PolyLabel(String::from("b")))],
    };

    // Commit Phase
    let (commitments, rands) = KZG10::commit(&ck, &polynomials, 5).unwrap();
    let (test_commitment, test_rand) =
        KZG10::get_commitments_lc_with_rands(&commitments, &rands, &linear_combination).unwrap();

    // Evaluation Phase, here we only output the evaluation of the linear combination
    let evaluation_point = fe(123456789);
    let manual_eval = evaluate(&a_plus_2b_poly.coeffs, evaluation_point);

    // Opening phase
    let lc_opening_proof = KZG10::open(&ck, &a_plus_2b_poly, &test_rand, evaluation_point).unwrap();

    // Verify
    let res = KZG10::check(&vk, &test_commitment, evaluation_point, manual_eval, &lc_opening_proof).unwrap();

    assert_eq!(true, res)
}

#[test]
fn commitment_of_combination_is_combination_of_commitments() {
    let (ck, _vk) = KZG10::setup(16, 16, 0, &None, 2).unwrap();
    let a = LabeledPolynomial::new(String::from("a"), deterministic_polynomial(6, 3), None, None);
    let b = LabeledPolynomial::new(String::from("b"), deterministic_polynomial(4, 4), None, None);
    let (commitments, _) = KZG10::commit(&ck, &vec![a.clone(), b.clone()], 0).unwrap();
    let lc = LinearCombination {
        label: String::from("a_plus_3b"),
        terms: vec![(fe(1), LCTerm::PolyLabel(String::from("a"))), (fe(3), LCTerm::PolyLabel(String::from("b")))],
    };
    let combined = KZG10::get_commitments_lc(&commitments, &lc).unwrap();
    let sum = poly_add(&a.coeffs, &poly_mul(&b.coeffs, &vec![fe(3)]));
    let (direct, _) = KZG10::commit(&ck, &vec![LabeledPolynomial::new(String::from("s"), sum, None, None)], 0).unwrap();
    assert_eq!(combined.commitment, direct[0].commitment);
    assert_eq!(combined.label, "a_plus_3b");
    let msm = KZG10::multi_scalar_mul(&vec![commitments[0].commitment.clone(), commitments[1].commitment.clone()], &vec![fe(1), fe(3)]).unwrap();
    assert_eq!(msm, direct[0].commitment);
}

#[test]
fn opening_a_wrong_value_is_rejected() {
    let (ck, vk) = KZG10::setup(16, 16, 0, &None, 3).unwrap();
    let p = LabeledPolynomial::new(String::from("p"), deterministic_polynomial(5, 5), None, None);
    let (cs, rs) = KZG10::commit(&ck, &vec![p.clone()], 0).unwrap();
    let x = fe(42);
    let proof = KZG10::open(&ck, &p, &rs[0], x).unwrap();
    let value = evaluate(&p.coeffs, x);
    assert_eq!(KZG10::check(&vk, &cs[0], x, value, &proof), Ok(true));
    assert_eq!(KZG10::check(&vk, &cs[0], x, value.add(Fe::one()), &proof), Ok(false));
}

#[test]
fn combination_errors() {
    let (ck, _vk) = KZG10::setup(16, 16, 0, &None, 4).unwrap();
    let a = LabeledPolynomial::new(String::from("a"), deterministic_polynomial(3, 6), None, None);
    let (commitments, rands) = KZG10::commit(&ck, &vec![a], 0).unwrap();
    let lc = LinearCombination { label: String::from("c"), terms: vec![(fe(1), LCTerm::PolyLabel(String::from("z")))] };
    assert!(matches!(KZG10::get_commitments_lc(&commitments, &lc), Err(Error::MissingCommitment(_))));
    assert!(matches!(KZG10::get_commitments_lc_with_rands(&commitments, &vec![], &lc), Err(Error::InputLengthError(_))));
    let mut bounded = commitments.clone();
    bounded.push(LabeledCommitment::new(String::from("b"), commitments[0].commitment.clone(), Some(10)));
    let lc = LinearCombination { label: String::from("c"), terms: vec![(fe(1), LCTerm::PolyLabel(String::from("a")))] };
    assert!(matches!(KZG10::get_commitments_lc(&bounded, &lc), Err(Error::MismatchedDegreeBounds(_))));
    let one_term = LinearCombination { label: String::from("c"), terms: vec![(fe(5), LCTerm::One)] };
    let (c, _) = KZG10::get_commitments_lc_with_rands(&commitments, &rands, &one_term).unwrap();
    let empty = KZG10::multi_scalar_mul(&vec![], &vec![]).unwrap();
    assert_eq!(c.commitment, empty);
    assert!(matches!(KZG10::multi_scalar_mul(&vec![empty], &vec![]), Err(Error::InputLengthError(_))));
}

#[test]
fn setup_rejects_parameters_that_do_not_fit() {
    assert!(matches!(KZG10::setup(16, 16, 17, &None, 5), Err(Error::PCError(_))));
    assert!(matches!(KZG10::setup(16, 17, 0, &None, 5), Err(Error::PCError(_))));
    assert!(matches!(KZG10::setup(0, 0, 0, &None, 5), Err(Error::PCError(_))));
    assert!(matches!(KZG10::setup(16, 8, 0, &Some(vec![9]), 5), Err(Error::PCError(_))));
    assert!(KZG10::setup(16, 16, 16, &None, 5).is_ok());
}

#[test]
fn combinations_of_no_commitments() {
    let one_term = LinearCombination { label: String::from("c"), terms: vec![(fe(5), LCTerm::One)] };
    let c = KZG10::get_commitments_lc(&vec![], &one_term).unwrap();
    assert_eq!(c.degree_bound, None);
    let named = LinearCombination { label: String::from("c"), terms: vec![(fe(5), LCTerm::PolyLabel(String::from("a")))] };
    assert!(matches!(KZG10::get_commitments_lc(&vec![], &named), Err(Error::MissingCommitment(_))));
    let (ck, _vk) = KZG10::setup(16, 16, 0, &None, 4).unwrap();
    let a = LabeledPolynomial::new(String::from("a"), deterministic_polynomial(3, 6), None, None);
    let (_, rands) = KZG10::commit(&ck, &vec![a], 0).unwrap();
    assert!(matches!(KZG10::get_commitments_lc_with_rands(&vec![], &rands, &one_term), Err(Error::InputLengthError(_))));
}

#[test]
fn commit_rejects_a_polynomial_beyond_the_key() {
    let (ck, _vk) = KZG10::setup(16, 4, 0, &None, 6).unwrap();
    let p = LabeledPolynomial::new(String::from("p"), deterministic_polynomial(5, 1), None, None);
    assert!(matches!(KZG10::commit(&ck, &vec![p], 0), Err(Error::PCError(_))));
}

#[test]
fn commit_with_hiding_beyond_the_key_fails() {
    let (ck, _vk) = KZG10::setup(16, 16, 1, &None, 7).unwrap();
    let p = LabeledPolynomial::new(String::from("p"), deterministic_polynomial(3, 2), None, Some(2));
    assert!(matches!(KZG10::commit(&ck, &vec![p], 0), Err(Error::PCError(_))));
    let q = LabeledPolynomial::new(String::from("q"), deterministic_polynomial(3, 2), None, Some(usize::MAX));
    assert!(matches!(KZG10::commit(&ck, &vec![q], 0), Err(Error::PCError(_))));
}
