use proof_of_function_relation::commitment::{LabeledPolynomial, KZG10};
use proof_of_function_relation::domain::Domain;
use proof_of_function_relation::error::Error;
use proof_of_function_relation::field::Fe;
use proof_of_function_relation::vo::NewVO;
use proof_of_function_relation::zero_over_k::ZeroOverK;

fn square_check_oracles(perturb: bool) -> (Domain, Vec<LabeledPolynomial>) {
    let domain = Domain::new(8).unwrap();
    let p1_evals: Vec<Fe> = (0..8u64).map(|i| domain.element(i).add(Fe::one())).collect();
    let mut p0_evals: Vec<Fe> = p1_evals.iter().map(|e| e.mul(*e)).collect();
    if perturb {
        p0_evals[0] = p0_evals[0].add(Fe::one());
    }
    let o0 = LabeledPolynomial::new(String::from("o0"), domain.ifft(&p0_evals), None, None);
    let o1 = LabeledPolynomial::new(String::from("o1"), domain.ifft(&p1_evals), None, None);
    (domain, vec![o0, o1])
}

#[test]
fn zero_over_k_square_check_verifies() {
    let (domain, oracles) = square_check_oracles(false);
    let (ck, vk) = KZG10::setup(20, 20, 0, &None, 11).unwrap();
    let (commitments, rands) = KZG10::commit(&ck, &oracles, 1).unwrap();
    let vo = NewVO::square_check();
    let proof = ZeroOverK::prove(&oracles, &commitments, &rands, &vo, &domain, &ck, 3).unwrap();
    assert_eq!(ZeroOverK::verify(&proof, &commitments, &vo, &domain, &vk), Ok(()));
}

#[test]
fn zero_over_k_square_check_perturbed_fails_check1() {
    let (domain, oracles) = square_check_oracles(true);
    let (ck, _vk) = KZG10::setup(20, 20, 0, &None, 11).unwrap();
    let (commitments, rands) = KZG10::commit(&ck, &oracles, 1).unwrap();
    let vo = NewVO::square_check();
    let proof = ZeroOverK::prove(&oracles, &commitments, &rands, &vo, &domain, &ck, 3);
    assert_eq!(proof.err(), Some(Error::Check1Failed));
}

#[test]
fn zero_over_k_tampered_quotient_value_fails_check2() {
    let (domain, oracles) = square_check_oracles(false);
    let (ck, vk) = KZG10::setup(20, 20, 0, &None, 11).unwrap();
    let (commitments, rands) = KZG10::commit(&ck, &oracles, 1).unwrap();
    let vo = NewVO::square_check();
    let mut proof = ZeroOverK::prove(&oracles, &commitments, &rands, &vo, &domain, &ck, 3).unwrap();
    proof.q_eval = proof.q_eval.add(Fe::one());
    assert_eq!(ZeroOverK::verify(&proof, &commitments, &vo, &domain, &vk), Err(Error::Check2Failed));
}

#[test]
fn zero_over_k_swapped_opening_fails_batch_check() {
    let (domain, oracles) = square_check_oracles(false);
    let (ck, vk) = KZG10::setup(20, 20, 0, &None, 11).unwrap();
    let (commitments, rands) = KZG10::commit(&ck, &oracles, 1).unwrap();
    let vo = NewVO::square_check();
    let mut proof = ZeroOverK::prove(&oracles, &commitments, &rands, &vo, &domain, &ck, 3).unwrap();
    proof.term_proofs.swap(0, 1);
    assert_eq!(ZeroOverK::verify(&proof, &commitments, &vo, &domain, &vk), Err(Error::BatchCheckError));
}

#[test]
fn zero_over_k_is_deterministic() {
    let (domain, oracles) = square_check_oracles(false);
    let (ck, _vk) = KZG10::setup(20, 20, 0, &None, 11).unwrap();
    let (commitments, rands) = KZG10::commit(&ck, &oracles, 1).unwrap();
    let vo = NewVO::square_check();
    let a = ZeroOverK::prove(&oracles, &commitments, &rands, &vo, &domain, &ck, 3).unwrap();
    let b = ZeroOverK::prove(&oracles, &commitments, &rands, &vo, &domain, &ck, 3).unwrap();
    assert_eq!(format!("{:?}", a), format!("{:?}", b));
}

#[test]
fn zero_over_k_input_lengths() {
    let (domain, oracles) = square_check_oracles(false);
    let (ck, _vk) = KZG10::setup(20, 20, 0, &None, 11).unwrap();
    let (commitments, rands) = KZG10::commit(&ck, &oracles, 1).unwrap();
    let vo = NewVO::square_check();
    let r = ZeroOverK::prove(&oracles, &commitments[..1].to_vec(), &rands, &vo, &domain, &ck, 3);
    assert!(matches!(r, Err(Error::InputLengthError(_))));
}
