use proof_of_function_relation::commitment::{LabeledPolynomial, KZG10};
use proof_of_function_relation::domain::Domain;
use proof_of_function_relation::error::Error;
use proof_of_function_relation::field::Fe;
use proof_of_function_relation::non_zero_over_k::NonZeroOverK;

fn f_with_evals(domain: &Domain, evals: &[u64]) -> LabeledPolynomial {
    let e: Vec<Fe> = evals.iter().map(|v| Fe::from_u64(*v)).collect();
    LabeledPolynomial::new(String::from("f"), domain.ifft(&e), None, None)
}

#[test]
fn non_zero_over_k_verifies() {
    let domain = Domain::new(8).unwrap();
    let f = f_with_evals(&domain, &[1, 2, 3, 4, 5, 6, 7, 8]);
    let (ck, vk) = KZG10::setup(20, 20, 0, &None, 21).unwrap();
    let (commitments, _) = KZG10::commit(&ck, &vec![f.clone()], 0).unwrap();
    let proof = NonZeroOverK::prove(&ck, &domain, &f, 9).unwrap();
    assert_eq!(NonZeroOverK::verify(&vk, &domain, &commitments[0], &proof), Ok(()));
}

#[test]
fn non_zero_over_k_zero_evaluation_fails() {
    let domain = Domain::new(8).unwrap();
    let f = f_with_evals(&domain, &[1, 2, 3, 0, 5, 6, 7, 8]);
    let (ck, _vk) = KZG10::setup(20, 20, 0, &None, 21).unwrap();
    assert_eq!(NonZeroOverK::prove(&ck, &domain, &f, 9).err(), Some(Error::FEvalIsZero));
}

#[test]
fn non_zero_over_k_rejects_other_commitment() {
    let domain = Domain::new(8).unwrap();
    let f = f_with_evals(&domain, &[1, 2, 3, 4, 5, 6, 7, 8]);
    let other = f_with_evals(&domain, &[2, 2, 3, 4, 5, 6, 7, 8]);
    let (ck, vk) = KZG10::setup(20, 20, 0, &None, 21).unwrap();
    let (commitments, _) = KZG10::commit(&ck, &vec![other], 0).unwrap();
    let proof = NonZeroOverK::prove(&ck, &domain, &f, 9).unwrap();
    assert!(NonZeroOverK::verify(&vk, &domain, &commitments[0], &proof).is_err());
}
