use proof_of_function_relation::commitment::{LabeledPolynomial, KZG10};
use proof_of_function_relation::discrete_log_comparison::DLComparison;
use proof_of_function_relation::domain::Domain;
use proof_of_function_relation::error::Error;
use proof_of_function_relation::field::Fe;
use proof_of_function_relation::transcript::Transcript;

fn constant_oracle(domain_k: &Domain, v: Fe, label: &str) -> LabeledPolynomial {
    let evals = vec![v; domain_k.size()];
    LabeledPolynomial::new(String::from(label), domain_k.ifft(&evals), None, None)
}

fn run_dl(f_pow: u64, g_pow: u64) -> Result<(), Error> {
    let domain_k = Domain::new(8).unwrap();
    let domain_h = Domain::new(4).unwrap();
    let f = constant_oracle(&domain_k, domain_h.element(f_pow), "f");
    let g = constant_oracle(&domain_k, domain_h.element(g_pow), "g");
    let (ck, vk) = KZG10::setup(20, 20, 0, &None, 41).unwrap();
    let (cs, _) = KZG10::commit(&ck, &vec![f.clone(), g.clone()], 0).unwrap();
    let mut fs = Transcript::from_seed(&b"Testing :)".to_vec());
    let proof = DLComparison::prove(&ck, &domain_k, &domain_h, &f, &g, &cs[0], &cs[1], &mut fs, 5)?;
    let mut fs = Transcript::from_seed(&b"Testing :)".to_vec());
    DLComparison::verify(&vk, &ck, &domain_k, &domain_h, &cs[0], &cs[1], &proof, &mut fs)
}

#[test]
fn dl_comparison_two_below_three_verifies() {
    assert_eq!(run_dl(2, 3), Ok(()));
}

#[test]
fn dl_comparison_swapped_is_rejected() {
    assert_eq!(run_dl(3, 2), Err(Error::FEvalIsZero));
}

#[test]
fn dl_comparison_equal_logs_are_rejected() {
    assert!(run_dl(1, 1).is_err());
}

#[test]
fn dl_comparison_h_larger_than_k() {
    let domain_k = Domain::new(4).unwrap();
    let domain_h = Domain::new(8).unwrap();
    let f = constant_oracle(&domain_k, Fe::one(), "f");
    let (ck, _vk) = KZG10::setup(20, 20, 0, &None, 42).unwrap();
    let (cs, _) = KZG10::commit(&ck, &vec![f.clone()], 0).unwrap();
    let mut fs = Transcript::from_seed(&b"Testing :)".to_vec());
    let r = DLComparison::prove(&ck, &domain_k, &domain_h, &f, &f, &cs[0], &cs[0], &mut fs, 5);
    assert_eq!(r.err(), Some(Error::T2Large));
}
