use proof_of_function_relation::commitment::{LabeledPolynomial, KZG10};
use proof_of_function_relation::domain::Domain;
use proof_of_function_relation::error::Error;
use proof_of_function_relation::field::Fe;
use proof_of_function_relation::geo_seq::{generate_sequence, GeoSeqTest};

fn fe(v: u64) -> Fe {
    Fe::from_u64(v)
}

#[test]
fn generate_sequence_concatenates_runs() {
    let s = generate_sequence(fe(2), &vec![fe(1), fe(5)], &vec![3, 2]);
    let expected = [1u64, 2, 4, 5, 10];
    assert_eq!(s.len(), 5);
    for (v, e) in s.iter().zip(expected.iter()) {
        assert!(v.equals(&fe(*e)));
    }
    assert_eq!(generate_sequence(fe(2), &vec![], &vec![]).len(), 0);
}

fn run_geo_seq(h_evals: &[u64]) -> Result<(), Error> {
    let domain = Domain::new(8).unwrap();
    let evals: Vec<Fe> = h_evals.iter().map(|v| fe(*v)).collect();
    let h = LabeledPolynomial::new(String::from("h"), domain.ifft(&evals), None, None);
    let (ck, vk) = KZG10::setup(20, 20, 0, &None, 31).unwrap();
    let (cs, rs) = KZG10::commit(&ck, &vec![h.clone()], 0).unwrap();
    let a_s = vec![fe(1)];
    let c_s = vec![8];
    let proof = GeoSeqTest::prove(&ck, fe(2), &h, &cs[0], &rs[0], &a_s, &c_s, &domain, 4)?;
    GeoSeqTest::verify(fe(2), &a_s, &c_s, &domain, &cs[0], &proof, &vk)
}

#[test]
fn geo_seq_powers_of_two_verify() {
    assert_eq!(run_geo_seq(&[1, 2, 4, 8, 16, 32, 64, 128]), Ok(()));
}

#[test]
fn geo_seq_changed_value_fails_check1() {
    assert_eq!(run_geo_seq(&[1, 2, 4, 9, 16, 32, 64, 128]), Err(Error::Check1Failed));
}

#[test]
fn geo_seq_two_runs_verify() {
    let domain = Domain::new(8).unwrap();
    let a_s = vec![fe(3), Fe::zero()];
    let c_s = vec![5, 3];
    let seq = generate_sequence(fe(7), &a_s, &c_s);
    let h = LabeledPolynomial::new(String::from("h"), domain.ifft(&seq), None, None);
    let (ck, vk) = KZG10::setup(20, 20, 0, &None, 32).unwrap();
    let (cs, rs) = KZG10::commit(&ck, &vec![h.clone()], 0).unwrap();
    let proof = GeoSeqTest::prove(&ck, fe(7), &h, &cs[0], &rs[0], &a_s, &c_s, &domain, 4).unwrap();
    assert_eq!(GeoSeqTest::verify(fe(7), &a_s, &c_s, &domain, &cs[0], &proof, &vk), Ok(()));
    // a different declared start value is rejected
    let other = vec![fe(4), Fe::zero()];
    assert_eq!(GeoSeqTest::verify(fe(7), &other, &c_s, &domain, &cs[0], &proof, &vk), Err(Error::Check2Failed));
}

#[test]
fn geo_seq_run_lengths_must_fill_the_domain() {
    let domain = Domain::new(8).unwrap();
    let h = LabeledPolynomial::new(String::from("h"), vec![fe(1)], None, None);
    let (ck, _vk) = KZG10::setup(20, 20, 0, &None, 33).unwrap();
    let (cs, rs) = KZG10::commit(&ck, &vec![h.clone()], 0).unwrap();
    let r = GeoSeqTest::prove(&ck, fe(2), &h, &cs[0], &rs[0], &vec![fe(1)], &vec![9], &domain, 4);
    assert_eq!(r.err(), Some(Error::T2Large));
    let r = GeoSeqTest::prove(&ck, fe(2), &h, &cs[0], &rs[0], &vec![fe(1)], &vec![7], &domain, 4);
    assert!(matches!(r, Err(Error::InputLengthError(_))));
}
