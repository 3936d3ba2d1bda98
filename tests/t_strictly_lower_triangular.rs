use proof_of_function_relation::commitment::{LabeledPolynomial, KZG10};
use proof_of_function_relation::domain::Domain;
use proof_of_function_relation::error::Error;
use proof_of_function_relation::t_strictly_lower_triangular_test::TStrictlyLowerTriangular;
use proof_of_function_relation::transcript::Transcript;

fn matrix_polys(row_pows: &[u64], col_pows: &[u64]) -> (Domain, Domain, LabeledPolynomial, LabeledPolynomial) {
    let m = 6;
    let n = 4;
    let domain_k = Domain::new(m).unwrap();
    let domain_h = Domain::new(n).unwrap();
    let row_m_evals: Vec<_> = row_pows.iter().map(|p| domain_h.element(*p)).collect();
    let col_m_evals: Vec<_> = col_pows.iter().map(|p| domain_h.element(*p)).collect();
    let row_poly = LabeledPolynomial::new(String::from("row_poly"), domain_k.ifft(&row_m_evals), None, None);
    let col_poly = LabeledPolynomial::new(String::from("col_poly"), domain_k.ifft(&col_m_evals), None, None);
    (domain_k, domain_h, row_poly, col_poly)
}

#[test]
fn test_valid_matrix() {
    // M values with t = 2
    //   0, 0, 0, 0
    //   0, 0, 0, 0
    //   1, 2, 0, 0
    //   0, 3, 5, 0
    // row_m_evals = w^2 w^2 w^3 w^3 w^3 w^3 w^3 w^3
    // col_m_evals = w^0 w^1 w^2 w^2 w^2 w^2 w^2 w^2
    let (domain_k, domain_h, row_poly, col_poly) = matrix_polys(&[2, 2, 3, 3, 3, 3, 3, 3], &[0, 1, 2, 2, 2, 2, 2, 2]);
    let t = 2;

    let max_degree = 20;
    let (ck, vk) = KZG10::setup(max_degree, max_degree, 0, &None, 20).unwrap();

    let (commitments, _) = KZG10::commit(&ck, &vec![row_poly.clone(), col_poly.clone()], 7).unwrap();

    let mut fs_rng = Transcript::from_seed(&b"Testing :)".to_vec());

    let proof = TStrictlyLowerTriangular::prove(
        &ck,
        t,
        &domain_k,
        &domain_h,
        &row_poly,
        &col_poly,
        &commitments[0].clone(),
        &commitments[1].clone(),
        &mut fs_rng,
        3,
    )
    .unwrap();

    let mut fs_rng = Transcript::from_seed(&b"Testing :)".to_vec());

    assert_eq!(
        TStrictlyLowerTriangular::verify(
            &vk,
            &ck,
            t,
            &domain_k,
            &domain_h,
            &commitments[0].clone(),
            &commitments[1].clone(),
            &proof,
            &mut fs_rng,
        )
        .is_ok(),
        true
    );
}

#[test]
fn test_outside_of_lower_triangle() {
    // M values with t = 2
    //   0, 0, 0, 0
    //   0, 0, 0, 0
    //   1, 2, 5, 0
    //   0, 3, 0, 0
    // row_m_evals = w^2 w^2 w^3 w^3 w^2 w^3 w^3 w^3
    // col_m_evals = w^0 w^1 w^2 w^2 w^2 w^2 w^2 w^2
    let (domain_k, domain_h, row_poly, col_poly) = matrix_polys(&[2, 2, 3, 3, 2, 3, 3, 3], &[0, 1, 2, 2, 2, 2, 2, 2]);
    let t = 2;

    let max_degree = 20;
    let (ck, _) = KZG10::setup(max_degree, max_degree, 0, &None, 20).unwrap();

    let (commitments, _) = KZG10::commit(&ck, &vec![row_poly.clone(), col_poly.clone()], 7).unwrap();

    let mut fs_rng = Transcript::from_seed(&b"Testing :)".to_vec());

    let proof = TStrictlyLowerTriangular::prove(
        &ck,
        t,
        &domain_k,
        &domain_h,
        &row_poly,
        &col_poly,
        &commitments[0].clone(),
        &commitments[1].clone(),
        &mut fs_rng,
        3,
    );

    // Test for a specific error
    assert_eq!(proof.err().unwrap(), Error::FEvalIsZero);
}

#[test]
fn column_equal_to_row_is_rejected() {
    // col[4] raised to w^3, equal to its row
    let (domain_k, domain_h, row_poly, col_poly) = matrix_polys(&[2, 2, 3, 3, 3, 3, 3, 3], &[0, 1, 2, 2, 3, 2, 2, 2]);
    let (ck, _) = KZG10::setup(20, 20, 0, &None, 20).unwrap();
    let (commitments, _) = KZG10::commit(&ck, &vec![row_poly.clone(), col_poly.clone()], 7).unwrap();
    let mut fs_rng = Transcript::from_seed(&b"Testing :)".to_vec());
    let proof = TStrictlyLowerTriangular::prove(
        &ck, 2, &domain_k, &domain_h, &row_poly, &col_poly, &commitments[0], &commitments[1], &mut fs_rng, 3,
    );
    assert_eq!(proof.err(), Some(Error::FEvalIsZero));
}

#[test]
fn row_above_t_is_rejected() {
    let (domain_k, domain_h, row_poly, col_poly) = matrix_polys(&[1, 2, 3, 3, 3, 3, 3, 3], &[0, 1, 2, 2, 2, 2, 2, 2]);
    let (ck, _) = KZG10::setup(20, 20, 0, &None, 20).unwrap();
    let (commitments, _) = KZG10::commit(&ck, &vec![row_poly.clone(), col_poly.clone()], 7).unwrap();
    let mut fs_rng = Transcript::from_seed(&b"Testing :)".to_vec());
    let proof = TStrictlyLowerTriangular::prove(
        &ck, 2, &domain_k, &domain_h, &row_poly, &col_poly, &commitments[0], &commitments[1], &mut fs_rng, 3,
    );
    assert_eq!(proof.err(), Some(Error::Check1Failed));
}

#[test]
fn t_larger_than_h_is_rejected() {
    let (domain_k, domain_h, row_poly, col_poly) = matrix_polys(&[2, 2, 3, 3, 3, 3, 3, 3], &[0, 1, 2, 2, 2, 2, 2, 2]);
    let (ck, _) = KZG10::setup(20, 20, 0, &None, 20).unwrap();
    let (commitments, _) = KZG10::commit(&ck, &vec![row_poly.clone(), col_poly.clone()], 7).unwrap();
    let mut fs_rng = Transcript::from_seed(&b"Testing :)".to_vec());
    let proof = TStrictlyLowerTriangular::prove(
        &ck, 5, &domain_k, &domain_h, &row_poly, &col_poly, &commitments[0], &commitments[1], &mut fs_rng, 3,
    );
    assert_eq!(proof.err(), Some(Error::T2Large));
}

#[test]
fn proof_without_row_range_is_rejected() {
    let (domain_k, domain_h, row_poly, col_poly) = matrix_polys(&[2, 2, 3, 3, 3, 3, 3, 3], &[0, 1, 2, 2, 2, 2, 2, 2]);
    let (ck, vk) = KZG10::setup(20, 20, 0, &None, 20).unwrap();
    let (commitments, _) = KZG10::commit(&ck, &vec![row_poly.clone(), col_poly.clone()], 7).unwrap();
    let mut fs_rng = Transcript::from_seed(&b"Testing :)".to_vec());
    let mut proof = TStrictlyLowerTriangular::prove(
        &ck, 2, &domain_k, &domain_h, &row_poly, &col_poly, &commitments[0], &commitments[1], &mut fs_rng, 3,
    )
    .unwrap();
    proof.row_floor_proof = None;
    let mut fs_rng = Transcript::from_seed(&b"Testing :)".to_vec());
    let r = TStrictlyLowerTriangular::verify(&vk, &ck, 2, &domain_k, &domain_h, &commitments[0], &commitments[1], &proof, &mut fs_rng);
    assert!(matches!(r, Err(Error::InputLengthError(_))));
}
