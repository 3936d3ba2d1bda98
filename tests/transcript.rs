use proof_of_function_relation::transcript::Transcript;

#[test]
fn challenges_follow_seed_and_messages() {
    let seed = b"Testing :)".to_vec();
    let mut a = Transcript::from_seed(&seed);
    let mut b = Transcript::from_seed(&seed);
    a.absorb(&vec![1, 2, 3]);
    b.absorb(&vec![1, 2, 3]);
    let ca = a.challenge();
    let cb = b.challenge();
    assert!(ca.equals(&cb));
    // a fresh challenge after each draw
    let ca2 = a.challenge();
    assert!(!ca.equals(&ca2));
    let mut c = Transcript::from_seed(&seed);
    c.absorb(&vec![1, 2, 4]);
    assert!(!ca.equals(&c.challenge()));
}
