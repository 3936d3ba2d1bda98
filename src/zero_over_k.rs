//! ZeroOverK: a proof that a virtual oracle over committed concrete oracles
//! vanishes on every element of a subgroup K.
use vstd::prelude::*;
use vstd::string::StrSliceExecFns;
use crate::commitment::{
    fits_key, Commitment, CommitterKey, LabeledCommitment, LabeledPolynomial, OpeningProof, Randomness,
    VerifierKey, KZG10,
};
use crate::domain::Domain;
use crate::error::Error;
use crate::field::{fmul, fpow, fsub, values, Fe};
use crate::kzg::{commitment_decodes, empty_randomness, kzg_accepts, proof_decodes};
use crate::poly::{divide_by_vanishing, eval_coeffs, evaluate};
use crate::transcript::{fs_draw, Transcript};
use crate::vo::{term_values, NewVO, ProductCheckVO, VirtualOracle};

verus! {

/// How many times a challenge inside K is drawn again.
pub const CHALLENGE_TRIES: u64 = 8;

/// The protocol's domain-separation tag, `Zero Over K`.
pub open spec fn protocol_name() -> Seq<u8> {
    "Zero Over K"@.map_values(|c: char| c as u8)
}

/// The messages the transcript absorbs: each commitment, then `q`'s.
pub open spec fn commitment_msgs(cs: Seq<LabeledCommitment>, q: Seq<u8>) -> Seq<Seq<u8>> {
    Seq::new(cs.len(), |i: int| cs[i].commitment.bytes@).push(q)
}

/// The challenge: the first draw outside K, drawing again up to `tries` times.
pub open spec fn challenge_outside(seed: Seq<u8>, absorbed: Seq<Seq<u8>>, size: nat, tries: nat) -> nat
    decreases tries,
{
    let c = fs_draw(seed, absorbed);
    if tries <= 1 || fpow(c, size) != 1 {
        c
    } else {
        challenge_outside(seed, absorbed.push(Seq::<u8>::empty()), size, (tries - 1) as nat)
    }
}

/// The value at `x` of the virtual polynomial of `vo` on the coefficient vectors.
pub open spec fn vo_value<V: VirtualOracle>(vo: &V, polys: Seq<Vec<Fe>>, x: nat) -> nat {
    vo.spec_combine(term_values(vo.spec_mapping(), vo.spec_shifts(), polys, x), x)
}

/// The coefficient vectors of labeled polynomials.
pub open spec fn coeffs_of(ps: Seq<LabeledPolynomial>) -> Seq<Vec<Fe>> {
    ps.map_values(|p: LabeledPolynomial| p.coeffs)
}

/// The virtual polynomial vanishes on every element of the domain.
pub open spec fn vanishes_on<V: VirtualOracle>(vo: &V, polys: Seq<Vec<Fe>>, d: Domain) -> bool {
    forall|i: nat| i < d.spec_size() ==> #[trigger] vo_value(vo, polys, d.elem(i)) == 0
}

/// A ZeroOverK proof.
#[derive(Clone, Debug)]
pub struct Proof {
    /// Commitment to the quotient `q = V / Z_K`.
    pub q_commit: Commitment,
    /// For each term `i`, its concrete oracle's value at `alpha_i * c`.
    pub term_evals: Vec<Fe>,
    pub term_proofs: Vec<OpeningProof>,
    /// `q(c)`.
    pub q_eval: Fe,
    pub q_proof: OpeningProof,
}

pub struct ZeroOverK {}

/// Draws the challenge, drawing again while it falls inside the domain.
fn draw_challenge(transcript: &mut Transcript, domain: &Domain) -> (c: Fe)
    requires
        domain.wf(),
    ensures
        c@ == challenge_outside(old(transcript).spec_seed(), old(transcript).spec_absorbed(), domain.spec_size(), CHALLENGE_TRIES as nat),
{
    let mut tries: u64 = CHALLENGE_TRIES;
    let ghost seed = transcript.spec_seed();
    let ghost start = transcript.spec_absorbed();
    loop
        invariant
            1 <= tries <= CHALLENGE_TRIES,
            seed == old(transcript).spec_seed(),
            start == old(transcript).spec_absorbed(),
            transcript.spec_seed() == seed,
            challenge_outside(seed, start, domain.spec_size(), CHALLENGE_TRIES as nat)
                == challenge_outside(seed, transcript.spec_absorbed(), domain.spec_size(), tries as nat),
        decreases tries,
    {
        let ghost abs = transcript.spec_absorbed();
        let c = transcript.challenge();
        proof {
            crate::field::lemma_reduced(1, 1);
            assert(c@ < crate::field::modulus()) by {
                vstd::arithmetic::div_mod::lemma_mod_bound(c.raw() as int, crate::field::modulus() as int);
            }
        }
        if tries <= 1 || !domain.evaluate_vanishing_polynomial(c).is_zero() {
            proof {
                assert(fpow(c@, domain.spec_size()) != 1 ==> fsub(fpow(c@, domain.spec_size()), 1) != 0);
                assert(fsub(fpow(c@, domain.spec_size()), 1) != 0 ==> fpow(c@, domain.spec_size()) != 1) by {
                    if fpow(c@, domain.spec_size()) == 1 {
                        assert(fsub(1, 1) == 0);
                    }
                }
            }
            assert(challenge_outside(seed, abs, domain.spec_size(), tries as nat) == c@);
            return c;
        }
        proof {
            assert(fpow(c@, domain.spec_size()) == 1) by {
                crate::field::lemma_fpow_reduced(c@, domain.spec_size());
                crate::field::lemma_fsub_zero(fpow(c@, domain.spec_size()), 1);
            }
            assert(transcript.spec_absorbed() == abs.push(Seq::<u8>::empty()));
        }
        tries = tries - 1;
    }
}

/// A transcript seeded with the protocol name that absorbed the concrete
/// oracles' commitments and then `q`'s.
fn protocol_transcript(commitments: &Vec<LabeledCommitment>, q_commit: &Commitment) -> (t: Transcript)
    ensures
        t.spec_seed() == protocol_name(),
        t.spec_absorbed() == commitment_msgs(commitments@, q_commit.bytes@),
{
    let tag = "Zero Over K";
    let name = tag.as_bytes_vec();
    proof {
        reveal_strlit("Zero Over K");
        assert(vstd::string::is_ascii(tag));
        vstd::string::is_ascii_spec_bytes(tag);
        assert(name@ =~= protocol_name());
    }
    let mut t = Transcript::from_seed(&name);
    let mut i: usize = 0;
    while i < commitments.len()
        invariant
            i <= commitments@.len(),
            t.spec_seed() == protocol_name(),
            t.spec_absorbed() =~= Seq::new(i as nat, |j: int| commitments@[j].commitment.bytes@),
        decreases commitments@.len() - i,
    {
        t.absorb(&commitments[i].commitment.bytes);
        i = i + 1;
    }
    t.absorb(&q_commit.bytes);
    t
}

/// The coefficient vectors of labeled polynomials.
pub fn coefficient_vectors(ps: &Vec<LabeledPolynomial>) -> (r: Vec<Vec<Fe>>)
    ensures
        same_views(r@, coeffs_of(ps@)),
{
    let mut r: Vec<Vec<Fe>> = Vec::new();
    let mut i: usize = 0;
    while i < ps.len()
        invariant
            i <= ps@.len(),
            r@.len() == i,
            forall|j: int| 0 <= j < i ==> (#[trigger] r@[j])@ == ps@[j].coeffs@,
        decreases ps@.len() - i,
    {
        let c = ps[i].coeffs.clone();
        assert(c@ =~= ps@[i as int].coeffs@);
        r.push(c);
        i = i + 1;
    }
    r
}

/// Two lists of coefficient vectors with equal contents.
pub open spec fn same_views(a: Seq<Vec<Fe>>, b: Seq<Vec<Fe>>) -> bool {
    a.len() == b.len() && forall|i: int| 0 <= i < a.len() ==> (#[trigger] a[i])@ == b[i]@
}

proof fn lemma_same_views<V: VirtualOracle>(vo: &V, a: Seq<Vec<Fe>>, b: Seq<Vec<Fe>>, x: nat)
    requires
        vo.vo_wf(),
        vo.spec_accepts(a.len() as nat),
        same_views(a, b),
    ensures
        vo_value(vo, a, x) == vo_value(vo, b, x),
{
    vo.lemma_wf();
    let m = vo.spec_mapping();
    let s = vo.spec_shifts();
    assert forall|i: int| 0 <= i < m.len() implies #[trigger] term_values(m, s, a, x)[i] == term_values(m, s, b, x)[i] by {
        assert(vo.spec_accepts(a.len() as nat) && 0 <= i < m.len());
        assert(a[m[i] as int]@ == b[m[i] as int]@);
    }
    assert(term_values(m, s, a, x) =~= term_values(m, s, b, x));
}

/// The inputs fit together: one commitment and one randomness per oracle.
pub open spec fn inputs_match(ps: Seq<LabeledPolynomial>, cs: Seq<LabeledCommitment>, rs: Seq<Randomness>) -> bool {
    cs.len() == ps.len() && rs.len() == ps.len()
}

/// The oracles have at most `m` coefficients, which fit the key, no degree
/// bound, and hiding randomness that hides nothing.
pub open spec fn oracles_fit(ck: &CommitterKey, ps: Seq<LabeledPolynomial>, rs: Seq<Randomness>, m: nat) -> bool {
    &&& m <= ck.spec_supported_degree() + 1
    &&& forall|i: int| 0 <= i < ps.len() ==> (#[trigger] ps[i]).coeffs@.len() <= m && ps[i].degree_bound is None
    &&& forall|i: int| 0 <= i < rs.len() ==> (#[trigger] rs[i]).spec_bytes() == empty_randomness(0)
}

/// The challenge of a proof whose quotient commitment is `q`.
pub open spec fn proof_challenge(cs: Seq<LabeledCommitment>, q: Seq<u8>, d: Domain) -> nat {
    challenge_outside(protocol_name(), commitment_msgs(cs, q), d.spec_size(), CHALLENGE_TRIES as nat)
}

impl ZeroOverK {
    /// Proves that the virtual oracle `vo` over the concrete oracles vanishes
    /// on the domain. Fails with `Check1Failed` exactly when it does not.
    #[verifier::spinoff_prover]
    #[verifier::rlimit(100)]
    pub fn prove<V: VirtualOracle>(
        concrete_oracles: &Vec<LabeledPolynomial>,
        commitments: &Vec<LabeledCommitment>,
        rands: &Vec<Randomness>,
        vo: &V,
        domain: &Domain,
        ck: &CommitterKey,
        seed: u64,
    ) -> (r: Result<Proof, Error>)
        requires
            vo.vo_wf(),
            domain.wf(),
        ensures
            !inputs_match(concrete_oracles@, commitments@, rands@) ==> (r matches Err(e) && e is InputLengthError),
            inputs_match(concrete_oracles@, commitments@, rands@) && !vo.spec_accepts(concrete_oracles@.len() as nat)
                ==> (r matches Err(e) && (e is InputLengthError || e is InstantiationError)),
            r matches Err(e) ==> (e is InputLengthError || e is InstantiationError || e is Check1Failed || e is PCError),
            (r matches Err(e) && e is Check1Failed) <==> (inputs_match(concrete_oracles@, commitments@, rands@)
                && vo.spec_accepts(concrete_oracles@.len() as nat)
                && !vanishes_on(vo, coeffs_of(concrete_oracles@), *domain)),
            inputs_match(concrete_oracles@, commitments@, rands@) && vo.spec_accepts(concrete_oracles@.len() as nat)
                && vanishes_on(vo, coeffs_of(concrete_oracles@), *domain) ==> (r is Ok || (r matches Err(e) && e is PCError)),
            forall|m: nat| inputs_match(concrete_oracles@, commitments@, rands@) && vo.spec_accepts(concrete_oracles@.len() as nat)
                && vanishes_on(vo, coeffs_of(concrete_oracles@), *domain) && #[trigger] oracles_fit(ck, concrete_oracles@, rands@, m)
                && vo.spec_len_bound(m) <= ck.spec_supported_degree() + 1 ==> r is Ok,
            r matches Ok(proof) ==> {
                &&& inputs_match(concrete_oracles@, commitments@, rands@)
                &&& vanishes_on(vo, coeffs_of(concrete_oracles@), *domain)
                &&& proof.term_evals@.len() == vo.spec_mapping().len()
                &&& proof.term_proofs@.len() == vo.spec_mapping().len()
                &&& forall|i: int| 0 <= i < proof.term_evals@.len() ==> (#[trigger] proof.term_evals@[i])@ == eval_coeffs(
                    concrete_oracles@[vo.spec_mapping()[i] as int].coeffs@,
                    fmul(vo.spec_shifts()[i], proof_challenge(commitments@, proof.q_commit.bytes@, *domain)))
            },
    {
        if commitments.len() != concrete_oracles.len() || rands.len() != concrete_oracles.len() {
            return Err(Error::InputLengthError("one commitment and one randomness per oracle are needed".to_string()));
        }
        let polys = coefficient_vectors(concrete_oracles);
        let v = vo.instantiate_in_coeffs_form(&polys)?;
        proof { vo.lemma_wf(); }
        // Step 1: the virtual polynomial must vanish on the domain.
        let n = domain.size();
        let mut i: usize = 0;
        while i < n
            invariant
                i <= n,
                n == domain.spec_size(),
                vo.vo_wf(),
                inputs_match(concrete_oracles@, commitments@, rands@),
                vo.spec_accepts(concrete_oracles@.len() as nat),
                same_views(polys@, coeffs_of(concrete_oracles@)),
                forall|x: nat| #[trigger] eval_coeffs(v@, x) == vo_value(vo, polys@, x),
                forall|j: nat| j < i ==> #[trigger] vo_value(vo, polys@, domain.elem(j)) == 0,
            decreases n - i,
        {
            let x = domain.element(i as u64);
            let y = evaluate(&v, x);
            if !y.is_zero() {
                assert(!vanishes_on(vo, coeffs_of(concrete_oracles@), *domain)) by {
                    assert(vo_value(vo, polys@, domain.elem(i as nat)) != 0);
                    lemma_same_views(vo, polys@, coeffs_of(concrete_oracles@), domain.elem(i as nat));
                }
                return Err(Error::Check1Failed);
            }
            i = i + 1;
        }
        assert forall|j: nat| j < domain.spec_size() implies #[trigger] vo_value(vo, coeffs_of(concrete_oracles@), domain.elem(j)) == 0 by {
            lemma_same_views(vo, polys@, coeffs_of(concrete_oracles@), domain.elem(j));
        }
        assert(vanishes_on(vo, coeffs_of(concrete_oracles@), *domain));
        let ghost fits = exists|m: nat| #[trigger] oracles_fit(ck, concrete_oracles@, rands@, m)
            && vo.spec_len_bound(m) <= ck.spec_supported_degree() + 1;
        proof {
            if fits {
                let m = choose|m: nat| #[trigger] oracles_fit(ck, concrete_oracles@, rands@, m)
                    && vo.spec_len_bound(m) <= ck.spec_supported_degree() + 1;
                assert forall|i: int| 0 <= i < polys@.len() implies (#[trigger] polys@[i])@.len() <= m by {
                    assert(concrete_oracles@[i].coeffs@.len() <= m);
                }
                assert(v@.len() <= vo.spec_len_bound(m));
            }
        }
        let (q, _remainder) = match divide_by_vanishing(&v, n) {
            Some(qr) => qr,
            None => {
                return Err(Error::PCError("division by the vanishing polynomial failed".to_string()));
            },
        };
        // Step 2: commit to the quotient.
        let q_poly = LabeledPolynomial::new("q".to_string(), q, None, None);
        let q_polys = vec![q_poly.copy()];
        proof {
            if fits {
                assert(fits_key(ck, q_polys@[0]));
            }
        }
        let (q_commits, q_rands) = KZG10::commit(ck, &q_polys, seed)?;
        let q_commit = q_commits[0].copy();
        // Step 3: the challenge.
        let mut transcript = protocol_transcript(commitments, &q_commit.commitment);
        let c = draw_challenge(&mut transcript, domain);
        // Step 4: open each term's oracle at its shifted point, and q at c.
        let mapping = vo.mapping_vector();
        let shifts = vo.shifting_coefficients();
        assert(shifts@.len() == values(shifts@).len());
        let mut term_evals: Vec<Fe> = Vec::new();
        let mut term_proofs: Vec<OpeningProof> = Vec::new();
        let mut k: usize = 0;
        while k < mapping.len()
            invariant
                k <= mapping@.len(),
                vo.vo_wf(),
                mapping@ == vo.spec_mapping(),
                values(shifts@) == vo.spec_shifts(),
                shifts@.len() == mapping@.len(),
                vo.spec_accepts(concrete_oracles@.len() as nat),
                forall|n: nat, j: int| #[trigger] vo.spec_accepts(n) && 0 <= j < vo.spec_mapping().len()
                    ==> (#[trigger] vo.spec_mapping()[j]) < n,
                inputs_match(concrete_oracles@, commitments@, rands@),
                vanishes_on(vo, coeffs_of(concrete_oracles@), *domain),
                same_views(polys@, coeffs_of(concrete_oracles@)),
                fits ==> exists|m: nat| #[trigger] oracles_fit(ck, concrete_oracles@, rands@, m),
                c@ == proof_challenge(commitments@, q_commit.commitment.bytes@, *domain),
                term_evals@.len() == k,
                term_proofs@.len() == k,
                forall|j: int| 0 <= j < k ==> (#[trigger] term_evals@[j])@ == eval_coeffs(
                    concrete_oracles@[vo.spec_mapping()[j] as int].coeffs@, fmul(vo.spec_shifts()[j], c@)),
            decreases mapping@.len() - k,
        {
            let idx = mapping[k];
            assert(vo.spec_accepts(concrete_oracles@.len() as nat) && 0 <= k < vo.spec_mapping().len());
            let point = shifts[k].mul(c);
            let value = evaluate(&polys[idx], point);
            assert(polys@[idx as int]@ == concrete_oracles@[idx as int].coeffs@);
            let pf = KZG10::open(ck, &concrete_oracles[idx], &rands[idx], point)?;
            term_evals.push(value);
            term_proofs.push(pf);
            k = k + 1;
        }
        let q_eval = evaluate(&q_poly.coeffs, c);
        let q_proof = KZG10::open(ck, &q_poly, &q_rands[0], c)?;
        Ok(Proof { q_commit: q_commit.commitment, term_evals, term_proofs, q_eval, q_proof })
    }
}

impl ZeroOverK {
    /// Checks a ZeroOverK proof against the concrete oracles' commitments: at
    /// the challenge `c`, the virtual oracle's value computed from the opened
    /// term values must equal `q(c) * (c^|K| - 1)` (else `Check2Failed`), and
    /// every opening must verify (else `BatchCheckError`).
    #[verifier::spinoff_prover]
    #[verifier::rlimit(100)]
    pub fn verify<V: VirtualOracle>(
        proof: &Proof,
        commitments: &Vec<LabeledCommitment>,
        vo: &V,
        domain: &Domain,
        vk: &VerifierKey,
    ) -> (r: Result<(), Error>)
        requires
            vo.vo_wf(),
            domain.wf(),
        ensures
            (r matches Err(e) && e is InputLengthError) <==> !proof_shape_ok(proof, commitments@, vo),
            (r matches Err(e) && e is Check2Failed) <==> (proof_shape_ok(proof, commitments@, vo)
                && !quotient_relation_holds(proof, commitments@, vo, *domain)),
            r is Ok ==> {
                &&& proof_shape_ok(proof, commitments@, vo)
                &&& quotient_relation_holds(proof, commitments@, vo, *domain)
                &&& openings_accepted(proof, commitments@, vo, *domain, vk.spec_bytes())
            },
            r matches Err(e) && e is BatchCheckError ==> !openings_accepted(proof, commitments@, vo, *domain, vk.spec_bytes()),
            proof_shape_ok(proof, commitments@, vo) && quotient_relation_holds(proof, commitments@, vo, *domain)
                && openings_accepted(proof, commitments@, vo, *domain, vk.spec_bytes())
                && openings_decode(proof, commitments@) ==> r is Ok,
            r matches Err(e) ==> (e is InputLengthError || e is Check2Failed || e is BatchCheckError || e is PCError),
    {
        proof { vo.lemma_wf(); }
        let k = vo.num_of_oracles();
        if proof.term_evals.len() != k || proof.term_proofs.len() != k || !vo.accepts(commitments.len()) {
            return Err(Error::InputLengthError("the proof does not fit the virtual oracle".to_string()));
        }
        let mut transcript = protocol_transcript(commitments, &proof.q_commit);
        let c = draw_challenge(&mut transcript, domain);
        let v_c = match vo.query(&proof.term_evals, c) {
            Ok(v) => v,
            Err(_) => {
                return Err(Error::InputLengthError("the proof does not fit the virtual oracle".to_string()));
            },
        };
        let z_c = domain.evaluate_vanishing_polynomial(c);
        if !v_c.equals(&proof.q_eval.mul(z_c)) {
            return Err(Error::Check2Failed);
        }
        let mapping = vo.mapping_vector();
        let shifts = vo.shifting_coefficients();
        assert(shifts@.len() == values(shifts@).len());
        let mut i: usize = 0;
        while i < k
            invariant
                i <= k,
                k == vo.spec_mapping().len(),
                vo.vo_wf(),
                mapping@ == vo.spec_mapping(),
                values(shifts@) == vo.spec_shifts(),
                shifts@.len() == mapping@.len(),
                proof_shape_ok(proof, commitments@, vo),
                quotient_relation_holds(proof, commitments@, vo, *domain),
                openings_accepted(proof, commitments@, vo, *domain, vk.spec_bytes()) && openings_decode(proof, commitments@)
                    ==> forall|j: int| 0 <= j < k ==> #[trigger] term_opening_accepted(proof, commitments@, vo, *domain, vk.spec_bytes(), j),
                forall|n: nat, j: int| #[trigger] vo.spec_accepts(n) && 0 <= j < vo.spec_mapping().len()
                    ==> (#[trigger] vo.spec_mapping()[j]) < n,
                c@ == proof_challenge(commitments@, proof.q_commit.bytes@, *domain),
                forall|j: int| 0 <= j < i ==> #[trigger] term_opening_accepted(proof, commitments@, vo, *domain, vk.spec_bytes(), j),
            decreases k - i,
        {
            let idx = mapping[i];
            assert(vo.spec_accepts(commitments@.len() as nat) && 0 <= i < vo.spec_mapping().len());
            let point = shifts[i].mul(c);
            let ok = KZG10::check(vk, &commitments[idx], point, proof.term_evals[i], &proof.term_proofs[i])?;
            if !ok {
                assert(!term_opening_accepted(proof, commitments@, vo, *domain, vk.spec_bytes(), i as int));
                return Err(Error::BatchCheckError);
            }
            i = i + 1;
        }
        let q_commit = LabeledCommitment::new("q".to_string(), proof.q_commit.copy(), None);
        let ok = KZG10::check(vk, &q_commit, c, proof.q_eval, &proof.q_proof)?;
        if !ok {
            return Err(Error::BatchCheckError);
        }
        Ok(())
    }
}

/// The proof has one opened value and proof per term, and the commitments
/// cover the oracle's mapping.
pub open spec fn proof_shape_ok<V: VirtualOracle>(proof: &Proof, cs: Seq<LabeledCommitment>, vo: &V) -> bool {
    &&& proof.term_evals@.len() == vo.spec_mapping().len()
    &&& proof.term_proofs@.len() == vo.spec_mapping().len()
    &&& vo.spec_accepts(cs.len() as nat)
}

/// `V(c) = q(c) * Z_K(c)`, with `V(c)` computed from the opened term values.
pub open spec fn quotient_relation_holds<V: VirtualOracle>(proof: &Proof, cs: Seq<LabeledCommitment>, vo: &V, d: Domain) -> bool {
    let c = proof_challenge(cs, proof.q_commit.bytes@, d);
    vo.spec_combine(values(proof.term_evals@), c) == fmul(proof.q_eval@, fsub(fpow(c, d.spec_size()), 1))
}

/// The opening of term `i` verifies.
pub open spec fn term_opening_accepted<V: VirtualOracle>(proof: &Proof, cs: Seq<LabeledCommitment>, vo: &V, d: Domain, vk: Seq<u8>, i: int) -> bool {
    let c = proof_challenge(cs, proof.q_commit.bytes@, d);
    let oracle = cs[vo.spec_mapping()[i] as int];
    kzg_accepts(vk, oracle.commitment.bytes@, oracle.degree_bound, fmul(vo.spec_shifts()[i], c),
        proof.term_evals@[i]@, proof.term_proofs@[i].bytes@)
}

/// Every commitment and proof the verifier reads decodes, and the
/// commitments carry no degree bound.
pub open spec fn openings_decode(proof: &Proof, cs: Seq<LabeledCommitment>) -> bool {
    &&& forall|i: int| 0 <= i < cs.len() ==> commitment_decodes((#[trigger] cs[i]).commitment.bytes@) && cs[i].degree_bound is None
    &&& forall|i: int| 0 <= i < proof.term_proofs@.len() ==> proof_decodes((#[trigger] proof.term_proofs@[i]).bytes@)
    &&& commitment_decodes(proof.q_commit.bytes@)
    &&& proof_decodes(proof.q_proof.bytes@)
}

/// Every term's opening and the quotient's opening verify.
pub open spec fn openings_accepted<V: VirtualOracle>(proof: &Proof, cs: Seq<LabeledCommitment>, vo: &V, d: Domain, vk: Seq<u8>) -> bool {
    let c = proof_challenge(cs, proof.q_commit.bytes@, d);
    &&& forall|i: int| 0 <= i < vo.spec_mapping().len() ==> #[trigger] term_opening_accepted(proof, cs, vo, d, vk, i)
    &&& kzg_accepts(vk, proof.q_commit.bytes@, None, c, proof.q_eval@, proof.q_proof.bytes@)
}

/// What an accepted square-check proof on commitments `a` and `b` shows: at
/// the challenge `c`, `a(c) - b(c)^2 = q(c) (c^|K| - 1)` for the opened values,
/// and all three openings verify.
pub open spec fn square_check_accepts(a: Seq<u8>, a_db: Option<usize>, b: Seq<u8>, b_db: Option<usize>, p: Proof, d: Domain, vk: Seq<u8>) -> bool {
    let c = challenge_outside(protocol_name(), seq![a, b, p.q_commit.bytes@], d.spec_size(), CHALLENGE_TRIES as nat);
    &&& p.term_evals@.len() == 2
    &&& p.term_proofs@.len() == 2
    &&& fsub(p.term_evals@[0]@, fmul(p.term_evals@[1]@, p.term_evals@[1]@)) == fmul(p.q_eval@, fsub(fpow(c, d.spec_size()), 1))
    &&& kzg_accepts(vk, a, a_db, fmul(1, c), p.term_evals@[0]@, p.term_proofs@[0].bytes@)
    &&& kzg_accepts(vk, b, b_db, fmul(1, c), p.term_evals@[1]@, p.term_proofs@[1].bytes@)
    &&& kzg_accepts(vk, p.q_commit.bytes@, None, c, p.q_eval@, p.q_proof.bytes@)
}

/// What an accepted product-check proof on commitments `a`, `b`, `e` shows:
/// at the challenge `c`, `a(c) - b(c) e(c) = q(c) (c^|K| - 1)` for the opened
/// values, and all four openings verify.
pub open spec fn product_check_accepts(a: Seq<u8>, b: Seq<u8>, e: Seq<u8>, p: Proof, d: Domain, vk: Seq<u8>) -> bool {
    let c = challenge_outside(protocol_name(), seq![a, b, e, p.q_commit.bytes@], d.spec_size(), CHALLENGE_TRIES as nat);
    &&& p.term_evals@.len() == 3
    &&& p.term_proofs@.len() == 3
    &&& fsub(p.term_evals@[0]@, fmul(p.term_evals@[1]@, p.term_evals@[2]@)) == fmul(p.q_eval@, fsub(fpow(c, d.spec_size()), 1))
    &&& kzg_accepts(vk, a, None, fmul(1, c), p.term_evals@[0]@, p.term_proofs@[0].bytes@)
    &&& kzg_accepts(vk, b, None, fmul(1, c), p.term_evals@[1]@, p.term_proofs@[1].bytes@)
    &&& kzg_accepts(vk, e, None, fmul(1, c), p.term_evals@[2]@, p.term_proofs@[2].bytes@)
    &&& kzg_accepts(vk, p.q_commit.bytes@, None, c, p.q_eval@, p.q_proof.bytes@)
}

/// The quotient commitment and the opening proofs of a ZeroOverK proof decode.
pub open spec fn zok_decodes(p: Proof) -> bool {
    &&& commitment_decodes(p.q_commit.bytes@)
    &&& proof_decodes(p.q_proof.bytes@)
    &&& forall|i: int| 0 <= i < p.term_proofs@.len() ==> proof_decodes((#[trigger] p.term_proofs@[i]).bytes@)
}

/// For the square check, ZeroOverK's acceptance is `square_check_accepts`.
pub proof fn lemma_square_check_accepts(vo: &NewVO, p: Proof, cs: Seq<LabeledCommitment>, d: Domain, vk: Seq<u8>)
    requires
        vo.wf(),
        vo.spec_minimum_oracle_length() == 2,
        vo.spec_mapping_vector() == seq![0usize, 1usize],
        values(vo.spec_shifting_coefficients()) == seq![1nat, 1nat],
        forall|t: Seq<nat>, x: nat| #[trigger] vo.spec_combine(t, x) == fsub(t[0], fmul(t[1], t[1])),
        cs.len() == 2,
    ensures
        (proof_shape_ok(&p, cs, vo) && quotient_relation_holds(&p, cs, vo, d) && openings_accepted(&p, cs, vo, d, vk))
            <==> square_check_accepts(cs[0].commitment.bytes@, cs[0].degree_bound, cs[1].commitment.bytes@, cs[1].degree_bound, p, d, vk),
        zok_decodes(p) && commitment_decodes(cs[0].commitment.bytes@) && commitment_decodes(cs[1].commitment.bytes@)
            && cs[0].degree_bound is None && cs[1].degree_bound is None ==> openings_decode(&p, cs),
{
    assert(commitment_msgs(cs, p.q_commit.bytes@) =~= seq![cs[0].commitment.bytes@, cs[1].commitment.bytes@, p.q_commit.bytes@]);
    if p.term_evals@.len() == 2 {
        assert(values(p.term_evals@) =~= seq![p.term_evals@[0]@, p.term_evals@[1]@]);
    }
    if openings_accepted(&p, cs, vo, d, vk) && proof_shape_ok(&p, cs, vo) {
        assert(term_opening_accepted(&p, cs, vo, d, vk, 0));
        assert(term_opening_accepted(&p, cs, vo, d, vk, 1));
    }
    if square_check_accepts(cs[0].commitment.bytes@, cs[0].degree_bound, cs[1].commitment.bytes@, cs[1].degree_bound, p, d, vk) {
        assert forall|i: int| 0 <= i < vo.spec_mapping().len() implies #[trigger] term_opening_accepted(&p, cs, vo, d, vk, i) by {
            if i == 0 {} else {}
        }
    }
    if zok_decodes(p) && commitment_decodes(cs[0].commitment.bytes@) && commitment_decodes(cs[1].commitment.bytes@)
        && cs[0].degree_bound is None && cs[1].degree_bound is None {
        assert forall|i: int| 0 <= i < cs.len() implies commitment_decodes((#[trigger] cs[i]).commitment.bytes@) && cs[i].degree_bound is None by {
            if i == 0 {} else {}
        }
    }
}

/// For the product check, ZeroOverK's acceptance is `product_check_accepts`.
pub proof fn lemma_product_check_accepts(p: Proof, cs: Seq<LabeledCommitment>, d: Domain, vk: Seq<u8>)
    requires
        cs.len() == 3,
        forall|i: int| 0 <= i < 3 ==> (#[trigger] cs[i]).degree_bound is None,
    ensures
        (proof_shape_ok(&p, cs, &(ProductCheckVO {})) && quotient_relation_holds(&p, cs, &(ProductCheckVO {}), d)
            && openings_accepted(&p, cs, &(ProductCheckVO {}), d, vk))
            <==> product_check_accepts(cs[0].commitment.bytes@, cs[1].commitment.bytes@, cs[2].commitment.bytes@, p, d, vk),
        zok_decodes(p) && (forall|i: int| 0 <= i < 3 ==> commitment_decodes((#[trigger] cs[i]).commitment.bytes@))
            ==> openings_decode(&p, cs),
{
    let vo = ProductCheckVO {};
    assert(commitment_msgs(cs, p.q_commit.bytes@) =~= seq![cs[0].commitment.bytes@, cs[1].commitment.bytes@, cs[2].commitment.bytes@, p.q_commit.bytes@]);
    if p.term_evals@.len() == 3 {
        assert(values(p.term_evals@) =~= seq![p.term_evals@[0]@, p.term_evals@[1]@, p.term_evals@[2]@]);
    }
    assert(cs[0].degree_bound is None && cs[1].degree_bound is None && cs[2].degree_bound is None);
    if openings_accepted(&p, cs, &vo, d, vk) && proof_shape_ok(&p, cs, &vo) {
        assert(term_opening_accepted(&p, cs, &vo, d, vk, 0));
        assert(term_opening_accepted(&p, cs, &vo, d, vk, 1));
        assert(term_opening_accepted(&p, cs, &vo, d, vk, 2));
    }
    if product_check_accepts(cs[0].commitment.bytes@, cs[1].commitment.bytes@, cs[2].commitment.bytes@, p, d, vk) {
        assert forall|i: int| 0 <= i < vo.spec_mapping().len() implies #[trigger] term_opening_accepted(&p, cs, &vo, d, vk, i) by {
            if i == 0 {} else if i == 1 {} else {}
        }
    }
}

} // verus!
