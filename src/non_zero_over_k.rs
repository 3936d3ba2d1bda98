//! NonZeroOverK: a proof that a committed polynomial has no zero on a subgroup
//! K, by committing to its pointwise inverse g and proving `1 - f g = 0` on K.
use vstd::prelude::*;
use crate::commitment::{fits_key, seed_at, Commitment, CommitterKey, LabeledCommitment, LabeledPolynomial, VerifierKey, KZG10};
use crate::domain::Domain;
use crate::error::Error;
use crate::field::{fmul, fpow, fsub, values, Fe};
use crate::kzg::{commitment_decodes, kzg_accepts, kzg_commit_of, proof_decodes};
use crate::poly::{eval_coeffs, lemma_unit_shift};
use crate::vo::{NewVO, VirtualOracle};
use crate::zero_over_k::{
    challenge_outside, coeffs_of, oracles_fit, commitment_msgs, proof_challenge, protocol_name, term_opening_accepted,
    vanishes_on, vo_value, ZeroOverK, CHALLENGE_TRIES,
};

verus! {

/// A NonZeroOverK proof.
#[derive(Clone, Debug)]
pub struct Proof {
    /// Commitment to g, the interpolation of f's inverted values on K.
    pub g_commit: Commitment,
    pub zero_over_k_proof: crate::zero_over_k::Proof,
}

/// `f` has no zero on the domain.
pub open spec fn nonzero_on(f: Seq<Fe>, d: Domain) -> bool {
    forall|i: nat| i < d.spec_size() ==> #[trigger] eval_coeffs(f, d.elem(i)) != 0
}

/// The inverse check vanishes on the domain when the second oracle inverts
/// the first there.
proof fn lemma_inverse_vanishes(vo: &NewVO, polys: Seq<Vec<Fe>>, d: Domain, f_evals: Seq<Fe>, g_evals: Seq<Fe>)
    requires
        vo.spec_mapping_vector() == seq![0usize, 1usize],
        crate::field::values(vo.spec_shifting_coefficients()) == seq![1nat, 1nat],
        forall|t: Seq<nat>, x: nat| #[trigger] vo.spec_combine(t, x) == fsub(1, fmul(t[0], t[1])),
        polys.len() == 2,
        f_evals.len() == d.spec_size(),
        g_evals.len() == d.spec_size(),
        forall|j: int| 0 <= j < d.spec_size() ==> (#[trigger] f_evals[j])@ == eval_coeffs(polys[0]@, d.elem(j as nat)),
        forall|j: int| 0 <= j < d.spec_size() ==> eval_coeffs(polys[1]@, d.elem(j as nat)) == (#[trigger] g_evals[j])@,
        forall|j: int| 0 <= j < d.spec_size() ==> fmul((#[trigger] g_evals[j])@, f_evals[j]@) == 1,
    ensures
        vanishes_on(vo, polys, d),
{
    assert forall|j: nat| j < d.spec_size() implies #[trigger] vo_value(vo, polys, d.elem(j)) == 0 by {
        let x = d.elem(j);
        lemma_unit_shift(polys[0]@, x);
        lemma_unit_shift(polys[1]@, x);
        let fx = eval_coeffs(polys[0]@, x);
        let gx = eval_coeffs(polys[1]@, x);
        assert(fx == f_evals[j as int]@);
        assert(gx == g_evals[j as int]@);
        assert(fmul(fx, gx) == 1) by {
            assert(gx * fx == fx * gx) by (nonlinear_arith);
        }
        let tv = crate::vo::term_values(vo.spec_mapping(), vo.spec_shifts(), polys, x);
        assert(tv[0] == fx && tv[1] == gx);
        assert(fsub(1, 1) == 0);
    }
}

/// `g` has `|K|` coefficients and inverts f's value at every element of K:
/// it interpolates `1/f` on K.
pub open spec fn inverts_on(g: Seq<Fe>, f: Seq<Fe>, d: Domain) -> bool {
    &&& g.len() == d.spec_size()
    &&& forall|i: nat| i < d.spec_size() ==> fmul(#[trigger] eval_coeffs(g, d.elem(i)), eval_coeffs(f, d.elem(i))) == 1
}

pub struct NonZeroOverK {}

impl NonZeroOverK {
    /// Proves that `f` has no zero on the domain. Fails with `FEvalIsZero`,
    /// before any commitment, exactly when it has one.
    #[verifier::spinoff_prover]
    #[verifier::rlimit(100)]
    pub fn prove(ck: &CommitterKey, domain: &Domain, f: &LabeledPolynomial, seed: u64) -> (r: Result<Proof, Error>)
        requires
            domain.wf(),
        ensures
            (r matches Err(e) && e is FEvalIsZero) <==> !nonzero_on(f.coeffs@, *domain),
            r matches Err(e) ==> (e is FEvalIsZero || e is PCError),
            r is Ok ==> nonzero_on(f.coeffs@, *domain),
            nonzero_on(f.coeffs@, *domain) && f.degree_bound is None && f.hiding_bound is None
                && 2 * f.coeffs@.len() <= ck.spec_supported_degree() + 1
                && 2 * domain.spec_size() <= ck.spec_supported_degree() + 1 ==> r is Ok,
            r matches Ok(p) ==> exists|g: Seq<Fe>| #[trigger] inverts_on(g, f.coeffs@, *domain)
                && p.g_commit.bytes@ == kzg_commit_of(ck.spec_bytes(), values(g), None, None, seed_at(seed, 1)).0,
    {
        let f_evals = domain.evaluations_of(&f.coeffs);
        let mut g_evals: Vec<Fe> = Vec::new();
        let mut i: usize = 0;
        while i < domain.size()
            invariant
                i <= domain.spec_size(),
                f_evals@.len() == domain.spec_size(),
                forall|j: int| 0 <= j < domain.spec_size() ==> (#[trigger] f_evals@[j])@ == eval_coeffs(f.coeffs@, domain.elem(j as nat)),
                g_evals@.len() == i,
                forall|j: int| 0 <= j < i ==> fmul((#[trigger] g_evals@[j])@, f_evals@[j]@) == 1,
            decreases domain.spec_size() - i,
        {
            match f_evals[i].inverse() {
                Some(v) => g_evals.push(v),
                None => {
                    assert(eval_coeffs(f.coeffs@, domain.elem(i as nat)) == 0);
                    return Err(Error::FEvalIsZero);
                },
            }
            i = i + 1;
        }
        assert(nonzero_on(f.coeffs@, *domain)) by {
            assert forall|j: nat| j < domain.spec_size() implies #[trigger] eval_coeffs(f.coeffs@, domain.elem(j)) != 0 by {
                assert(fmul(g_evals@[j as int]@, f_evals@[j as int]@) == 1);
                assert(g_evals@[j as int]@ * 0 == 0);
            }
        }
        let g = LabeledPolynomial::new("g".to_string(), domain.ifft(&g_evals), None, None);
        let concrete_oracles = vec![f.copy(), g];
        let ghost fits = f.degree_bound is None && f.hiding_bound is None
            && 2 * f.coeffs@.len() <= ck.spec_supported_degree() + 1 && 2 * domain.spec_size() <= ck.spec_supported_degree() + 1;
        proof {
            if fits {
                assert(fits_key(ck, concrete_oracles@[0]));
                assert(fits_key(ck, concrete_oracles@[1]));
            }
        }
        let (commitments, rands) = KZG10::commit(ck, &concrete_oracles, seed)?;
        let vo = NewVO::inverse_check();
        proof {
            lemma_inverse_vanishes(&vo, coeffs_of(concrete_oracles@), *domain, f_evals@, g_evals@);
            if fits {
                let m: nat = if f.coeffs@.len() >= domain.spec_size() { f.coeffs@.len() } else { domain.spec_size() };
                assert(domain.spec_size() >= 1);
                assert(concrete_oracles@[1].coeffs@.len() == domain.spec_size());
                assert(commitments@[0].degree_bound == concrete_oracles@[0].degree_bound);
                assert(commitments@[1].degree_bound == concrete_oracles@[1].degree_bound);
                assert(rands@[0].spec_bytes() == crate::kzg::empty_randomness(0));
                assert(rands@[1].spec_bytes() == crate::kzg::empty_randomness(0));
                assert forall|i: int| 0 <= i < concrete_oracles@.len() implies (#[trigger] concrete_oracles@[i]).coeffs@.len() <= m
                    && concrete_oracles@[i].degree_bound is None by {
                    if i == 0 {} else {}
                }
                assert forall|i: int| 0 <= i < rands@.len() implies (#[trigger] rands@[i]).spec_bytes() == crate::kzg::empty_randomness(0) by {
                    if i == 0 {} else {}
                }
                assert(oracles_fit(ck, concrete_oracles@, rands@, m));
                assert(vo.spec_len_bound(m) == 2 * m);
            }
        }
        let zero_over_k_proof = ZeroOverK::prove(&concrete_oracles, &commitments, &rands, &vo, domain, ck, seed)?;
        proof {
            let g_c = concrete_oracles@[1].coeffs@;
            assert forall|i: nat| i < domain.spec_size() implies fmul(#[trigger] eval_coeffs(g_c, domain.elem(i)), eval_coeffs(f.coeffs@, domain.elem(i))) == 1 by {
                assert(eval_coeffs(g_c, domain.elem((i as int) as nat)) == g_evals@[i as int]@);
                assert(f_evals@[i as int]@ == eval_coeffs(f.coeffs@, domain.elem((i as int) as nat)));
            }
            assert(inverts_on(g_c, f.coeffs@, *domain));
        }
        Ok(Proof { g_commit: commitments[1].commitment.copy(), zero_over_k_proof })
    }
}

/// The challenge of a NonZeroOverK proof on the commitments to f and g.
pub open spec fn nzk_challenge(f: Seq<u8>, g: Seq<u8>, p: crate::zero_over_k::Proof, d: Domain) -> nat {
    challenge_outside(protocol_name(), seq![f, g, p.q_commit.bytes@], d.spec_size(), CHALLENGE_TRIES as nat)
}

/// What an accepted NonZeroOverK proof shows: at the challenge `c`, the
/// opened values `f(c)`, `g(c)` and `q(c)` satisfy `1 - f(c) g(c) = q(c) (c^|K| - 1)`,
/// and all three openings verify.
pub open spec fn nzk_accepts(f: Seq<u8>, f_degree_bound: Option<usize>, g: Seq<u8>, p: crate::zero_over_k::Proof, d: Domain, vk: Seq<u8>) -> bool {
    let c = nzk_challenge(f, g, p, d);
    &&& p.term_evals@.len() == 2
    &&& p.term_proofs@.len() == 2
    &&& fsub(1, fmul(p.term_evals@[0]@, p.term_evals@[1]@)) == fmul(p.q_eval@, fsub(fpow(c, d.spec_size()), 1))
    &&& kzg_accepts(vk, f, f_degree_bound, fmul(1, c), p.term_evals@[0]@, p.term_proofs@[0].bytes@)
    &&& kzg_accepts(vk, g, None, fmul(1, c), p.term_evals@[1]@, p.term_proofs@[1].bytes@)
    &&& kzg_accepts(vk, p.q_commit.bytes@, None, c, p.q_eval@, p.q_proof.bytes@)
}

/// The commitments and proofs a NonZeroOverK verifier reads decode.
pub open spec fn nzk_decodes(f: Seq<u8>, p: &Proof) -> bool {
    &&& commitment_decodes(f)
    &&& commitment_decodes(p.g_commit.bytes@)
    &&& commitment_decodes(p.zero_over_k_proof.q_commit.bytes@)
    &&& proof_decodes(p.zero_over_k_proof.q_proof.bytes@)
    &&& forall|i: int| 0 <= i < p.zero_over_k_proof.term_proofs@.len()
        ==> proof_decodes((#[trigger] p.zero_over_k_proof.term_proofs@[i]).bytes@)
}

impl NonZeroOverK {
    /// Checks a NonZeroOverK proof for the commitment to `f`.
    pub fn verify(vk: &VerifierKey, domain: &Domain, f_commit: &LabeledCommitment, proof: &Proof) -> (r: Result<(), Error>)
        requires
            domain.wf(),
        ensures
            r is Ok ==> nzk_accepts(f_commit.commitment.bytes@, f_commit.degree_bound, proof.g_commit.bytes@,
                proof.zero_over_k_proof, *domain, vk.spec_bytes()),
            r matches Err(e) ==> (e is InputLengthError || e is Check2Failed || e is BatchCheckError || e is PCError),
            nzk_accepts(f_commit.commitment.bytes@, f_commit.degree_bound, proof.g_commit.bytes@,
                proof.zero_over_k_proof, *domain, vk.spec_bytes())
                && f_commit.degree_bound is None && nzk_decodes(f_commit.commitment.bytes@, proof) ==> r is Ok,
    {
        let g_commit = LabeledCommitment::new("g".to_string(), proof.g_commit.copy(), None);
        let commitments = vec![f_commit.copy(), g_commit];
        let vo = NewVO::inverse_check();
        proof {
            let p = proof.zero_over_k_proof;
            assert(commitment_msgs(commitments@, p.q_commit.bytes@) =~= seq![f_commit.commitment.bytes@, proof.g_commit.bytes@, p.q_commit.bytes@]);
            if nzk_accepts(f_commit.commitment.bytes@, f_commit.degree_bound, proof.g_commit.bytes@,
                p, *domain, vk.spec_bytes()) && f_commit.degree_bound is None && nzk_decodes(f_commit.commitment.bytes@, proof) {
                assert(crate::field::values(p.term_evals@) =~= seq![p.term_evals@[0]@, p.term_evals@[1]@]);
                assert(term_opening_accepted(&p, commitments@, &vo, *domain, vk.spec_bytes(), 0));
                assert(term_opening_accepted(&p, commitments@, &vo, *domain, vk.spec_bytes(), 1));
                assert(crate::zero_over_k::openings_accepted(&p, commitments@, &vo, *domain, vk.spec_bytes()));
                assert(crate::zero_over_k::openings_decode(&p, commitments@));
                assert(crate::zero_over_k::quotient_relation_holds(&p, commitments@, &vo, *domain));
            }
        }
        let r = ZeroOverK::verify(&proof.zero_over_k_proof, &commitments, &vo, domain, vk);
        proof {
            if r is Ok {
                let p = proof.zero_over_k_proof;
                let c = proof_challenge(commitments@, p.q_commit.bytes@, *domain);
                assert(commitment_msgs(commitments@, p.q_commit.bytes@) =~= seq![f_commit.commitment.bytes@, proof.g_commit.bytes@, p.q_commit.bytes@]);
                assert(crate::field::values(p.term_evals@)[0] == p.term_evals@[0]@);
                assert(crate::field::values(p.term_evals@)[1] == p.term_evals@[1]@);
                assert(term_opening_accepted(&p, commitments@, &vo, *domain, vk.spec_bytes(), 0));
                assert(term_opening_accepted(&p, commitments@, &vo, *domain, vk.spec_bytes(), 1));
            }
        }
        r
    }
}

} // verus!
