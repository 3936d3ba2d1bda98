//! Geometric sequence tests: a committed polynomial's values on K are a
//! concatenation of geometric runs with a common ratio, declared initial
//! values and declared lengths.
use vstd::prelude::*;
use crate::commitment::{CommitterKey, LabeledCommitment, LabeledPolynomial, OpeningProof, Randomness, VerifierKey, KZG10};
use crate::domain::Domain;
use crate::error::Error;
use crate::field::{fmul, fpow, values, Fe};
use crate::kzg::kzg_accepts;
use crate::poly::{eval_coeffs, evaluate, lemma_unit_shift};
use crate::vo::{Combine, NewVO, VirtualOracle};
use crate::zero_over_k::ZeroOverK;

verus! {

/// The run `a, a r, a r^2, ...` of length `n`.
pub open spec fn geo_run(a: nat, r: nat, n: nat) -> Seq<nat> {
    Seq::new(n, |i: int| fmul(a, fpow(r, i as nat)))
}

/// The concatenation of the runs with initial values `a` and lengths `c`.
pub open spec fn geo_seq(r: nat, a: Seq<nat>, c: Seq<usize>) -> Seq<nat>
    decreases a.len(),
{
    if a.len() == 0 || c.len() != a.len() {
        Seq::empty()
    } else {
        geo_seq(r, a.drop_last(), c.drop_last()) + geo_run(a.last(), r, c.last() as nat)
    }
}

/// The sum of the run lengths.
pub open spec fn total(c: Seq<usize>) -> nat
    decreases c.len(),
{
    if c.len() == 0 {
        0
    } else {
        total(c.drop_last()) + c.last() as nat
    }
}

pub proof fn lemma_geo_seq_len(r: nat, a: Seq<nat>, c: Seq<usize>)
    requires
        a.len() == c.len(),
    ensures
        geo_seq(r, a, c).len() == total(c),
    decreases a.len(),
{
    if a.len() > 0 {
        lemma_geo_seq_len(r, a.drop_last(), c.drop_last());
    }
}

/// The concatenation of geometric runs with ratio `r`, initial values `a_s`
/// and lengths `c_s`.
pub fn generate_sequence(r: Fe, a_s: &Vec<Fe>, c_s: &Vec<usize>) -> (s: Vec<Fe>)
    requires
        a_s@.len() == c_s@.len(),
    ensures
        values(s@) == geo_seq(r@, values(a_s@), c_s@),
{
    let mut s: Vec<Fe> = Vec::new();
    let mut k: usize = 0;
    while k < a_s.len()
        invariant
            k <= a_s@.len(),
            a_s@.len() == c_s@.len(),
            values(s@) == geo_seq(r@, values(a_s@).subrange(0, k as int), c_s@.subrange(0, k as int)),
        decreases a_s@.len() - k,
    {
        let ghost before = values(s@);
        let mut cur = a_s[k];
        let mut i: usize = 0;
        assert(fmul(a_s@[k as int]@, fpow(r@, 0)) == cur@) by {
            assert(fpow(r@, 0) == 1);
            assert(cur@ * 1 == cur@);
            vstd::arithmetic::div_mod::lemma_mod_twice(cur.raw() as int, crate::field::modulus() as int);
        }
        while i < c_s[k]
            invariant
                i <= c_s@[k as int],
                k < a_s@.len(),
                a_s@.len() == c_s@.len(),
                cur@ == fmul(a_s@[k as int]@, fpow(r@, i as nat)),
                values(s@) == before + geo_run(a_s@[k as int]@, r@, i as nat),
            decreases c_s@[k as int] - i,
        {
            let ghost prev = s@;
            s.push(cur);
            proof {
                assert(values(s@) =~= values(prev).push(cur@));
                assert(geo_run(a_s@[k as int]@, r@, (i + 1) as nat) =~= geo_run(a_s@[k as int]@, r@, i as nat).push(cur@));
                assert(values(s@) =~= before + geo_run(a_s@[k as int]@, r@, (i + 1) as nat));
                crate::field::lemma_fmul3(a_s@[k as int]@, fpow(r@, i as nat), r@);
                vstd::arithmetic::div_mod::lemma_mul_mod_noop_left((a_s@[k as int]@ * fpow(r@, i as nat)) as int, r@ as int, crate::field::modulus() as int);
                vstd::arithmetic::div_mod::lemma_mul_mod_noop_right(a_s@[k as int]@ as int, (fpow(r@, i as nat) * r@) as int, crate::field::modulus() as int);
                assert(a_s@[k as int]@ * fpow(r@, i as nat) * r@ == a_s@[k as int]@ * (fpow(r@, i as nat) * r@)) by (nonlinear_arith);
            }
            cur = cur.mul(r);
            i = i + 1;
        }
        proof {
            let a2 = values(a_s@).subrange(0, k + 1);
            let c2 = c_s@.subrange(0, k + 1);
            assert(a2.drop_last() =~= values(a_s@).subrange(0, k as int));
            assert(c2.drop_last() =~= c_s@.subrange(0, k as int));
        }
        k = k + 1;
    }
    assert(values(a_s@).subrange(0, a_s@.len() as int) =~= values(a_s@));
    assert(c_s@.subrange(0, c_s@.len() as int) =~= c_s@);
    s
}

/// The polynomial's values on the domain are `g`.
pub open spec fn evals_match(h: Seq<Fe>, d: Domain, g: Seq<nat>) -> bool {
    &&& g.len() == d.spec_size()
    &&& forall|j: nat| j < d.spec_size() ==> #[trigger] eval_coeffs(h, d.elem(j)) == g[j as int]
}

/// The start index and initial value of each non-empty run.
pub open spec fn run_starts(a: Seq<Fe>, c: Seq<usize>) -> Seq<(nat, nat)>
    decreases c.len(),
{
    if c.len() == 0 || a.len() != c.len() {
        Seq::empty()
    } else {
        let rest = run_starts(a.drop_last(), c.drop_last());
        if c.last() == 0 { rest } else { rest.push((total(c.drop_last()), a.last()@)) }
    }
}

/// The index of the last element of each non-empty run.
pub open spec fn run_ends(c: Seq<usize>) -> Seq<nat>
    decreases c.len(),
{
    if c.len() == 0 {
        Seq::empty()
    } else {
        let rest = run_ends(c.drop_last());
        if c.last() == 0 { rest } else { rest.push((total(c) - 1) as nat) }
    }
}

proof fn lemma_run_ends_below(c: Seq<usize>)
    ensures
        forall|i: int| 0 <= i < run_ends(c).len() ==> #[trigger] run_ends(c)[i] < total(c),
    decreases c.len(),
{
    if c.len() > 0 {
        let rest = run_ends(c.drop_last());
        lemma_run_ends_below(c.drop_last());
        assert forall|i: int| 0 <= i < run_ends(c).len() implies #[trigger] run_ends(c)[i] < total(c) by {
            if i < rest.len() {
                assert(run_ends(c)[i] == rest[i]);
            }
        }
    }
}

/// Inside a run, each value is the ratio times the one before it.
proof fn lemma_geo_step(r: nat, a: Seq<nat>, c: Seq<usize>, j: nat)
    requires
        a.len() == c.len(),
        forall|i: int| 0 <= i < a.len() ==> #[trigger] a[i] < crate::field::modulus(),
        j < total(c),
        !run_ends(c).contains(j),
    ensures
        j + 1 < total(c),
        geo_seq(r, a, c)[(j + 1) as int] == fmul(r, geo_seq(r, a, c)[j as int]),
    decreases c.len(),
{
    let a1 = a.drop_last();
    let c1 = c.drop_last();
    lemma_geo_seq_len(r, a1, c1);
    let g = geo_seq(r, a, c);
    let g1 = geo_seq(r, a1, c1);
    if j < total(c1) {
        if run_ends(c1).contains(j) {
            let k = choose|k: int| 0 <= k < run_ends(c1).len() && run_ends(c1)[k] == j;
            if c.last() != 0 {
                assert(run_ends(c)[k] == j);
            } else {
                assert(run_ends(c) == run_ends(c1));
            }
            assert(false);
        }
        assert forall|i: int| 0 <= i < a1.len() implies #[trigger] a1[i] < crate::field::modulus() by {
            assert(a1[i] == a[i]);
        }
        lemma_geo_step(r, a1, c1, j);
        assert(g[j as int] == g1[j as int]);
        assert(g[(j + 1) as int] == g1[(j + 1) as int]);
    } else {
        let i = (j - total(c1)) as nat;
        assert(c.last() > 0);
        if j + 1 >= total(c) {
            assert(run_ends(c) == run_ends(c1).push((total(c) - 1) as nat));
            assert(run_ends(c)[run_ends(c).len() - 1] == j);
            assert(false);
        }
        let al = a.last();
        assert(g[j as int] == fmul(al, fpow(r, i)));
        assert(g[(j + 1) as int] == fmul(al, fpow(r, i + 1)));
        crate::field::lemma_fmul3(al, fpow(r, i), r);
        crate::field::lemma_fmul3(r, al, fpow(r, i));
        assert(fpow(r, i + 1) == fmul(fpow(r, i), r));
        vstd::arithmetic::div_mod::lemma_mul_mod_noop_right(r as int, (al * fpow(r, i)) as int, crate::field::modulus() as int);
        assert(al * fpow(r, i) * r == r * al * fpow(r, i)) by (nonlinear_arith);
    }
}

/// At an element inside a run, `h(gamma x) - r h(x) = 0`.
proof fn lemma_geo_interior(h: Seq<Fe>, d: Domain, r: nat, g: Seq<nat>, j: nat)
    requires
        d.wf(),
        evals_match(h, d, g),
        j + 1 < d.spec_size(),
        g[(j + 1) as int] == fmul(r, g[j as int]),
    ensures
        crate::field::fsub(eval_coeffs(h, fmul(d.elem(1), d.elem(j))), fmul(r, eval_coeffs(h, fmul(1, d.elem(j))))) == 0,
{
    let p = crate::field::modulus();
    let gen = d.spec_gen();
    let x = d.elem(j);
    lemma_unit_shift(h, x);
    assert(eval_coeffs(h, d.elem(j)) == g[j as int]);
    assert(fpow(gen, 0) == 1);
    assert(fpow(gen, 1) == fmul(fpow(gen, 0), gen));
    assert(1 * gen == gen);
    d.lemma_gen_reduced();
    vstd::arithmetic::div_mod::lemma_small_mod(gen, p);
    assert(d.elem(1) == gen);
    assert(fmul(gen, x) == fmul(x, gen)) by {
        assert(gen * x == x * gen) by (nonlinear_arith);
    }
    assert(fmul(d.elem(1), x) == d.elem(j + 1));
    assert(eval_coeffs(h, d.elem((j + 1) as nat)) == g[(j + 1) as int]);
    let v = fmul(r, g[j as int]);
    crate::field::lemma_reduced(r, g[j as int]);
    vstd::arithmetic::div_mod::lemma_small_mod(v, p);
    vstd::arithmetic::div_mod::lemma_mod_self_0(p as int);
}

/// When h's values on K are the declared runs, the test's virtual oracle
/// vanishes on K: inside a run the recurrence holds, at a run's end the
/// selector is zero.
proof fn lemma_geo_vanishes(vo: &NewVO, polys: Seq<Vec<Fe>>, d: Domain, r: Fe, a: Seq<Fe>, c: Seq<usize>, ends: Seq<usize>)
    requires
        d.wf(),
        vo.wf(),
        vo.spec_mapping_vector() == seq![0usize, 0usize],
        values(vo.spec_shifting_coefficients()) == seq![d.elem(1), 1nat],
        forall|t: Seq<nat>, x: nat| #![trigger vo.spec_combine(t, x)]
            (crate::field::fsub(t[0], fmul(r@, t[1])) == 0
                || exists|i: int| 0 <= i < ends.len() && x % crate::field::modulus() == #[trigger] d.elem(ends[i] as nat))
            ==> vo.spec_combine(t, x) == 0,
        ends.len() == run_ends(c).len(),
        forall|k: int| 0 <= k < ends.len() ==> (#[trigger] ends[k]) as nat == run_ends(c)[k],
        a.len() == c.len(),
        total(c) == d.spec_size(),
        polys.len() == 1,
        evals_match(polys[0]@, d, geo_seq(r@, values(a), c)),
    ensures
        crate::zero_over_k::vanishes_on(vo, polys, d),
{
    let p = crate::field::modulus();
    let g = geo_seq(r@, values(a), c);
    assert forall|i: int| 0 <= i < values(a).len() implies #[trigger] values(a)[i] < p by {
        vstd::arithmetic::div_mod::lemma_mod_bound(a[i].raw() as int, p as int);
    }
    assert forall|j: nat| j < d.spec_size() implies #[trigger] crate::zero_over_k::vo_value(vo, polys, d.elem(j)) == 0 by {
        let x = d.elem(j);
        let tv = crate::vo::term_values(vo.spec_mapping(), vo.spec_shifts(), polys, x);
        assert(tv[0] == eval_coeffs(polys[0]@, fmul(d.elem(1), x)));
        assert(tv[1] == eval_coeffs(polys[0]@, fmul(1, x)));
        if run_ends(c).contains(j) {
            let k = choose|k: int| 0 <= k < run_ends(c).len() && run_ends(c)[k] == j;
            crate::field::lemma_fpow_reduced(d.spec_gen(), j);
            vstd::arithmetic::div_mod::lemma_small_mod(x, p);
            assert(ends[k] as nat == j);
            assert(x % p == d.elem(ends[k] as nat));
        } else {
            lemma_geo_step(r@, values(a), c, j);
            lemma_geo_interior(polys[0]@, d, r@, g, j);
        }
        assert(vo.spec_combine(tv, x) == 0);
    }
}

/// h has at most `|K|` coefficients, no degree bound and no hiding, and the
/// key commits to the test's quotient: `|K| + 1 + 2 * runs` coefficients.
pub open spec fn h_fits(ck: &CommitterKey, h: &LabeledPolynomial, h_rand: &Randomness, n: nat, runs: nat) -> bool {
    &&& h.coeffs@.len() <= n
    &&& h.degree_bound is None
    &&& h_rand.spec_bytes() == crate::kzg::empty_randomness(0)
    &&& n + 1 + 2 * runs <= ck.spec_supported_degree() + 1
}

proof fn lemma_run_ends_len(c: Seq<usize>)
    ensures
        run_ends(c).len() <= c.len(),
    decreases c.len(),
{
    if c.len() > 0 {
        lemma_run_ends_len(c.drop_last());
    }
}

/// The points of K at the ends of the non-empty runs.
pub open spec fn end_points(ends: Seq<usize>, d: Domain) -> Seq<nat> {
    Seq::new(ends.len(), |i: int| d.elem(ends[i] as nat))
}

/// The run-end selector `prod_e (x - e)` over the first `k` end points.
pub open spec fn end_product(pts: Seq<nat>, k: nat, x: nat) -> nat
    decreases k,
{
    if k == 0 || k > pts.len() {
        1
    } else {
        fmul(end_product(pts, (k - 1) as nat, x), crate::field::fsub(x % crate::field::modulus(), pts[k - 1]))
    }
}

/// The test's virtual oracle on term values `t` (h at gamma x, h at x) at `x`.
pub open spec fn geo_value(r: nat, pts: Seq<nat>, t: Seq<nat>, x: nat) -> nat {
    fmul(crate::field::fsub(t[0], fmul(r, t[1])), end_product(pts, pts.len(), x))
}

/// What an accepted GeoSeqTest proof for the commitment `h` shows: the runs
/// fill K; at the challenge `c` the opened values satisfy
/// `(h(gamma c) - r h(c)) prod_e (c - e) = q(c) (c^|K| - 1)` and their openings
/// verify; and each run's first value is the declared one and opens correctly.
pub open spec fn geo_accepted(r: nat, a: Seq<Fe>, c: Seq<usize>, d: Domain, h: Seq<u8>, h_db: Option<usize>, p: Proof, vk: Seq<u8>) -> bool {
    let z = p.zero_over_k_proof;
    let ch = crate::zero_over_k::challenge_outside(crate::zero_over_k::protocol_name(), seq![h, z.q_commit.bytes@],
        d.spec_size(), crate::zero_over_k::CHALLENGE_TRIES as nat);
    let starts = run_starts(a, c);
    &&& a.len() == c.len()
    &&& total(c) == d.spec_size()
    &&& geo_zok_part(r, c, d, h, h_db, p.zero_over_k_proof, vk)
    &&& p.boundary_evals@.len() == starts.len()
    &&& p.boundary_proofs@.len() == starts.len()
    &&& forall|k: int| 0 <= k < starts.len() ==> {
        &&& (#[trigger] p.boundary_evals@[k])@ == starts[k].1
        &&& kzg_accepts(vk, h, h_db, d.elem(starts[k].0), p.boundary_evals@[k]@, p.boundary_proofs@[k].bytes@)
    }
}

/// The recurrence part of an accepted GeoSeqTest proof: at the challenge `c`
/// the opened values satisfy `(h(gamma c) - r h(c)) prod_e (c - e) = q(c) (c^|K| - 1)`
/// and the three openings verify.
pub open spec fn geo_zok_part(r: nat, c: Seq<usize>, d: Domain, h: Seq<u8>, h_db: Option<usize>, z: crate::zero_over_k::Proof, vk: Seq<u8>) -> bool {
    let ch = crate::zero_over_k::challenge_outside(crate::zero_over_k::protocol_name(), seq![h, z.q_commit.bytes@],
        d.spec_size(), crate::zero_over_k::CHALLENGE_TRIES as nat);
    &&& z.term_evals@.len() == 2
    &&& z.term_proofs@.len() == 2
    &&& geo_value(r, end_points_of(c, d), seq![z.term_evals@[0]@, z.term_evals@[1]@], ch)
        == fmul(z.q_eval@, crate::field::fsub(fpow(ch, d.spec_size()), 1))
    &&& kzg_accepts(vk, h, h_db, fmul(d.elem(1), ch), z.term_evals@[0]@, z.term_proofs@[0].bytes@)
    &&& kzg_accepts(vk, h, h_db, fmul(1, ch), z.term_evals@[1]@, z.term_proofs@[1].bytes@)
    &&& kzg_accepts(vk, z.q_commit.bytes@, None, ch, z.q_eval@, z.q_proof.bytes@)
}

/// ZeroOverK's acceptance of the test's oracle is `geo_zok_part`.
proof fn lemma_geo_zok(vo: &NewVO, z: crate::zero_over_k::Proof, cs: Seq<LabeledCommitment>, r: nat, c: Seq<usize>, ends: Seq<usize>, d: Domain, vk: Seq<u8>)
    requires
        vo.wf(),
        vo.spec_mapping_vector() == seq![0usize, 0usize],
        values(vo.spec_shifting_coefficients()) == seq![d.elem(1), 1nat],
        forall|t: Seq<nat>, x: nat| #[trigger] vo.spec_combine(t, x) == geo_value(r, end_points(ends, d), t, x),
        ends.len() == run_ends(c).len(),
        forall|k: int| 0 <= k < ends.len() ==> (#[trigger] ends[k]) as nat == run_ends(c)[k],
        cs.len() == 1,
    ensures
        (crate::zero_over_k::proof_shape_ok(&z, cs, vo) && crate::zero_over_k::quotient_relation_holds(&z, cs, vo, d)
            && crate::zero_over_k::openings_accepted(&z, cs, vo, d, vk))
        <==> geo_zok_part(r, c, d, cs[0].commitment.bytes@, cs[0].degree_bound, z, vk),
{
    assert(end_points(ends, d) =~= end_points_of(c, d));
    assert(seq![0usize, 0usize].drop_last() =~= seq![0usize]);
    assert(crate::vo::seq_max(seq![0usize]) == 0);
    assert(crate::vo::seq_max(seq![0usize, 0usize]) == 0);
    assert(crate::zero_over_k::commitment_msgs(cs, z.q_commit.bytes@) =~= seq![cs[0].commitment.bytes@, z.q_commit.bytes@]);
    if z.term_evals@.len() == 2 {
        assert(values(z.term_evals@) =~= seq![z.term_evals@[0]@, z.term_evals@[1]@]);
    }
    if crate::zero_over_k::openings_accepted(&z, cs, vo, d, vk) && crate::zero_over_k::proof_shape_ok(&z, cs, vo) {
        assert(crate::zero_over_k::term_opening_accepted(&z, cs, vo, d, vk, 0));
        assert(crate::zero_over_k::term_opening_accepted(&z, cs, vo, d, vk, 1));
    }
    if geo_zok_part(r, c, d, cs[0].commitment.bytes@, cs[0].degree_bound, z, vk) {
        assert forall|i: int| 0 <= i < vo.spec_mapping().len() implies
            #[trigger] crate::zero_over_k::term_opening_accepted(&z, cs, vo, d, vk, i) by {
            if i == 0 {} else {}
        }
    }
}

proof fn lemma_run_starts_values(a1: Seq<Fe>, a2: Seq<Fe>, c: Seq<usize>)
    requires
        values(a1) == values(a2),
    ensures
        run_starts(a1, c) == run_starts(a2, c),
    decreases c.len(),
{
    assert(values(a1).len() == a1.len() && values(a2).len() == a2.len());
    if c.len() > 0 && a1.len() == c.len() {
        assert forall|i: int| 0 <= i < a1.len() - 1 implies #[trigger] values(a1.drop_last())[i] == values(a2.drop_last())[i] by {
            assert(values(a1)[i] == values(a2)[i]);
            assert(values(a1.drop_last())[i] == a1.drop_last()[i]@);
            assert(a1.drop_last()[i] == a1[i]);
            assert(values(a2.drop_last())[i] == a2.drop_last()[i]@);
            assert(a2.drop_last()[i] == a2[i]);
            assert(values(a1)[i] == a1[i]@ && values(a2)[i] == a2[i]@);
        }
        assert(values(a1.drop_last()) =~= values(a2.drop_last()));
        assert(a1.last()@ == values(a1)[a1.len() - 1]);
        assert(a2.last()@ == values(a2)[a2.len() - 1]);
        lemma_run_starts_values(a1.drop_last(), a2.drop_last(), c.drop_last());
    }
}

/// Acceptance depends on the initial values only through their values.
pub proof fn lemma_geo_accepted_values(r: nat, a1: Seq<Fe>, a2: Seq<Fe>, c: Seq<usize>, d: Domain, h: Seq<u8>, h_db: Option<usize>, p: Proof, vk: Seq<u8>)
    requires
        values(a1) == values(a2),
    ensures
        geo_accepted(r, a1, c, d, h, h_db, p, vk) == geo_accepted(r, a2, c, d, h, h_db, p, vk),
{
    lemma_run_starts_values(a1, a2, c);
    assert(a1.len() == values(a1).len() && a2.len() == values(a2).len());
}

/// The run-end points of the layout `c` on K.
pub open spec fn end_points_of(c: Seq<usize>, d: Domain) -> Seq<nat> {
    Seq::new(run_ends(c).len(), |i: int| d.elem(run_ends(c)[i]))
}

/// The commitments and proofs a GeoSeqTest verifier reads decode.
pub open spec fn geo_decodes(h: Seq<u8>, p: Proof) -> bool {
    &&& crate::kzg::commitment_decodes(h)
    &&& crate::kzg::commitment_decodes(p.zero_over_k_proof.q_commit.bytes@)
    &&& crate::kzg::proof_decodes(p.zero_over_k_proof.q_proof.bytes@)
    &&& forall|i: int| 0 <= i < p.zero_over_k_proof.term_proofs@.len()
        ==> crate::kzg::proof_decodes((#[trigger] p.zero_over_k_proof.term_proofs@[i]).bytes@)
    &&& forall|i: int| 0 <= i < p.boundary_proofs@.len() ==> crate::kzg::proof_decodes((#[trigger] p.boundary_proofs@[i]).bytes@)
}

/// A GeoSeqTest proof.
#[derive(Clone, Debug)]
pub struct Proof {
    /// That `(h(gamma X) - r h(X))` times the run-end selector vanishes on K.
    pub zero_over_k_proof: crate::zero_over_k::Proof,
    /// `h` at the start of each non-empty run.
    pub boundary_evals: Vec<Fe>,
    pub boundary_proofs: Vec<OpeningProof>,
}

pub struct GeoSeqTest {}

/// The run layout: the start index and initial value of each non-empty run,
/// and the index of its last element. Fails with `InputLengthError` when the
/// lists differ in length or the runs do not fill the domain, and with
/// `T2Large` when they overflow it.
fn run_layout(a_s: &Vec<Fe>, c_s: &Vec<usize>, n: usize) -> (r: Result<(Vec<(usize, Fe)>, Vec<usize>), Error>)
    ensures
        (r matches Err(e) && e is InputLengthError) <==> (a_s@.len() != c_s@.len() || total(c_s@) < n),
        (r matches Err(e) && e is T2Large) <==> (a_s@.len() == c_s@.len() && total(c_s@) > n),
        r matches Err(e) ==> (e is InputLengthError || e is T2Large),
        r is Ok ==> a_s@.len() == c_s@.len() && total(c_s@) == n,
        r matches Ok((starts, ends)) ==> {
            &&& a_s@.len() == c_s@.len()
            &&& total(c_s@) == n
            &&& starts@.len() == run_starts(a_s@, c_s@).len()
            &&& forall|k: int| 0 <= k < starts@.len() ==> (#[trigger] starts@[k]).0 as nat == run_starts(a_s@, c_s@)[k].0
                && starts@[k].1@ == run_starts(a_s@, c_s@)[k].1
            &&& ends@.len() == run_ends(c_s@).len()
            &&& forall|k: int| 0 <= k < ends@.len() ==> (#[trigger] ends@[k]) as nat == run_ends(c_s@)[k]
        },
{
    if a_s.len() != c_s.len() {
        return Err(Error::InputLengthError("initial values and run lengths differ in number".to_string()));
    }
    let mut starts: Vec<(usize, Fe)> = Vec::new();
    let mut ends: Vec<usize> = Vec::new();
    let mut pos: usize = 0;
    let mut k: usize = 0;
    while k < c_s.len()
        invariant
            k <= c_s@.len(),
            a_s@.len() == c_s@.len(),
            pos as nat == total(c_s@.subrange(0, k as int)),
            pos <= n,
            starts@.len() == run_starts(a_s@.subrange(0, k as int), c_s@.subrange(0, k as int)).len(),
            forall|j: int| 0 <= j < starts@.len() ==> (#[trigger] starts@[j]).0 as nat == run_starts(a_s@.subrange(0, k as int), c_s@.subrange(0, k as int))[j].0
                && starts@[j].1@ == run_starts(a_s@.subrange(0, k as int), c_s@.subrange(0, k as int))[j].1,
            ends@.len() == run_ends(c_s@.subrange(0, k as int)).len(),
            forall|j: int| 0 <= j < ends@.len() ==> (#[trigger] ends@[j]) as nat == run_ends(c_s@.subrange(0, k as int))[j],
        decreases c_s@.len() - k,
    {
        let ghost a2 = a_s@.subrange(0, k + 1);
        let ghost c2 = c_s@.subrange(0, k + 1);
        assert(a2.drop_last() =~= a_s@.subrange(0, k as int));
        assert(c2.drop_last() =~= c_s@.subrange(0, k as int));
        if c_s[k] > usize::MAX - pos || pos + c_s[k] > n {
            proof { lemma_total_prefix_grows(c_s@, k as int + 1); }
            return Err(Error::T2Large);
        }
        if c_s[k] > 0 {
            starts.push((pos, a_s[k]));
            ends.push(pos + c_s[k] - 1);
        }
        pos = pos + c_s[k];
        k = k + 1;
    }
    assert(c_s@.subrange(0, c_s@.len() as int) =~= c_s@);
    assert(a_s@.subrange(0, a_s@.len() as int) =~= a_s@);
    if pos < n {
        return Err(Error::InputLengthError("the runs do not fill the domain".to_string()));
    }
    Ok((starts, ends))
}

/// A total over a prefix is at most the total over the whole.
proof fn lemma_total_prefix_grows(c: Seq<usize>, k: int)
    requires
        0 <= k <= c.len(),
    ensures
        total(c.subrange(0, k)) <= total(c),
    decreases c.len() - k,
{
    if k < c.len() {
        lemma_total_prefix_grows(c, k + 1);
        assert(c.subrange(0, k + 1).drop_last() =~= c.subrange(0, k));
    } else {
        assert(c.subrange(0, k) =~= c);
    }
}

/// The virtual oracle of the test: `(h(gamma X) - r h(X)) * prod_e (X - gamma^e)`
/// over the run ends `e`; it vanishes on K when consecutive values inside a
/// run differ by the ratio.
fn geo_seq_vo(r: Fe, ends: &Vec<usize>, domain: &Domain) -> (vo: Result<NewVO, Error>)
    requires
        domain.wf(),
    ensures
        vo matches Ok(v) && v.wf(),
        vo matches Ok(v) ==> {
            &&& forall|m: nat| #[trigger] v.spec_len_bound(m) == m + 1 + 2 * ends@.len()
            &&& forall|t: Seq<nat>, x: nat| #[trigger] v.spec_combine(t, x) == geo_value(r@, end_points(ends@, *domain), t, x)
            &&& v.spec_mapping_vector() == seq![0usize, 0usize]
            &&& values(v.spec_shifting_coefficients()) == seq![domain.elem(1), 1nat]
            &&& forall|t: Seq<nat>, x: nat| #![trigger v.spec_combine(t, x)]
                (crate::field::fsub(t[0], fmul(r@, t[1])) == 0
                    || exists|i: int| 0 <= i < ends@.len() && x % crate::field::modulus() == #[trigger] domain.elem(ends@[i] as nat))
                ==> v.spec_combine(t, x) == 0
        },
{
    let gamma = domain.element(1);
    let mut combine = Combine::Sub(Box::new(Combine::Term(0)), Box::new(Combine::Mul(Box::new(Combine::Const(r)), Box::new(Combine::Term(1)))));
    proof {
        reveal_with_fuel(Combine::terms_below, 3);
        reveal_with_fuel(Combine::value, 3);
        reveal_with_fuel(Combine::len_bound, 3);
        assert forall|t: Seq<nat>, x: nat| #[trigger] combine.value(t, x) == fmul(crate::field::fsub(t[0], fmul(r@, t[1])),
            end_product(end_points(ends@, *domain), 0, x)) by {
            crate::field::lemma_reduced(t[0], fmul(r@, t[1]));
            crate::field::lemma_fmul_one(crate::field::fsub(t[0], fmul(r@, t[1])));
        }
    }
    let mut k: usize = 0;
    while k < ends.len()
        invariant
            k <= ends@.len(),
            domain.wf(),
            combine.terms_below(2),
            forall|m: nat| #[trigger] combine.len_bound(m) == m + 1 + 2 * k,
            forall|t: Seq<nat>, x: nat| #[trigger] combine.value(t, x) == fmul(crate::field::fsub(t[0], fmul(r@, t[1])),
                end_product(end_points(ends@, *domain), k as nat, x)),
            forall|t: Seq<nat>, x: nat| #![trigger combine.value(t, x)]
                (crate::field::fsub(t[0], fmul(r@, t[1])) == 0
                    || exists|i: int| 0 <= i < k && x % crate::field::modulus() == #[trigger] domain.elem(ends@[i] as nat))
                ==> combine.value(t, x) == 0,
        decreases ends@.len() - k,
    {
        let end_point = domain.element(ends[k] as u64);
        let selector = Combine::Sub(Box::new(Combine::Point), Box::new(Combine::Const(end_point)));
        let ghost prev = combine;
        combine = Combine::Mul(Box::new(combine), Box::new(selector));
        proof {
            reveal_with_fuel(Combine::terms_below, 3);
            reveal_with_fuel(Combine::value, 3);
            reveal_with_fuel(Combine::len_bound, 3);
            assert forall|m: nat| #[trigger] combine.len_bound(m) == m + 1 + 2 * (k + 1) by {
                assert(prev.len_bound(m) == m + 1 + 2 * k);
            }
            assert forall|t: Seq<nat>, x: nat| #[trigger] combine.value(t, x) == fmul(crate::field::fsub(t[0], fmul(r@, t[1])),
                end_product(end_points(ends@, *domain), (k + 1) as nat, x)) by {
                let b = crate::field::fsub(t[0], fmul(r@, t[1]));
                let pk = end_product(end_points(ends@, *domain), k as nat, x);
                let sv = selector.value(t, x);
                assert(prev.value(t, x) == fmul(b, pk));
                assert(sv == crate::field::fsub(x % crate::field::modulus(), end_point@));
                assert(end_points(ends@, *domain)[k as int] == end_point@);
                crate::field::lemma_fmul3(b, pk, sv);
            }
            assert forall|t: Seq<nat>, x: nat| #![trigger combine.value(t, x)]
                (crate::field::fsub(t[0], fmul(r@, t[1])) == 0
                    || exists|i: int| 0 <= i < k + 1 && x % crate::field::modulus() == #[trigger] domain.elem(ends@[i] as nat))
                implies combine.value(t, x) == 0 by {
                let pv = prev.value(t, x);
                let sv = selector.value(t, x);
                assert(combine.value(t, x) == fmul(pv, sv));
                if crate::field::fsub(t[0], fmul(r@, t[1])) == 0
                    || exists|i: int| 0 <= i < k && x % crate::field::modulus() == #[trigger] domain.elem(ends@[i] as nat) {
                    assert(pv == 0);
                    assert(pv * sv == 0);
                } else {
                    assert(x % crate::field::modulus() == domain.elem(ends@[k as int] as nat));
                    assert(sv == crate::field::fsub(x % crate::field::modulus(), end_point@));
                    crate::field::lemma_fpow_reduced(domain.spec_gen(), ends@[k as int] as nat);
                    vstd::arithmetic::div_mod::lemma_small_mod(end_point@, crate::field::modulus());
                    assert(sv == 0) by {
                        vstd::arithmetic::div_mod::lemma_mod_self_0(crate::field::modulus() as int);
                    }
                    assert(pv * sv == 0);
                }
            }
        }
        k = k + 1;
    }
    let mapping = vec![0usize, 0usize];
    proof {
        assert forall|t: Seq<nat>, x: nat| #[trigger] combine.value(t, x) == geo_value(r@, end_points(ends@, *domain), t, x) by {
            assert(end_points(ends@, *domain).len() == ends@.len());
        }
        assert(mapping@.drop_last() =~= seq![0usize]);
        assert(crate::vo::seq_max(seq![0usize]) == 0);
        assert(crate::vo::seq_max(mapping@) == 0);
    }
    NewVO::new(&mapping, &vec![gamma, Fe::one()], combine)
}

impl GeoSeqTest {
    /// Proves that `h`'s values on the domain are the runs with ratio `r`,
    /// initial values `a_s` and lengths `c_s`. Fails with `Check1Failed`
    /// when they are not.
    #[verifier::spinoff_prover]
    #[verifier::rlimit(100)]
    pub fn prove(
        ck: &CommitterKey,
        r: Fe,
        h: &LabeledPolynomial,
        h_commit: &LabeledCommitment,
        h_rand: &Randomness,
        a_s: &Vec<Fe>,
        c_s: &Vec<usize>,
        domain: &Domain,
        seed: u64,
    ) -> (res: Result<Proof, Error>)
        requires
            domain.wf(),
        ensures
            (res matches Err(e) && e is InputLengthError) <==> (a_s@.len() != c_s@.len() || total(c_s@) < domain.spec_size()),
            (res matches Err(e) && e is T2Large) <==> (a_s@.len() == c_s@.len() && total(c_s@) > domain.spec_size()),
            a_s@.len() == c_s@.len() && total(c_s@) == domain.spec_size()
                && !evals_match(h.coeffs@, *domain, geo_seq(r@, values(a_s@), c_s@)) ==> (res matches Err(e) && e is Check1Failed),
            res matches Err(e) ==> (e is InputLengthError || e is T2Large || e is Check1Failed || e is PCError),
            a_s@.len() == c_s@.len() && total(c_s@) == domain.spec_size()
                && evals_match(h.coeffs@, *domain, geo_seq(r@, values(a_s@), c_s@)) ==> (res is Ok || (res matches Err(e) && e is PCError)),
            a_s@.len() == c_s@.len() && total(c_s@) == domain.spec_size()
                && evals_match(h.coeffs@, *domain, geo_seq(r@, values(a_s@), c_s@))
                && h_fits(ck, h, h_rand, domain.spec_size(), c_s@.len()) ==> res is Ok,
            res matches Ok(p) ==> {
                &&& evals_match(h.coeffs@, *domain, geo_seq(r@, values(a_s@), c_s@))
                &&& p.boundary_evals@.len() == run_starts(a_s@, c_s@).len()
            },
    {
        let n = domain.size();
        let (starts, ends) = match run_layout(a_s, c_s, n) {
            Ok(layout) => layout,
            Err(e) => {
                return Err(e);
            },
        };
        // The witness must be the declared sequence.
        let seq = generate_sequence(r, a_s, c_s);
        let ghost g = geo_seq(r@, values(a_s@), c_s@);
        proof { lemma_geo_seq_len(r@, values(a_s@), c_s@); }
        let evals = domain.evaluations_of(&h.coeffs);
        let mut j: usize = 0;
        while j < n
            invariant
                j <= n,
                n == domain.spec_size(),
                a_s@.len() == c_s@.len(),
                total(c_s@) == n,
                g == geo_seq(r@, values(a_s@), c_s@),
                g.len() == n,
                values(seq@) == g,
                evals@.len() == n,
                forall|i: int| 0 <= i < n ==> (#[trigger] evals@[i])@ == eval_coeffs(h.coeffs@, domain.elem(i as nat)),
                forall|i: int| 0 <= i < j ==> eval_coeffs(h.coeffs@, domain.elem(i as nat)) == #[trigger] g[i],
            decreases n - j,
        {
            if !evals[j].equals(&seq[j]) {
                assert(g[j as int] == seq@[j as int]@);
                assert(eval_coeffs(h.coeffs@, domain.elem(j as nat)) != g[j as int]);
                return Err(Error::Check1Failed);
            }
            assert(g[j as int] == seq@[j as int]@);
            j = j + 1;
        }
        assert forall|i: nat| i < n implies #[trigger] eval_coeffs(h.coeffs@, domain.elem(i)) == g[i as int] by {
            assert(eval_coeffs(h.coeffs@, domain.elem((i as int) as nat)) == g[i as int]);
        }
        assert(evals_match(h.coeffs@, *domain, g));
        let vo = match geo_seq_vo(r, &ends, domain) {
            Ok(vo) => vo,
            Err(e) => {
                return Err(Error::PCError("the run test oracle could not be built".to_string()));
            },
        };
        let oracles = vec![h.copy()];
        let h_rands = vec![h_rand.copy()];
        proof {
            if h_fits(ck, h, h_rand, domain.spec_size(), c_s@.len()) {
                lemma_run_ends_len(c_s@);
                assert(crate::zero_over_k::oracles_fit(ck, oracles@, h_rands@, domain.spec_size()));
                assert(vo.spec_len_bound(domain.spec_size()) <= ck.spec_supported_degree() + 1);
            }
            assert(seq![0usize, 0usize].drop_last() =~= seq![0usize]);
            assert(crate::vo::seq_max(seq![0usize]) == 0);
            assert(crate::vo::seq_max(seq![0usize, 0usize]) == 0);
            lemma_geo_vanishes(&vo, crate::zero_over_k::coeffs_of(oracles@), *domain, r, a_s@, c_s@, ends@);
        }
        let zero_over_k_proof = ZeroOverK::prove(&oracles, &vec![h_commit.copy()], &h_rands, &vo, domain, ck, seed)?;
        let mut boundary_evals: Vec<Fe> = Vec::new();
        let mut boundary_proofs: Vec<OpeningProof> = Vec::new();
        let mut k: usize = 0;
        while k < starts.len()
            invariant
                k <= starts@.len(),
                a_s@.len() == c_s@.len(),
                total(c_s@) == n,
                n == domain.spec_size(),
                evals_match(h.coeffs@, *domain, geo_seq(r@, values(a_s@), c_s@)),
                starts@.len() == run_starts(a_s@, c_s@).len(),
                boundary_evals@.len() == k,
                h_fits(ck, h, h_rand, domain.spec_size(), c_s@.len()) ==> h.coeffs@.len() <= ck.spec_supported_degree() + 1,
            decreases starts@.len() - k,
        {
            let point = domain.element(starts[k].0 as u64);
            boundary_evals.push(evaluate(&h.coeffs, point));
            boundary_proofs.push(KZG10::open(ck, h, h_rand, point)?);
            k = k + 1;
        }
        Ok(Proof { zero_over_k_proof, boundary_evals, boundary_proofs })
    }

    /// Checks a GeoSeqTest proof for the commitment to `h`: the run test
    /// through ZeroOverK, then each run's first value, which must be the
    /// declared one (else `Check2Failed`) and must open correctly (else
    /// `BatchCheckError`).
    #[verifier::spinoff_prover]
    #[verifier::rlimit(100)]
    pub fn verify(
        r: Fe,
        a_s: &Vec<Fe>,
        c_s: &Vec<usize>,
        domain: &Domain,
        h_commit: &LabeledCommitment,
        proof: &Proof,
        vk: &VerifierKey,
    ) -> (res: Result<(), Error>)
        requires
            domain.wf(),
        ensures
            (res matches Err(e) && e is T2Large) <==> (a_s@.len() == c_s@.len() && total(c_s@) > domain.spec_size()),
            res is Ok ==> geo_accepted(r@, a_s@, c_s@, *domain, h_commit.commitment.bytes@, h_commit.degree_bound, *proof, vk.spec_bytes()),
            geo_accepted(r@, a_s@, c_s@, *domain, h_commit.commitment.bytes@, h_commit.degree_bound, *proof, vk.spec_bytes())
                && h_commit.degree_bound is None && geo_decodes(h_commit.commitment.bytes@, *proof) ==> res is Ok,
    {
        let n = domain.size();
        let (starts, ends) = match run_layout(a_s, c_s, n) {
            Ok(layout) => layout,
            Err(e) => {
                return Err(e);
            },
        };
        let vo = match geo_seq_vo(r, &ends, domain) {
            Ok(vo) => vo,
            Err(e) => {
                return Err(Error::PCError("the run test oracle could not be built".to_string()));
            },
        };
        let cs = vec![h_commit.copy()];
        proof {
            lemma_geo_zok(&vo, proof.zero_over_k_proof, cs@, r@, c_s@, ends@, *domain, vk.spec_bytes());
            if geo_decodes(h_commit.commitment.bytes@, *proof) && h_commit.degree_bound is None {
                assert(crate::zero_over_k::openings_decode(&proof.zero_over_k_proof, cs@));
            }
        }
        ZeroOverK::verify(&proof.zero_over_k_proof, &cs, &vo, domain, vk)?;
        if proof.boundary_evals.len() != starts.len() || proof.boundary_proofs.len() != starts.len() {
            return Err(Error::InputLengthError("one opening per run is needed".to_string()));
        }
        let mut k: usize = 0;
        while k < starts.len()
            invariant
                k <= starts@.len(),
                a_s@.len() == c_s@.len(),
                total(c_s@) == n,
                n == domain.spec_size(),
                starts@.len() == run_starts(a_s@, c_s@).len(),
                proof.boundary_evals@.len() == starts@.len(),
                proof.boundary_proofs@.len() == starts@.len(),
                geo_zok_part(r@, c_s@, *domain, h_commit.commitment.bytes@, h_commit.degree_bound, proof.zero_over_k_proof, vk.spec_bytes()),
                forall|i: int| 0 <= i < starts@.len() ==> (#[trigger] starts@[i]).0 as nat == run_starts(a_s@, c_s@)[i].0
                    && starts@[i].1@ == run_starts(a_s@, c_s@)[i].1,
                forall|i: int| 0 <= i < k ==> {
                    &&& (#[trigger] proof.boundary_evals@[i])@ == run_starts(a_s@, c_s@)[i].1
                    &&& kzg_accepts(vk.spec_bytes(), h_commit.commitment.bytes@, h_commit.degree_bound,
                        domain.elem(run_starts(a_s@, c_s@)[i].0), proof.boundary_evals@[i]@, proof.boundary_proofs@[i].bytes@)
                },
            decreases starts@.len() - k,
        {
            if !proof.boundary_evals[k].equals(&starts[k].1) {
                return Err(Error::Check2Failed);
            }
            let point = domain.element(starts[k].0 as u64);
            proof {
                if geo_decodes(h_commit.commitment.bytes@, *proof) {
                    assert(crate::kzg::proof_decodes(proof.boundary_proofs@[k as int].bytes@));
                }
            }
            let ok = KZG10::check(vk, h_commit, point, proof.boundary_evals[k], &proof.boundary_proofs[k])?;
            if !ok {
                return Err(Error::BatchCheckError);
            }
            k = k + 1;
        }
        Ok(())
    }
}

} // verus!
