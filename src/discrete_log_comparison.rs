//! Discrete-log comparison: for two oracles f, g whose values on K lie in a
//! subgroup H = <omega>, a proof that `dlog(f(x)) < dlog(g(x))` at every x of K.
use vstd::prelude::*;
use vstd::string::StrSliceExecFns;
use crate::commitment::{fits_key, msm, seed_at, Commitment, CommitterKey, LabeledCommitment, LabeledPolynomial, VerifierKey, KZG10};
use crate::domain::Domain;
use crate::error::Error;
use crate::field::{fmul, values, Fe};
use crate::geo_seq::{generate_sequence, GeoSeqTest};
use crate::non_zero_over_k::{nonzero_on, nzk_accepts, NonZeroOverK};
use crate::poly::{constant, eval_coeffs, poly_sub};
use crate::transcript::Transcript;
use crate::vo::{NewVO, ProductCheckVO, VirtualOracle};
use crate::kzg::{commitment_decodes, commitment_add_scaled, empty_commitment, empty_randomness, kzg_commit_of};
use crate::zero_over_k::{
    oracles_fit, zok_decodes,
    lemma_product_check_accepts, lemma_square_check_accepts, product_check_accepts, square_check_accepts, ZeroOverK,
};

verus! {

/// At the `j`-th element `x` of K, `f(x) = omega^a` and `g(x) = omega^b` with `a < b < |H|`.
pub open spec fn dlog_less_at(f: Seq<Fe>, g: Seq<Fe>, k: Domain, h: Domain, j: nat) -> bool {
    exists|a: nat, b: nat| #![trigger h.elem(a), h.elem(b)] a < b < h.spec_size()
        && eval_coeffs(f, k.elem(j)) == h.elem(a) && eval_coeffs(g, k.elem(j)) == h.elem(b)
}

/// `dlog(f(x)) < dlog(g(x))` within H at every element x of K.
pub open spec fn dlog_less_on(f: Seq<Fe>, g: Seq<Fe>, k: Domain, h: Domain) -> bool {
    forall|j: nat| j < k.spec_size() ==> #[trigger] dlog_less_at(f, g, k, h, j)
}

/// The discrete logarithm of `v` to the base of H's generator, if `v` is in H.
pub fn dlog(h: &Domain, v: Fe) -> (r: Option<u64>)
    requires
        h.wf(),
    ensures
        r matches Some(i) ==> i < h.spec_size() && h.elem(i as nat) == v@,
        r is None ==> forall|i: nat| i < h.spec_size() ==> #[trigger] h.elem(i) != v@,
{
    let mut i: u64 = 0;
    while (i as usize) < h.size()
        invariant
            i <= h.spec_size(),
            h.spec_size() <= crate::domain::max_domain_size(),
            forall|t: nat| t < i ==> #[trigger] h.elem(t) != v@,
        decreases h.spec_size() - i,
    {
        if h.element(i).equals(&v) {
            return Some(i);
        }
        i = i + 1;
    }
    None
}

/// The prover's auxiliary oracles, as values on K.
struct Witness {
    f_prime: Vec<Fe>,
    g_prime: Vec<Fe>,
    s: Vec<Fe>,
    s_prime: Vec<Fe>,
}

/// Builds the values on K of f' = delta^dlog(f), g' = delta^dlog(g) (square
/// roots of f and g on the branch that the logarithms fix), s' = f' / g' and
/// s = s'^2, where the comparison holds; where it fails, s' and s are zero.
fn witness_values(k: &Domain, h: &Domain, delta: Fe, delta_inv: Fe, f_evals: &Vec<Fe>, g_evals: &Vec<Fe>) -> (w: Witness)
    requires
        k.wf(),
        h.wf(),
        fmul(delta@, delta@) == h.elem(1),
        fmul(delta@, delta_inv@) == 1,
        f_evals@.len() == k.spec_size(),
        g_evals@.len() == k.spec_size(),
    ensures
        w.f_prime@.len() == k.spec_size(),
        w.g_prime@.len() == k.spec_size(),
        w.s@.len() == k.spec_size(),
        w.s_prime@.len() == k.spec_size(),
        forall|j: int| 0 <= j < k.spec_size() && (#[trigger] w.s_prime@[j])@ != 0 ==> compare_ok(*h, f_evals@[j]@, g_evals@[j]@),
        forall|j: int| 0 <= j < k.spec_size() ==> (#[trigger] w.s@[j])@ == fmul(w.s_prime@[j]@, w.s_prime@[j]@),
        forall|j: int| 0 <= j < k.spec_size() && compare_ok(*h, f_evals@[j]@, g_evals@[j]@) ==>
            valid_witness_at(f_evals@[j]@, g_evals@[j]@, w.f_prime@[j]@, w.g_prime@[j]@, #[trigger] w.s_prime@[j]@),
{
    let mut w = Witness { f_prime: Vec::new(), g_prime: Vec::new(), s: Vec::new(), s_prime: Vec::new() };
    let mut j: usize = 0;
    while j < k.size()
        invariant
            j <= k.spec_size(),
            h.wf(),
            f_evals@.len() == k.spec_size(),
            g_evals@.len() == k.spec_size(),
            w.f_prime@.len() == j,
            w.g_prime@.len() == j,
            w.s@.len() == j,
            w.s_prime@.len() == j,
            forall|i: int| 0 <= i < j && (#[trigger] w.s_prime@[i])@ != 0 ==> compare_ok(*h, f_evals@[i]@, g_evals@[i]@),
            forall|i: int| 0 <= i < j ==> (#[trigger] w.s@[i])@ == fmul(w.s_prime@[i]@, w.s_prime@[i]@),
            fmul(delta@, delta@) == h.elem(1),
            fmul(delta@, delta_inv@) == 1,
            forall|i: int| 0 <= i < j && compare_ok(*h, f_evals@[i]@, g_evals@[i]@) ==>
                valid_witness_at(f_evals@[i]@, g_evals@[i]@, w.f_prime@[i]@, w.g_prime@[i]@, #[trigger] w.s_prime@[i]@),
        decreases k.spec_size() - j,
    {
        let (fp, gp, sp) = witness_at(h, delta, delta_inv, f_evals[j], g_evals[j]);
        w.f_prime.push(fp);
        w.g_prime.push(gp);
        w.s.push(sp.mul(sp));
        w.s_prime.push(sp);
        j = j + 1;
    }
    w
}

/// `fv = omega^a` and `gv = omega^b` with `a < b < |H|`.
pub open spec fn compare_ok(h: Domain, fv: nat, gv: nat) -> bool {
    exists|a: nat, b: nat| #![trigger h.elem(a), h.elem(b)] a < b < h.spec_size() && fv == h.elem(a) && gv == h.elem(b)
}

/// The witness algebra at a point where `f = omega^a`, `g = omega^b`, `a < b`.
proof fn lemma_valid_point(h: Domain, delta: nat, dinv: nat, a: nat, b: nat, fp: nat, gp: nat, gpinv: nat, sp: nat)
    requires
        h.wf(),
        delta < crate::field::modulus(),
        fmul(delta, delta) == h.elem(1),
        fmul(delta, dinv) == 1,
        a < b < h.spec_size(),
        fp == crate::field::fpow(delta, a),
        gp == crate::field::fpow(delta, b),
        fmul(gpinv, gp) == 1,
        sp == fmul(fp, gpinv),
    ensures
        fmul(fp, fp) == h.elem(a),
        fmul(gp, gp) == h.elem(b),
        fmul(sp, gp) == fp,
        fp != 0,
        gp != 0,
        sp != 0,
        fmul(sp, sp) != 1,
{
    let g = h.spec_gen();
    h.lemma_gen_reduced();
    assert(crate::field::fpow(g, 0) == 1);
    crate::field::lemma_fmul_one(g);
    assert(h.elem(1) == g);
    crate::field::lemma_fpow_mul_base(delta, delta, a);
    crate::field::lemma_fpow_mul_base(delta, delta, b);
    crate::field::lemma_fpow_nonzero(delta, dinv, a);
    crate::field::lemma_fpow_nonzero(delta, dinv, b);
    crate::field::lemma_fpow_reduced(delta, a);
    crate::field::lemma_fpow_reduced(delta, b);
    crate::field::lemma_cancel(fp, gpinv, gp);
    if sp == 0 {
        assert(0 * gp == 0);
        assert(fmul(0, gp) == 0);
    }
    crate::field::lemma_fmul4(sp, sp, gp, gp);
    crate::field::lemma_fmul4(sp, gp, sp, gp);
    assert(sp * sp * gp * gp == sp * gp * sp * gp) by (nonlinear_arith);
    if fmul(sp, sp) == 1 {
        crate::field::lemma_reduced(gp, gp);
        crate::field::lemma_fmul_one(fmul(gp, gp));
        h.lemma_elem_injective(a, b);
    }
}

/// The witness values at one point: `(f', g', s')`. Where `f = omega^a` and
/// `g = omega^b` with `a < b`, they satisfy every relation the proof checks.
fn witness_at(h: &Domain, delta: Fe, delta_inv: Fe, fv: Fe, gv: Fe) -> (r: (Fe, Fe, Fe))
    requires
        h.wf(),
        fmul(delta@, delta@) == h.elem(1),
        fmul(delta@, delta_inv@) == 1,
    ensures
        r.2@ != 0 ==> compare_ok(*h, fv@, gv@),
        compare_ok(*h, fv@, gv@) ==> valid_witness_at(fv@, gv@, r.0@, r.1@, r.2@),
{
    let zero = Fe::zero();
    let df = dlog(h, fv);
    let dg = dlog(h, gv);
    let fp = match df {
        Some(a) => delta.pow(a),
        None => match fv.sqrt() {
            Some(root) => root,
            None => zero,
        },
    };
    let gp = match dg {
        Some(b) => delta.pow(b),
        None => match gv.sqrt() {
            Some(root) => root,
            None => zero,
        },
    };
    proof {
        if compare_ok(*h, fv@, gv@) {
            let (a, b) = choose|a: nat, b: nat| #![trigger h.elem(a), h.elem(b)] a < b < h.spec_size() && fv@ == h.elem(a) && gv@ == h.elem(b);
            if let Some(i) = df {
                if (i as nat) < a { h.lemma_elem_injective(i as nat, a); }
                if (i as nat) > a { h.lemma_elem_injective(a, i as nat); }
            }
            if let Some(i) = dg {
                if (i as nat) < b { h.lemma_elem_injective(i as nat, b); }
                if (i as nat) > b { h.lemma_elem_injective(b, i as nat); }
            }
            assert(df == Some(a as u64) && dg == Some(b as u64));
            vstd::arithmetic::div_mod::lemma_mod_bound(delta.raw() as int, crate::field::modulus() as int);
            crate::field::lemma_fpow_nonzero(delta@, delta_inv@, b);
        }
    }
    if let (Some(a), Some(b)) = (df, dg) {
        if a < b {
            if let Some(gp_inv) = gp.inverse() {
                assert(h.elem(a as nat) == fv@ && h.elem(b as nat) == gv@);
                let sp = fp.mul(gp_inv);
                proof {
                    vstd::arithmetic::div_mod::lemma_mod_bound(delta.raw() as int, crate::field::modulus() as int);
                    lemma_valid_point(*h, delta@, delta_inv@, a as nat, b as nat, fp@, gp@, gp_inv@, sp@);
                }
                return (fp, gp, sp);
            }
        }
    }
    (fp, gp, zero)
}

/// The relations the proof checks at one point, for values `f, g` and
/// witness values `f', g', s'`.
pub open spec fn valid_witness_at(fv: nat, gv: nat, fp: nat, gp: nat, sp: nat) -> bool {
    &&& fmul(fp, fp) == fv
    &&& fmul(gp, gp) == gv
    &&& fmul(sp, gp) == fp
    &&& fp != 0
    &&& gp != 0
    &&& sp != 0
    &&& fmul(sp, sp) != 1
}

/// The square check vanishes on K when the first oracle's values there are
/// the squares of the second's.
proof fn lemma_square_vanishes(vo: &NewVO, polys: Seq<Vec<Fe>>, d: Domain, v0: Seq<nat>, v1: Seq<nat>)
    requires
        vo.spec_mapping_vector() == seq![0usize, 1usize],
        crate::field::values(vo.spec_shifting_coefficients()) == seq![1nat, 1nat],
        forall|t: Seq<nat>, x: nat| #[trigger] vo.spec_combine(t, x) == crate::field::fsub(t[0], fmul(t[1], t[1])),
        polys.len() == 2,
        forall|j: int| 0 <= j < d.spec_size() ==> #[trigger] v0[j] == eval_coeffs(polys[0]@, d.elem(j as nat)),
        forall|j: int| 0 <= j < d.spec_size() ==> #[trigger] v1[j] == eval_coeffs(polys[1]@, d.elem(j as nat)),
        forall|j: int| 0 <= j < d.spec_size() ==> #[trigger] fmul(v1[j], v1[j]) == v0[j] && v0[j] < crate::field::modulus(),
    ensures
        crate::zero_over_k::vanishes_on(vo, polys, d),
{
    assert forall|j: nat| j < d.spec_size() implies #[trigger] crate::zero_over_k::vo_value(vo, polys, d.elem(j)) == 0 by {
        let x = d.elem(j);
        let ji = j as int;
        crate::poly::lemma_unit_shift(polys[0]@, x);
        crate::poly::lemma_unit_shift(polys[1]@, x);
        assert(v0[ji] == eval_coeffs(polys[0]@, x));
        assert(v1[ji] == eval_coeffs(polys[1]@, x));
        assert(fmul(v1[ji], v1[ji]) == v0[ji]);
        vstd::arithmetic::div_mod::lemma_small_mod(v0[ji], crate::field::modulus());
        vstd::arithmetic::div_mod::lemma_mod_self_0(crate::field::modulus() as int);
    }
}

/// The product check vanishes on K when the first oracle's values there are
/// the products of the other two's.
proof fn lemma_product_vanishes(polys: Seq<Vec<Fe>>, d: Domain, v0: Seq<nat>, v1: Seq<nat>, v2: Seq<nat>)
    requires
        polys.len() == 3,
        forall|j: int| 0 <= j < d.spec_size() ==> #[trigger] v0[j] == eval_coeffs(polys[0]@, d.elem(j as nat)),
        forall|j: int| 0 <= j < d.spec_size() ==> #[trigger] v1[j] == eval_coeffs(polys[1]@, d.elem(j as nat)),
        forall|j: int| 0 <= j < d.spec_size() ==> #[trigger] v2[j] == eval_coeffs(polys[2]@, d.elem(j as nat)),
        forall|j: int| 0 <= j < d.spec_size() ==> #[trigger] fmul(v1[j], v2[j]) == v0[j] && v0[j] < crate::field::modulus(),
    ensures
        crate::zero_over_k::vanishes_on(&(ProductCheckVO {}), polys, d),
{
    let vo = ProductCheckVO {};
    assert forall|j: nat| j < d.spec_size() implies #[trigger] crate::zero_over_k::vo_value(&vo, polys, d.elem(j)) == 0 by {
        let x = d.elem(j);
        let ji = j as int;
        crate::poly::lemma_unit_shift(polys[0]@, x);
        crate::poly::lemma_unit_shift(polys[1]@, x);
        crate::poly::lemma_unit_shift(polys[2]@, x);
        assert(v0[ji] == eval_coeffs(polys[0]@, x));
        assert(v1[ji] == eval_coeffs(polys[1]@, x));
        assert(v2[ji] == eval_coeffs(polys[2]@, x));
        assert(fmul(v1[ji], v2[ji]) == v0[ji]);
        vstd::arithmetic::div_mod::lemma_small_mod(v0[ji], crate::field::modulus());
        vstd::arithmetic::div_mod::lemma_mod_self_0(crate::field::modulus() as int);
    }
}

/// A polynomial that takes non-zero values on K has no zero there.
proof fn lemma_nonzero_from_values(coeffs: Seq<Fe>, d: Domain, vals: Seq<Fe>)
    requires
        forall|i: int| 0 <= i < d.spec_size() ==> eval_coeffs(coeffs, d.elem(i as nat)) == (#[trigger] vals[i])@,
        forall|i: int| 0 <= i < d.spec_size() ==> (#[trigger] vals[i])@ != 0,
    ensures
        nonzero_on(coeffs, d),
{
    assert forall|i: nat| i < d.spec_size() implies #[trigger] eval_coeffs(coeffs, d.elem(i)) != 0 by {
        assert(vals[i as int]@ != 0);
    }
}

/// `s - 1` has no zero on K when s takes no value one there.
proof fn lemma_minus_one_nonzero(s: Seq<Fe>, one: Seq<Fe>, sm1: Seq<Fe>, d: Domain, vals: Seq<Fe>)
    requires
        forall|x: nat| #[trigger] eval_coeffs(one, x) == 1,
        forall|x: nat| #[trigger] eval_coeffs(sm1, x) == crate::field::fsub(eval_coeffs(s, x), eval_coeffs(one, x)),
        forall|i: int| 0 <= i < d.spec_size() ==> eval_coeffs(s, d.elem(i as nat)) == (#[trigger] vals[i])@,
        forall|i: int| 0 <= i < d.spec_size() ==> (#[trigger] vals[i])@ != 1,
    ensures
        nonzero_on(sm1, d),
{
    assert forall|i: nat| i < d.spec_size() implies #[trigger] eval_coeffs(sm1, d.elem(i)) != 0 by {
        let v = vals[i as int];
        assert(v@ != 1);
        vstd::arithmetic::div_mod::lemma_mod_bound(v.raw() as int, crate::field::modulus() as int);
        if crate::field::fsub(v@, 1) == 0 {
            crate::field::lemma_fsub_zero(v@, 1);
        }
    }
}

/// When the claim holds, H fits in K and H's generator has a square root,
/// an honest prover succeeds.
pub open spec fn completeness_holds(f: Seq<Fe>, g: Seq<Fe>, k: Domain, h: Domain) -> bool {
    &&& h.spec_size() <= k.spec_size()
    &&& exists|v: nat| v < crate::field::modulus() && #[trigger] fmul(v, v) == h.elem(1)
    &&& dlog_less_on(f, g, k, h)
}

/// The commitment to `s - 1` that the verifier forms: `1 * s + (-1) * commit(1)`.
pub open spec fn s_minus_one_commitment(ck: Seq<u8>, s: Seq<u8>) -> Seq<u8> {
    commitment_add_scaled(commitment_add_scaled(empty_commitment(0), 1, s), crate::field::fneg(1),
        kzg_commit_of(ck, seq![1nat], None, None, 0).0)
}

/// What an accepted comparison proof for commitments f and g shows: the
/// non-zero tests on f', g', s' and s - 1, the square checks f = f'^2, g = g'^2,
/// s = s'^2 and the product check f' = s' g' all accept.
#[verifier::opaque]
pub open spec fn dl_accepted(proof: Proof, f: Seq<u8>, f_db: Option<usize>, g: Seq<u8>, g_db: Option<usize>, k: Domain, ck: Seq<u8>, vk: Seq<u8>) -> bool {
    &&& nzk_accepts(s_minus_one_commitment(ck, proof.s_commit.bytes@), None, proof.nzk_s_minus_one_proof.g_commit.bytes@,
        proof.nzk_s_minus_one_proof.zero_over_k_proof, k, vk)
    &&& nzk_accepts(proof.f_prime_commit.bytes@, None, proof.nzk_f_prime_proof.g_commit.bytes@,
        proof.nzk_f_prime_proof.zero_over_k_proof, k, vk)
    &&& nzk_accepts(proof.g_prime_commit.bytes@, None, proof.nzk_g_prime_proof.g_commit.bytes@,
        proof.nzk_g_prime_proof.zero_over_k_proof, k, vk)
    &&& nzk_accepts(proof.s_prime_commit.bytes@, None, proof.nzk_s_prime_proof.g_commit.bytes@,
        proof.nzk_s_prime_proof.zero_over_k_proof, k, vk)
    &&& square_check_accepts(f, f_db, proof.f_prime_commit.bytes@, None, proof.f_prime_square_proof, k, vk)
    &&& square_check_accepts(g, g_db, proof.g_prime_commit.bytes@, None, proof.g_prime_square_proof, k, vk)
    &&& square_check_accepts(proof.s_commit.bytes@, None, proof.s_prime_commit.bytes@, None, proof.s_prime_square_proof, k, vk)
    &&& product_check_accepts(proof.f_prime_commit.bytes@, proof.s_prime_commit.bytes@, proof.g_prime_commit.bytes@,
        proof.f_prime_product_proof, k, vk)
}

/// f and g have at most `|K|` coefficients and no degree bound, and the key
/// commits to the quotients of the nested tests: `2 |K|` and `|K| + 5`
/// coefficients.
pub open spec fn dl_key_fits(ck: &CommitterKey, f: &LabeledPolynomial, g: &LabeledPolynomial, k: Domain) -> bool {
    &&& f.coeffs@.len() <= k.spec_size()
    &&& g.coeffs@.len() <= k.spec_size()
    &&& f.degree_bound is None
    &&& g.degree_bound is None
    &&& 2 * k.spec_size() <= ck.spec_supported_degree() + 1
    &&& k.spec_size() + 5 <= ck.spec_supported_degree() + 1
}

/// The run lengths of h: `|H|`, then the padding up to `|K|` if any.
pub open spec fn dl_run_lengths(k: Domain, h: Domain) -> Seq<usize> {
    if k.spec_size() > h.spec_size() {
        seq![h.spec_size() as usize, (k.spec_size() - h.spec_size()) as usize]
    } else {
        seq![h.spec_size() as usize]
    }
}

/// The initial values of h's runs: one, then zero for the padding.
pub open spec fn dl_run_values(k: Domain, h: Domain) -> Seq<nat> {
    if k.spec_size() > h.spec_size() { seq![1nat, 0nat] } else { seq![1nat] }
}

/// h's geometric test with ratio `sqrt(omega)`, one then zeros, accepts.
pub open spec fn dl_geo_accepted(proof: Proof, k: Domain, h: Domain, vk: Seq<u8>) -> bool {
    exists|a: Seq<Fe>| #[trigger] values(a) == dl_run_values(k, h)
        && crate::geo_seq::geo_accepted(crate::field::sqrt_of(h.elem(1)), a, dl_run_lengths(k, h), k,
            proof.h_commit.bytes@, None, proof.h_proof, vk)
}

/// Every commitment and proof the comparison verifier reads decodes.
pub open spec fn dl_decodes(proof: Proof, f: Seq<u8>, g: Seq<u8>, ck: Seq<u8>) -> bool {
    &&& commitment_decodes(f)
    &&& commitment_decodes(g)
    &&& commitment_decodes(proof.s_commit.bytes@)
    &&& commitment_decodes(proof.f_prime_commit.bytes@)
    &&& commitment_decodes(proof.g_prime_commit.bytes@)
    &&& commitment_decodes(proof.s_prime_commit.bytes@)
    &&& crate::non_zero_over_k::nzk_decodes(proof.f_prime_commit.bytes@, &proof.nzk_f_prime_proof)
    &&& crate::non_zero_over_k::nzk_decodes(proof.g_prime_commit.bytes@, &proof.nzk_g_prime_proof)
    &&& crate::non_zero_over_k::nzk_decodes(proof.s_prime_commit.bytes@, &proof.nzk_s_prime_proof)
    &&& crate::non_zero_over_k::nzk_decodes(s_minus_one_commitment(ck, proof.s_commit.bytes@), &proof.nzk_s_minus_one_proof)
    &&& zok_decodes(proof.f_prime_square_proof)
    &&& zok_decodes(proof.g_prime_square_proof)
    &&& zok_decodes(proof.s_prime_square_proof)
    &&& zok_decodes(proof.f_prime_product_proof)
    &&& crate::geo_seq::geo_decodes(proof.h_commit.bytes@, proof.h_proof)
}

/// A discrete-log comparison proof.
#[derive(Clone, Debug)]
pub struct Proof {
    pub s_commit: Commitment,
    pub f_prime_commit: Commitment,
    pub g_prime_commit: Commitment,
    pub s_prime_commit: Commitment,
    pub h_commit: Commitment,
    pub f_prime_square_proof: crate::zero_over_k::Proof,
    pub g_prime_square_proof: crate::zero_over_k::Proof,
    pub s_prime_square_proof: crate::zero_over_k::Proof,
    pub f_prime_product_proof: crate::zero_over_k::Proof,
    pub h_proof: crate::geo_seq::Proof,
    pub nzk_f_prime_proof: crate::non_zero_over_k::Proof,
    pub nzk_g_prime_proof: crate::non_zero_over_k::Proof,
    pub nzk_s_prime_proof: crate::non_zero_over_k::Proof,
    pub nzk_s_minus_one_proof: crate::non_zero_over_k::Proof,
}

pub struct DLComparison {}

/// The bytes of the domain tag followed by each commitment's bytes.
pub open spec fn tagged_commitments(tag: Seq<u8>, cs: Seq<LabeledCommitment>) -> Seq<u8>
    decreases cs.len(),
{
    if cs.len() == 0 {
        tag
    } else {
        tagged_commitments(tag, cs.drop_last()) + cs.last().commitment.bytes@
    }
}

/// The domain tag `Discrete-log Comparison`.
pub open spec fn protocol_name() -> Seq<u8> {
    "Discrete-log Comparison"@.map_values(|c: char| c as u8)
}

/// The message a proof contributes to the transcript: the domain tag, then
/// the commitments to s, f', g', s' and h.
pub open spec fn proof_message(p: Proof) -> Seq<u8> {
    protocol_name() + p.s_commit.bytes@ + p.f_prime_commit.bytes@ + p.g_prime_commit.bytes@
        + p.s_prime_commit.bytes@ + p.h_commit.bytes@
}

proof fn lemma_proof_message(p: Proof, cs: Seq<LabeledCommitment>)
    requires
        cs.len() == 5,
        cs[0].commitment.bytes@ == p.s_commit.bytes@,
        cs[1].commitment.bytes@ == p.f_prime_commit.bytes@,
        cs[2].commitment.bytes@ == p.g_prime_commit.bytes@,
        cs[3].commitment.bytes@ == p.s_prime_commit.bytes@,
        cs[4].commitment.bytes@ == p.h_commit.bytes@,
    ensures
        tagged_commitments(protocol_name(), cs) == proof_message(p),
{
    let c4 = cs.drop_last();
    let c3 = c4.drop_last();
    let c2 = c3.drop_last();
    let c1 = c2.drop_last();
    let c0 = c1.drop_last();
    let n = protocol_name();
    assert(c0.len() == 0);
    assert(tagged_commitments(n, c0) == n);
    assert(c1.last() == cs[0] && c2.last() == cs[1] && c3.last() == cs[2] && c4.last() == cs[3] && cs.last() == cs[4]);
    assert(tagged_commitments(n, c1) == n + p.s_commit.bytes@);
    assert(tagged_commitments(n, c2) == n + p.s_commit.bytes@ + p.f_prime_commit.bytes@);
    assert(tagged_commitments(n, c3) == n + p.s_commit.bytes@ + p.f_prime_commit.bytes@ + p.g_prime_commit.bytes@);
    assert(tagged_commitments(n, c4) == n + p.s_commit.bytes@ + p.f_prime_commit.bytes@ + p.g_prime_commit.bytes@
        + p.s_prime_commit.bytes@);
}

/// Absorbs the domain tag and the auxiliary commitments as one message.
fn absorb_commitments(transcript: &mut Transcript, cs: &Vec<LabeledCommitment>)
    ensures
        final(transcript).spec_seed() == old(transcript).spec_seed(),
        final(transcript).spec_absorbed() == old(transcript).spec_absorbed().push(tagged_commitments(protocol_name(), cs@)),
{
    let tag = "Discrete-log Comparison";
    let mut msg = tag.as_bytes_vec();
    proof {
        reveal_strlit("Discrete-log Comparison");
        assert(vstd::string::is_ascii(tag));
        vstd::string::is_ascii_spec_bytes(tag);
        assert(msg@ =~= protocol_name());
        assert(cs@.subrange(0, 0) =~= Seq::<LabeledCommitment>::empty());
    }
    let mut i: usize = 0;
    while i < cs.len()
        invariant
            i <= cs@.len(),
            msg@ == tagged_commitments(protocol_name(), cs@.subrange(0, i as int)),
        decreases cs@.len() - i,
    {
        let mut b = cs[i].commitment.bytes.clone();
        assert(b@ =~= cs@[i as int].commitment.bytes@);
        msg.append(&mut b);
        assert(cs@.subrange(0, i + 1).drop_last() =~= cs@.subrange(0, i as int));
        i = i + 1;
    }
    assert(cs@.subrange(0, cs@.len() as int) =~= cs@);
    transcript.absorb(&msg);
}

/// The run layout of h: `|H|` powers of delta from one, then zeros up to `|K|`.
fn h_runs(k: &Domain, h: &Domain) -> (r: (Vec<Fe>, Vec<usize>))
    requires
        h.spec_size() <= k.spec_size(),
    ensures
        r.0@.len() == r.1@.len(),
        r.1@.len() <= 2,
        crate::geo_seq::total(r.1@) == k.spec_size(),
        r.1@ == dl_run_lengths(*k, *h),
        values(r.0@) == dl_run_values(*k, *h),
{
    let mut a_s = vec![Fe::one()];
    let mut c_s = vec![h.size()];
    let to_pad = k.size() - h.size();
    proof {
        assert(c_s@.drop_last() =~= Seq::<usize>::empty());
        assert(crate::geo_seq::total(c_s@.drop_last()) == 0);
        assert(crate::geo_seq::total(c_s@) == h.spec_size());
    }
    if to_pad > 0 {
        a_s.push(Fe::zero());
        c_s.push(to_pad);
        proof {
            assert(c_s@.drop_last() =~= seq![h.spec_size() as usize]);
            assert(c_s@.drop_last().drop_last() =~= Seq::<usize>::empty());
            assert(crate::geo_seq::total(c_s@.drop_last().drop_last()) == 0);
            assert(crate::geo_seq::total(c_s@.drop_last()) == h.spec_size());
        }
    }
    proof {
        if to_pad > 0 {
            assert(c_s@ =~= dl_run_lengths(*k, *h));
            assert(values(a_s@) =~= dl_run_values(*k, *h));
        } else {
            assert(c_s@ =~= dl_run_lengths(*k, *h));
            assert(values(a_s@) =~= dl_run_values(*k, *h));
        }
    }
    (a_s, c_s)
}

/// The square root of H's generator that both sides use, with its inverse.
/// Fails with `InputLengthError` exactly when the generator is not a square.
fn delta_of(h: &Domain) -> (r: Result<(Fe, Fe), Error>)
    requires
        h.wf(),
    ensures
        r matches Ok((d, dinv)) ==> fmul(d@, d@) == h.elem(1) && fmul(d@, dinv@) == 1 && d@ == crate::field::sqrt_of(h.elem(1)),
        r is Err ==> forall|v: nat| v < crate::field::modulus() ==> #[trigger] fmul(v, v) != h.elem(1),
        r matches Err(e) ==> e is InputLengthError,
{
    match h.element(1).sqrt() {
        Some(d) => match d.inverse() {
            Some(dinv) => {
                proof { crate::field::lemma_fmul_comm(dinv@, d@); }
                Ok((d, dinv))
            },
            None => {
                proof {
                    let g = h.spec_gen();
                    h.lemma_gen_reduced();
                    assert(crate::field::fpow(g, 0) == 1);
                    crate::field::lemma_fmul_one(g);
                    assert(0nat * 0nat == 0nat); assert(fmul(0, 0) == 0);
                    assert(g == 0);
                    let n = h.spec_size();
                    assert(n >= 1);
                    assert(crate::field::fpow(g, n) == fmul(crate::field::fpow(g, (n - 1) as nat), 0));
                    assert(crate::field::fpow(g, (n - 1) as nat) * 0 == 0);
                }
                Err(Error::InputLengthError("the generator of H has no square root".to_string()))
            },
        },
        None => Err(Error::InputLengthError("the generator of H has no square root".to_string())),
    }
}

impl DLComparison {
    /// Proves that `dlog(f(x)) < dlog(g(x))` within H at every x of K, for
    /// the committed f and g. Succeeds only where that holds; fails with
    /// `T2Large` exactly when H is larger than K.
    #[verifier::spinoff_prover]
    #[verifier::rlimit(100)]
    pub fn prove(
        ck: &CommitterKey,
        domain_k: &Domain,
        domain_h: &Domain,
        f: &LabeledPolynomial,
        g: &LabeledPolynomial,
        f_commit: &LabeledCommitment,
        g_commit: &LabeledCommitment,
        transcript: &mut Transcript,
        seed: u64,
    ) -> (r: Result<Proof, Error>)
        requires
            domain_k.wf(),
            domain_h.wf(),
        ensures
            (r matches Err(e) && e is T2Large) <==> domain_h.spec_size() > domain_k.spec_size(),
            final(transcript).spec_seed() == old(transcript).spec_seed(),
            r matches Ok(p) ==> final(transcript).spec_absorbed() == old(transcript).spec_absorbed().push(proof_message(p)),
            r is Ok ==> dlog_less_on(f.coeffs@, g.coeffs@, *domain_k, *domain_h),
            completeness_holds(f.coeffs@, g.coeffs@, *domain_k, *domain_h) ==> (r is Ok || (r matches Err(e) && e is PCError)),
            completeness_holds(f.coeffs@, g.coeffs@, *domain_k, *domain_h) && dl_key_fits(ck, f, g, *domain_k) ==> r is Ok,
            domain_h.spec_size() <= domain_k.spec_size()
                && (exists|v: nat| v < crate::field::modulus() && #[trigger] fmul(v, v) == domain_h.elem(1))
                && dl_key_fits(ck, f, g, *domain_k) && !dlog_less_on(f.coeffs@, g.coeffs@, *domain_k, *domain_h)
                ==> (r matches Err(e) && e is FEvalIsZero),
    {
        let ghost complete = completeness_holds(f.coeffs@, g.coeffs@, *domain_k, *domain_h);
        if domain_h.size() > domain_k.size() {
            return Err(Error::T2Large);
        }
        let (delta, delta_inv) = delta_of(domain_h)?;
        let f_evals = domain_k.evaluations_of(&f.coeffs);
        let g_evals = domain_k.evaluations_of(&g.coeffs);
        let w = witness_values(domain_k, domain_h, delta, delta_inv, &f_evals, &g_evals);
        proof {
            if complete {
                assert forall|j: int| 0 <= j < domain_k.spec_size() implies
                    #[trigger] compare_ok(*domain_h, f_evals@[j]@, g_evals@[j]@) by {
                    assert(dlog_less_at(f.coeffs@, g.coeffs@, *domain_k, *domain_h, j as nat));
                }
            }
        }
        let (a_s, c_s) = h_runs(domain_k, domain_h);
        let h_seq = generate_sequence(delta, &a_s, &c_s);
        proof { crate::geo_seq::lemma_geo_seq_len(delta@, crate::field::values(a_s@), c_s@); }

        // First round: commit to s, f', g', s' and h, in that order.
        let s = LabeledPolynomial::new("s".to_string(), domain_k.ifft(&w.s), None, None);
        let f_prime = LabeledPolynomial::new("f_prime".to_string(), domain_k.ifft(&w.f_prime), None, None);
        let g_prime = LabeledPolynomial::new("g_prime".to_string(), domain_k.ifft(&w.g_prime), None, None);
        let s_prime = LabeledPolynomial::new("s_prime".to_string(), domain_k.ifft(&w.s_prime), None, None);
        let h = LabeledPolynomial::new("h".to_string(), domain_k.ifft(&h_seq), None, None);
        let oracles = vec![s.copy(), f_prime.copy(), g_prime.copy(), s_prime.copy(), h.copy()];
        let ghost fits = completeness_holds(f.coeffs@, g.coeffs@, *domain_k, *domain_h) && dl_key_fits(ck, f, g, *domain_k);
        let ghost kf = dl_key_fits(ck, f, g, *domain_k);
        proof {
            if kf {
                assert forall|i: int| 0 <= i < oracles@.len() implies #[trigger] fits_key(ck, oracles@[i]) by {
                    assert(oracles@[i].coeffs@.len() == domain_k.spec_size());
                }
            }
        }
        let (commitments, rands) = KZG10::commit(ck, &oracles, seed)?;
        proof {
            if fits {
                assert forall|i: int| 0 <= i < 5 implies (#[trigger] rands@[i]).spec_bytes() == empty_randomness(0) by {
                    assert(commitments@[i].label == oracles@[i].label);
                }
            }
        }
        absorb_commitments(transcript, &commitments);
        let ghost message = tagged_commitments(protocol_name(), commitments@);

        // Non-zero over K for f', g', s' and s - 1.
        proof {
            if complete {
                assert forall|j: int| 0 <= j < domain_k.spec_size() implies valid_witness_at(f_evals@[j]@, g_evals@[j]@,
                    w.f_prime@[j]@, w.g_prime@[j]@, #[trigger] w.s_prime@[j]@) by {
                    assert(compare_ok(*domain_h, f_evals@[j]@, g_evals@[j]@));
                }
                assert forall|j: int| 0 <= j < domain_k.spec_size() implies (#[trigger] w.f_prime@[j])@ != 0 by {
                    assert(valid_witness_at(f_evals@[j]@, g_evals@[j]@, w.f_prime@[j]@, w.g_prime@[j]@, w.s_prime@[j]@));
                }
                assert forall|j: int| 0 <= j < domain_k.spec_size() implies (#[trigger] w.g_prime@[j])@ != 0 by {
                    assert(valid_witness_at(f_evals@[j]@, g_evals@[j]@, w.f_prime@[j]@, w.g_prime@[j]@, w.s_prime@[j]@));
                }
                lemma_nonzero_from_values(f_prime.coeffs@, *domain_k, w.f_prime@);
                lemma_nonzero_from_values(g_prime.coeffs@, *domain_k, w.g_prime@);
                lemma_nonzero_from_values(s_prime.coeffs@, *domain_k, w.s_prime@);
            }
        }
        proof {
            if kf {
                assert(f_prime.coeffs@.len() == domain_k.spec_size() && g_prime.coeffs@.len() == domain_k.spec_size()
                    && s_prime.coeffs@.len() == domain_k.spec_size());
            }
            if kf && !dlog_less_on(f.coeffs@, g.coeffs@, *domain_k, *domain_h) {
                let j = choose|j: nat| j < domain_k.spec_size() && !#[trigger] dlog_less_at(f.coeffs@, g.coeffs@, *domain_k, *domain_h, j);
                assert(w.s_prime@[j as int]@ == 0) by {
                    if w.s_prime@[j as int]@ != 0 {
                        assert(compare_ok(*domain_h, f_evals@[j as int]@, g_evals@[j as int]@));
                    }
                }
                assert(eval_coeffs(s_prime.coeffs@, domain_k.elem((j as int) as nat)) == w.s_prime@[j as int]@);
                assert(!nonzero_on(s_prime.coeffs@, *domain_k));
            }
        }
        let nzk_f_prime_proof = NonZeroOverK::prove(ck, domain_k, &f_prime, seed)?;
        let nzk_g_prime_proof = NonZeroOverK::prove(ck, domain_k, &g_prime, seed)?;
        let nzk_s_prime_proof = NonZeroOverK::prove(ck, domain_k, &s_prime, seed)?;
        proof {
            assert forall|j: nat| j < domain_k.spec_size() implies #[trigger] dlog_less_at(f.coeffs@, g.coeffs@, *domain_k, *domain_h, j) by {
                assert(eval_coeffs(s_prime.coeffs@, domain_k.elem(j)) != 0);
                assert(w.s_prime@[j as int]@ != 0);
                assert(compare_ok(*domain_h, f_evals@[j as int]@, g_evals@[j as int]@));
            }
        }
        let one = constant(Fe::one());
        let s_minus_one = LabeledPolynomial::new("s_minus_one".to_string(), poly_sub(&s.coeffs, &one), None, None);
        proof {
            if complete {
                assert forall|j: int| 0 <= j < domain_k.spec_size() implies (#[trigger] w.s@[j])@ != 1 by {
                    assert(valid_witness_at(f_evals@[j]@, g_evals@[j]@, w.f_prime@[j]@, w.g_prime@[j]@, w.s_prime@[j]@));
                    assert(w.s@[j]@ == fmul(w.s_prime@[j]@, w.s_prime@[j]@));
                }
                lemma_minus_one_nonzero(s.coeffs@, one@, s_minus_one.coeffs@, *domain_k, w.s@);
            }
        }
        let nzk_s_minus_one_proof = NonZeroOverK::prove(ck, domain_k, &s_minus_one, seed)?;

        // Squares: f = f'^2, g = g'^2, s = s'^2; product: f' = s' g'.
        let square_check = NewVO::square_check();
        let f_oracles = vec![f.copy(), f_prime.copy()];
        let g_oracles = vec![g.copy(), g_prime.copy()];
        let s_oracles = vec![s.copy(), s_prime.copy()];
        let p_oracles = vec![f_prime.copy(), s_prime.copy(), g_prime.copy()];
        proof {
            if complete {
                let n = domain_k.spec_size();
                assert forall|j: int| 0 <= j < n implies #[trigger] fmul(crate::field::values(w.f_prime@)[j], crate::field::values(w.f_prime@)[j]) == crate::field::values(f_evals@)[j]
                    && crate::field::values(f_evals@)[j] < crate::field::modulus() by {
                    assert(valid_witness_at(f_evals@[j]@, g_evals@[j]@, w.f_prime@[j]@, w.g_prime@[j]@, w.s_prime@[j]@));
                    vstd::arithmetic::div_mod::lemma_mod_bound(f_evals@[j].raw() as int, crate::field::modulus() as int);
                }
                assert forall|j: int| 0 <= j < n implies #[trigger] fmul(crate::field::values(w.g_prime@)[j], crate::field::values(w.g_prime@)[j]) == crate::field::values(g_evals@)[j]
                    && crate::field::values(g_evals@)[j] < crate::field::modulus() by {
                    assert(valid_witness_at(f_evals@[j]@, g_evals@[j]@, w.f_prime@[j]@, w.g_prime@[j]@, w.s_prime@[j]@));
                    vstd::arithmetic::div_mod::lemma_mod_bound(g_evals@[j].raw() as int, crate::field::modulus() as int);
                }
                assert forall|j: int| 0 <= j < n implies #[trigger] fmul(crate::field::values(w.s_prime@)[j], crate::field::values(w.s_prime@)[j]) == crate::field::values(w.s@)[j]
                    && crate::field::values(w.s@)[j] < crate::field::modulus() by {
                    vstd::arithmetic::div_mod::lemma_mod_bound(w.s@[j].raw() as int, crate::field::modulus() as int);
                }
                assert forall|j: int| 0 <= j < n implies #[trigger] fmul(crate::field::values(w.s_prime@)[j], crate::field::values(w.g_prime@)[j]) == crate::field::values(w.f_prime@)[j]
                    && crate::field::values(w.f_prime@)[j] < crate::field::modulus() by {
                    assert(valid_witness_at(f_evals@[j]@, g_evals@[j]@, w.f_prime@[j]@, w.g_prime@[j]@, w.s_prime@[j]@));
                    vstd::arithmetic::div_mod::lemma_mod_bound(w.f_prime@[j].raw() as int, crate::field::modulus() as int);
                }
                lemma_square_vanishes(&square_check, crate::zero_over_k::coeffs_of(f_oracles@), *domain_k,
                    crate::field::values(f_evals@), crate::field::values(w.f_prime@));
                lemma_square_vanishes(&square_check, crate::zero_over_k::coeffs_of(g_oracles@), *domain_k,
                    crate::field::values(g_evals@), crate::field::values(w.g_prime@));
                lemma_square_vanishes(&square_check, crate::zero_over_k::coeffs_of(s_oracles@), *domain_k,
                    crate::field::values(w.s@), crate::field::values(w.s_prime@));
                lemma_product_vanishes(crate::zero_over_k::coeffs_of(p_oracles@), *domain_k,
                    crate::field::values(w.f_prime@), crate::field::values(w.s_prime@), crate::field::values(w.g_prime@));
            }
        }
        let e0 = KZG10::empty_randomness();
        let e1 = KZG10::empty_randomness();
        let e2 = KZG10::empty_randomness();
        let e3 = KZG10::empty_randomness();
        let f_rands = vec![e0, e1];
        let g_rands = vec![e2, e3];
        let s_rands = vec![rands[0].copy(), rands[3].copy()];
        let p_rands = vec![rands[1].copy(), rands[3].copy(), rands[2].copy()];
        proof {
            if fits {
                let n = domain_k.spec_size();
                assert(oracles_fit(ck, f_oracles@, f_rands@, n));
                assert(oracles_fit(ck, g_oracles@, g_rands@, n));
                assert(s_oracles@[0].coeffs@.len() == n && s_oracles@[1].coeffs@.len() == n);
                assert(oracles_fit(ck, s_oracles@, s_rands@, n));
                assert(p_oracles@[0].coeffs@.len() == n && p_oracles@[1].coeffs@.len() == n && p_oracles@[2].coeffs@.len() == n);
                assert(oracles_fit(ck, p_oracles@, p_rands@, n));
                assert(square_check.spec_len_bound(n) == 2 * n);
            }
        }
        let f_prime_square_proof = ZeroOverK::prove(
            &f_oracles,
            &vec![f_commit.copy(), commitments[1].copy()],
            &f_rands,
            &square_check, domain_k, ck, seed)?;
        let g_prime_square_proof = ZeroOverK::prove(
            &g_oracles,
            &vec![g_commit.copy(), commitments[2].copy()],
            &g_rands,
            &square_check, domain_k, ck, seed)?;
        let s_prime_square_proof = ZeroOverK::prove(
            &s_oracles,
            &vec![commitments[0].copy(), commitments[3].copy()],
            &s_rands,
            &square_check, domain_k, ck, seed)?;
        let f_prime_product_proof = ZeroOverK::prove(
            &p_oracles,
            &vec![commitments[1].copy(), commitments[3].copy(), commitments[2].copy()],
            &p_rands,
            &ProductCheckVO::new(), domain_k, ck, seed)?;

        // h is the padded geometric sequence with ratio delta.
        proof {
            assert forall|j: nat| j < domain_k.spec_size() implies #[trigger] eval_coeffs(h.coeffs@, domain_k.elem(j))
                == crate::geo_seq::geo_seq(delta@, crate::field::values(a_s@), c_s@)[j as int] by {
                assert(eval_coeffs(h.coeffs@, domain_k.elem((j as int) as nat)) == h_seq@[j as int]@);
            }
        }
        proof {
            if fits {
                assert(h.coeffs@.len() == domain_k.spec_size());
                assert(crate::geo_seq::h_fits(ck, &h, &rands@[4], domain_k.spec_size(), c_s@.len()));
            }
        }
        let h_proof = GeoSeqTest::prove(ck, delta, &h, &commitments[4], &rands[4], &a_s, &c_s, domain_k, seed)?;

        let proof = Proof {
            s_commit: commitments[0].commitment.copy(),
            f_prime_commit: commitments[1].commitment.copy(),
            g_prime_commit: commitments[2].commitment.copy(),
            s_prime_commit: commitments[3].commitment.copy(),
            h_commit: commitments[4].commitment.copy(),
            f_prime_square_proof,
            g_prime_square_proof,
            s_prime_square_proof,
            f_prime_product_proof,
            h_proof,
            nzk_f_prime_proof,
            nzk_g_prime_proof,
            nzk_s_prime_proof,
            nzk_s_minus_one_proof,
        };
        proof { lemma_proof_message(proof, commitments@); }
        Ok(proof)
    }
}

impl DLComparison {
    /// Checks a discrete-log comparison proof for the commitments to f and g:
    /// the four non-zero tests (the verifier forms the commitment to `s - 1`
    /// itself), the square and product checks, and the geometric test on h.
    #[verifier::rlimit(100)]
    #[verifier::spinoff_prover]
    pub fn verify(
        vk: &VerifierKey,
        ck: &CommitterKey,
        domain_k: &Domain,
        domain_h: &Domain,
        f_commit: &LabeledCommitment,
        g_commit: &LabeledCommitment,
        proof: &Proof,
        transcript: &mut Transcript,
    ) -> (r: Result<(), Error>)
        requires
            domain_k.wf(),
            domain_h.wf(),
        ensures
            (r matches Err(e) && e is T2Large) <==> domain_h.spec_size() > domain_k.spec_size(),
            final(transcript).spec_seed() == old(transcript).spec_seed(),
            domain_h.spec_size() <= domain_k.spec_size()
                ==> final(transcript).spec_absorbed() == old(transcript).spec_absorbed().push(proof_message(*proof)),
            r is Ok ==> dl_accepted(*proof, f_commit.commitment.bytes@, f_commit.degree_bound,
                g_commit.commitment.bytes@, g_commit.degree_bound, *domain_k, ck.spec_bytes(), vk.spec_bytes())
                && dl_geo_accepted(*proof, *domain_k, *domain_h, vk.spec_bytes()),
            domain_h.spec_size() <= domain_k.spec_size()
                && (exists|v: nat| v < crate::field::modulus() && #[trigger] fmul(v, v) == domain_h.elem(1))
                && f_commit.degree_bound is None && g_commit.degree_bound is None
                && dl_accepted(*proof, f_commit.commitment.bytes@, f_commit.degree_bound,
                    g_commit.commitment.bytes@, g_commit.degree_bound, *domain_k, ck.spec_bytes(), vk.spec_bytes())
                && dl_geo_accepted(*proof, *domain_k, *domain_h, vk.spec_bytes())
                && dl_decodes(*proof, f_commit.commitment.bytes@, g_commit.commitment.bytes@, ck.spec_bytes()) ==> r is Ok,
    {
        let ghost all_ok = (exists|v: nat| v < crate::field::modulus() && #[trigger] fmul(v, v) == domain_h.elem(1))
            && f_commit.degree_bound is None && g_commit.degree_bound is None
            && dl_accepted(*proof, f_commit.commitment.bytes@, f_commit.degree_bound,
                g_commit.commitment.bytes@, g_commit.degree_bound, *domain_k, ck.spec_bytes(), vk.spec_bytes())
            && dl_geo_accepted(*proof, *domain_k, *domain_h, vk.spec_bytes())
            && dl_decodes(*proof, f_commit.commitment.bytes@, g_commit.commitment.bytes@, ck.spec_bytes());
        proof { reveal(dl_accepted); }
        if domain_h.size() > domain_k.size() {
            return Err(Error::T2Large);
        }
        let commitments = vec![
            LabeledCommitment::new("s".to_string(), proof.s_commit.copy(), None),
            LabeledCommitment::new("f_prime".to_string(), proof.f_prime_commit.copy(), None),
            LabeledCommitment::new("g_prime".to_string(), proof.g_prime_commit.copy(), None),
            LabeledCommitment::new("s_prime".to_string(), proof.s_prime_commit.copy(), None),
            LabeledCommitment::new("h".to_string(), proof.h_commit.copy(), None),
        ];
        absorb_commitments(transcript, &commitments);
        proof { lemma_proof_message(*proof, commitments@); }

        // Non-zero over K for f', g', s' and s - 1.
        NonZeroOverK::verify(vk, domain_k, &commitments[1], &proof.nzk_f_prime_proof)?;
        NonZeroOverK::verify(vk, domain_k, &commitments[2], &proof.nzk_g_prime_proof)?;
        NonZeroOverK::verify(vk, domain_k, &commitments[3], &proof.nzk_s_prime_proof)?;
        let one_fe = Fe::one();
        let one = LabeledPolynomial::new("one".to_string(), constant(one_fe), None, None);
        let ones = vec![one];
        proof {
            assert(crate::field::values(ones@[0].coeffs@) =~= seq![1nat]);
        }
        proof { assert(fits_key(ck, ones@[0])); }
        let (commit_to_one, _) = KZG10::commit(ck, &ones, 0)?;
        proof { assert(commit_to_one@[0].label == ones@[0].label); }
        let minus_one = one_fe.neg();
        let terms = vec![proof.s_commit.copy(), commit_to_one[0].commitment.copy()];
        let scalars = vec![one_fe, minus_one];
        proof {
            if all_ok {
                assert forall|i: int| 0 <= i < terms@.len() implies commitment_decodes((#[trigger] terms@[i]).bytes@) by {
                    if i == 0 {} else {}
                }
            }
        }
        let s_minus_one_bytes = KZG10::multi_scalar_mul(&terms, &scalars)?;
        proof {
            assert(commit_to_one@[0].label == ones@[0].label);
            assert(seed_at(0, 0) == 0);
            assert(msm(terms@, scalars@, 0) == empty_commitment(0));
            assert(msm(terms@, scalars@, 1) == commitment_add_scaled(empty_commitment(0), 1, proof.s_commit.bytes@));
            assert(s_minus_one_bytes.bytes@ == s_minus_one_commitment(ck.spec_bytes(), proof.s_commit.bytes@));
        }
        let s_minus_one = LabeledCommitment::new("s_minus_one".to_string(), s_minus_one_bytes, None);
        NonZeroOverK::verify(vk, domain_k, &s_minus_one, &proof.nzk_s_minus_one_proof)?;

        // Squares and product.
        let square_check = NewVO::square_check();
        let f_pair = vec![f_commit.copy(), commitments[1].copy()];
        let g_pair = vec![g_commit.copy(), commitments[2].copy()];
        let s_pair = vec![commitments[0].copy(), commitments[3].copy()];
        let product_triple = vec![commitments[1].copy(), commitments[3].copy(), commitments[2].copy()];
        let product_check = ProductCheckVO::new();
        proof {
            lemma_square_check_accepts(&square_check, proof.f_prime_square_proof, f_pair@, *domain_k, vk.spec_bytes());
            lemma_square_check_accepts(&square_check, proof.g_prime_square_proof, g_pair@, *domain_k, vk.spec_bytes());
            lemma_square_check_accepts(&square_check, proof.s_prime_square_proof, s_pair@, *domain_k, vk.spec_bytes());
            lemma_product_check_accepts(proof.f_prime_product_proof, product_triple@, *domain_k, vk.spec_bytes());
            if all_ok {
                assert(commitment_decodes(product_triple@[0].commitment.bytes@));
                assert(commitment_decodes(product_triple@[1].commitment.bytes@));
                assert(commitment_decodes(product_triple@[2].commitment.bytes@));
            }
        }
        ZeroOverK::verify(&proof.f_prime_square_proof, &f_pair, &square_check, domain_k, vk)?;
        ZeroOverK::verify(&proof.g_prime_square_proof, &g_pair, &square_check, domain_k, vk)?;
        ZeroOverK::verify(&proof.s_prime_square_proof, &s_pair, &square_check, domain_k, vk)?;
        ZeroOverK::verify(&proof.f_prime_product_proof, &product_triple, &product_check, domain_k, vk)?;
        proof {
            lemma_square_check_accepts(&square_check, proof.f_prime_square_proof, f_pair@, *domain_k, vk.spec_bytes());
            lemma_square_check_accepts(&square_check, proof.g_prime_square_proof, g_pair@, *domain_k, vk.spec_bytes());
            lemma_square_check_accepts(&square_check, proof.s_prime_square_proof, s_pair@, *domain_k, vk.spec_bytes());
            lemma_product_check_accepts(proof.f_prime_product_proof, product_triple@, *domain_k, vk.spec_bytes());
        }

        // The geometric test on h.
        let (delta, _) = delta_of(domain_h)?;
        let (a_s, c_s) = h_runs(domain_k, domain_h);
        proof {
            if all_ok {
                let a = choose|a: Seq<Fe>| #[trigger] values(a) == dl_run_values(*domain_k, *domain_h)
                    && crate::geo_seq::geo_accepted(crate::field::sqrt_of(domain_h.elem(1)), a, dl_run_lengths(*domain_k, *domain_h), *domain_k,
                        proof.h_commit.bytes@, None, proof.h_proof, vk.spec_bytes());
                crate::geo_seq::lemma_geo_accepted_values(delta@, a, a_s@, c_s@, *domain_k, proof.h_commit.bytes@, None, proof.h_proof, vk.spec_bytes());
            }
        }
        let r = GeoSeqTest::verify(delta, &a_s, &c_s, domain_k, &commitments[4], &proof.h_proof, vk);
        proof {
            if r is Ok {
                assert(values(a_s@) == dl_run_values(*domain_k, *domain_h));
                assert(dl_geo_accepted(*proof, *domain_k, *domain_h, vk.spec_bytes()));
            }
        }
        r
    }
}

} // verus!
