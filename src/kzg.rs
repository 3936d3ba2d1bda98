//! The additively homomorphic commitment backend: arkworks' Sonic-style KZG
//! scheme over BN254. Keys, commitments, hiding randomness and opening proofs
//! cross into the library as their canonical serialization.
use vstd::prelude::*;
use crate::field::{values, Fe};
use ark_bn254::{Bn254, Fr};
use ark_ff::{BigInteger, BigInteger256, PrimeField};
use ark_poly::univariate::DensePolynomial;
use ark_poly::UVPolynomial;
use ark_poly_commit::kzg10::{Commitment as ArkCommitment, Proof as ArkProof, Randomness as ArkRandomness, };
use ark_poly_commit::sonic_pc::{CommitterKey as ArkCommitterKey, SonicKZG10, VerifierKey as ArkVerifierKey};
use ark_poly_commit::{LabeledCommitment as ArkLabeledCommitment, LabeledPolynomial as ArkLabeledPolynomial, PCCommitment, PCRandomness, PolynomialCommitment};
use ark_serialize::{CanonicalDeserialize, CanonicalSerialize};
use rand::rngs::StdRng;
use rand::SeedableRng;

verus! {

type Pc = SonicKZG10<Bn254, DensePolynomial<Fr>>;

/// Whether the scheme's check accepts `proof` as an opening of the commitment
/// (with that degree bound) to `value` at `point`, under verifier key `vk`.
pub uninterp spec fn kzg_accepts(vk: Seq<u8>, commitment: Seq<u8>, degree_bound: Option<usize>, point: nat, value: nat, proof: Seq<u8>) -> bool;

/// The commitment `acc + coef * c` in the commitment group.
pub uninterp spec fn commitment_add_scaled(acc: Seq<u8>, coef: nat, c: Seq<u8>) -> Seq<u8>;

/// The randomness `acc + coef * r`.
pub uninterp spec fn randomness_add_scaled(acc: Seq<u8>, coef: nat, r: Seq<u8>) -> Seq<u8>;

/// The neutral commitment.
pub uninterp spec fn empty_commitment(tag: nat) -> Seq<u8>;

/// The neutral randomness.
pub uninterp spec fn empty_randomness(tag: nat) -> Seq<u8>;

/// The committer and verifier keys (serialized) that `SonicKZG10::setup`
/// with an rng seeded by `seed`, followed by `trim`, produces.
pub uninterp spec fn keys_of(max_degree: usize, supported_degree: usize, hiding_bound: usize, enforced: Option<Seq<usize>>, seed: u64) -> (Seq<u8>, Seq<u8>);

/// The commitment and randomness (serialized) that `commit` produces for the
/// polynomial with these coefficient values, hiding randomness drawn from an
/// rng seeded by `seed`.
pub uninterp spec fn kzg_commit_of(ck: Seq<u8>, coeffs: Seq<nat>, degree_bound: Option<usize>, hiding_bound: Option<usize>, seed: u64) -> (Seq<u8>, Seq<u8>);

/// The opening proof (serialized) that `open` produces.
pub uninterp spec fn kzg_open_of(ck: Seq<u8>, coeffs: Seq<nat>, degree_bound: Option<usize>, hiding_bound: Option<usize>, rand: Seq<u8>, point: nat) -> Seq<u8>;

/// Whether the bytes deserialize to a commitment.
pub uninterp spec fn commitment_decodes(b: Seq<u8>) -> bool;

/// Whether the bytes deserialize to hiding randomness whose blinding
/// polynomial is zero or has a non-zero leading coefficient (the only forms
/// that commit, `empty` and scaled addition produce).
pub uninterp spec fn randomness_sound(b: Seq<u8>) -> bool;

/// Whether the bytes deserialize to an opening proof.
pub uninterp spec fn proof_decodes(b: Seq<u8>) -> bool;

/// Parameters for which setup and trim succeed: a positive maximum degree,
/// supported degree and hiding bound within it, enforced bounds within the
/// supported degree.
pub open spec fn params_ok(max_degree: usize, supported_degree: usize, hiding_bound: usize, enforced: Option<Seq<usize>>) -> bool {
    &&& 1 <= max_degree
    &&& supported_degree <= max_degree
    &&& hiding_bound <= max_degree
    &&& bounds_within(enforced, supported_degree)
}

/// Every enforced degree bound is at most `d`.
pub open spec fn bounds_within(enforced: Option<Seq<usize>>, d: usize) -> bool {
    enforced is None || all_at_most(enforced->Some_0, d)
}

pub open spec fn all_at_most(e: Seq<usize>, d: usize) -> bool {
    forall|i: int| 0 <= i < e.len() ==> #[trigger] e[i] <= d
}

pub open spec fn opt_view(e: Option<Vec<usize>>) -> Option<Seq<usize>> {
    match e {
        Some(v) => Some(v@),
        None => None,
    }
}

/// `ck` is a committer key produced by setup and trim with supported degree
/// `supported` and hiding bound `hiding`.
pub open spec fn trimmed_ck(ck: Seq<u8>, supported: usize, hiding: usize) -> bool {
    exists|m: usize, e: Option<Seq<usize>>, seed: u64|
        params_ok(m, supported, hiding, e) && #[trigger] keys_of(m, supported, hiding, e, seed).0 == ck
}

/// `vk` is a verifier key produced by setup and trim.
pub open spec fn trimmed_vk(vk: Seq<u8>) -> bool {
    exists|m: usize, s: usize, h: usize, e: Option<Seq<usize>>, seed: u64|
        params_ok(m, s, h, e) && #[trigger] keys_of(m, s, h, e, seed).1 == vk
}

/// Relies on `SonicKZG10::setup` with an rng seeded by `seed`, then
/// `SonicKZG10::trim`. Setup fails only for a zero maximum degree; trim fails
/// for a supported degree or an enforced bound beyond it, and reads
/// `hiding_bound + 2` powers that setup makes only up to `max_degree + 2`.
#[verifier::external_body]
pub(crate) fn ark_setup_trim(max_degree: usize, supported_degree: usize, hiding_bound: usize, enforced: &Option<Vec<usize>>, seed: u64) -> (r: Option<(Vec<u8>, Vec<u8>)>)
    requires
        hiding_bound <= max_degree,
    ensures
        r matches Some((c, v)) ==> (c@, v@) == keys_of(max_degree, supported_degree, hiding_bound, opt_view(*enforced), seed),
        params_ok(max_degree, supported_degree, hiding_bound, opt_view(*enforced)) ==> r is Some,
{
    let pp = Pc::setup(max_degree, None, &mut StdRng::seed_from_u64(seed)).ok()?;
    let (ck, vk) = Pc::trim(&pp, supported_degree, hiding_bound, enforced.as_deref()).ok()?;
    let (mut cb, mut vb) = (Vec::new(), Vec::new());
    ck.serialize_unchecked(&mut cb).ok()?;
    vk.serialize_unchecked(&mut vb).ok()?;
    Some((cb, vb))
}

/// Relies on `SonicKZG10::commit` for one polynomial; hiding randomness comes
/// from an rng seeded by `seed`. Without hiding it fails only for a degree
/// beyond the key's. A hiding bound `hb` draws a blinding polynomial of
/// degree `hb + 1`.
#[verifier::external_body]
pub(crate) fn ark_commit(ck: &Vec<u8>, coeffs: &Vec<Fe>, degree_bound: Option<usize>, hiding_bound: Option<usize>, seed: u64) -> (r: Option<(Vec<u8>, Vec<u8>)>)
    requires
        exists|s: usize, h: usize| trimmed_ck(ck@, s, h),
        hiding_bound matches Some(hb) ==> hb < usize::MAX,
    ensures
        r matches Some((c, rd)) ==> (c@, rd@) == kzg_commit_of(ck@, values(coeffs@), degree_bound, hiding_bound, seed)
            && commitment_decodes(c@) && randomness_sound(rd@)
            && (hiding_bound is None ==> rd@ == empty_randomness(0)),
        (exists|s: usize, h: usize| trimmed_ck(ck@, s, h) && coeffs@.len() <= s + 1)
            && degree_bound is None && hiding_bound is None ==> r is Some,
{
    let ck = ArkCommitterKey::deserialize_unchecked(&ck[..]).ok()?;
    let c = coeffs.iter().map(|v| Fr::from_le_bytes_mod_order(&BigInteger256::new(v.limbs).to_bytes_le())).collect();
    let p = ArkLabeledPolynomial::new(String::new(), DensePolynomial::from_coefficients_vec(c), degree_bound, hiding_bound);
    let (c, r) = Pc::commit(&ck, &[p], Some(&mut StdRng::seed_from_u64(seed))).ok()?;
    let (mut cb, mut rb) = (Vec::new(), Vec::new());
    c[0].commitment().serialize_unchecked(&mut cb).ok()?;
    r[0].serialize_unchecked(&mut rb).ok()?;
    Some((cb, rb))
}

/// Relies on `SonicKZG10::open` for one polynomial at one point (the scheme
/// reads no commitment there). Without hiding it fails only for a degree
/// beyond the key's.
#[verifier::external_body]
pub(crate) fn ark_open(ck: &Vec<u8>, coeffs: &Vec<Fe>, degree_bound: Option<usize>, hiding_bound: Option<usize>, rand: &Vec<u8>, point: Fe) -> (r: Option<Vec<u8>>)
    requires
        exists|s: usize, h: usize| trimmed_ck(ck@, s, h),
        randomness_sound(rand@),
    ensures
        r matches Some(pf) ==> pf@ == kzg_open_of(ck@, values(coeffs@), degree_bound, hiding_bound, rand@, point@) && proof_decodes(pf@),
        (exists|s: usize, h: usize| trimmed_ck(ck@, s, h) && coeffs@.len() <= s + 1)
            && degree_bound is None && rand@ == empty_randomness(0) ==> r is Some,
{
    let ck = ArkCommitterKey::deserialize_unchecked(&ck[..]).ok()?;
    let c = coeffs.iter().map(|v| Fr::from_le_bytes_mod_order(&BigInteger256::new(v.limbs).to_bytes_le())).collect();
    let p = ArkLabeledPolynomial::new(String::new(), DensePolynomial::from_coefficients_vec(c), degree_bound, hiding_bound);
    let rd = ArkRandomness::deserialize_unchecked(&rand[..]).ok()?;
    let x = Fr::from_le_bytes_mod_order(&BigInteger256::new(point.limbs).to_bytes_le());
    let pf = Pc::open(&ck, &[p], &[], &x, Fr::from(1u64), &[rd], None).ok()?;
    let mut b = Vec::new();
    pf.serialize_unchecked(&mut b).ok()?;
    Some(b)
}

/// Relies on `SonicKZG10::check` for one commitment at one point; `None`
/// when the scheme reports an error, which for a key from trim, decodable
/// inputs and no degree bound it does not.
#[verifier::external_body]
pub(crate) fn ark_check(vk: &Vec<u8>, comm: &Vec<u8>, degree_bound: Option<usize>, point: Fe, value: Fe, proof: &Vec<u8>) -> (r: Option<bool>)
    ensures
        r matches Some(b) ==> b == kzg_accepts(vk@, comm@, degree_bound, point@, value@, proof@),
        trimmed_vk(vk@) && commitment_decodes(comm@) && proof_decodes(proof@) && degree_bound is None ==> r is Some,
{
    let vk = ArkVerifierKey::<Bn254>::deserialize_unchecked(&vk[..]).ok()?;
    let lc = ArkLabeledCommitment::new(String::new(), ArkCommitment::<Bn254>::deserialize_unchecked(&comm[..]).ok()?, degree_bound);
    let x = Fr::from_le_bytes_mod_order(&BigInteger256::new(point.limbs).to_bytes_le());
    let y = Fr::from_le_bytes_mod_order(&BigInteger256::new(value.limbs).to_bytes_le());
    let pf = ArkProof::<Bn254>::deserialize_unchecked(&proof[..]).ok()?;
    Pc::check(&vk, &[lc], &x, vec![y], &pf, Fr::from(1u64), None).ok()
}

/// Relies on `kzg10::Commitment::empty`.
#[verifier::external_body]
pub(crate) fn ark_commitment_empty() -> (r: Vec<u8>)
    ensures
        r@ == empty_commitment(0),
        commitment_decodes(r@),
{
    let mut b = Vec::new();
    ArkCommitment::<Bn254>::empty().serialize_unchecked(&mut b).unwrap();
    b
}

/// Relies on `kzg10::Randomness::empty`.
#[verifier::external_body]
pub(crate) fn ark_randomness_empty() -> (r: Vec<u8>)
    ensures
        r@ == empty_randomness(0),
        randomness_sound(r@),
{
    let mut b = Vec::new();
    ArkRandomness::<Fr, DensePolynomial<Fr>>::empty().serialize_unchecked(&mut b).unwrap();
    b
}

/// Relies on `kzg10::Commitment`'s `+= (coef, &c)`: adds `coef * c`.
#[verifier::external_body]
pub(crate) fn ark_commitment_add_scaled(acc: &Vec<u8>, coef: Fe, c: &Vec<u8>) -> (r: Option<Vec<u8>>)
    ensures
        r matches Some(v) ==> v@ == commitment_add_scaled(acc@, coef@, c@) && commitment_decodes(v@),
        commitment_decodes(acc@) && commitment_decodes(c@) ==> r is Some,
{
    let mut a = ArkCommitment::<Bn254>::deserialize_unchecked(&acc[..]).ok()?;
    let c = ArkCommitment::<Bn254>::deserialize_unchecked(&c[..]).ok()?;
    a += (Fr::from_le_bytes_mod_order(&BigInteger256::new(coef.limbs).to_bytes_le()), &c);
    let mut b = Vec::new();
    a.serialize_unchecked(&mut b).ok()?;
    Some(b)
}

/// Relies on `kzg10::Randomness`'s `+= (coef, &r)`: adds `coef * r`. On
/// sound operands ark-poly's scaled addition only reads the degree of
/// non-zero polynomials with a non-zero leading coefficient, and leaves a
/// polynomial that is zero or trimmed, so it does not panic and the result
/// is sound again.
#[verifier::external_body]
pub(crate) fn ark_randomness_add_scaled(acc: &Vec<u8>, coef: Fe, r: &Vec<u8>) -> (res: Option<Vec<u8>>)
    requires
        randomness_sound(acc@),
        randomness_sound(r@),
    ensures
        res is Some,
        res matches Some(v) ==> v@ == randomness_add_scaled(acc@, coef@, r@) && randomness_sound(v@),
{
    let mut a = ArkRandomness::<Fr, DensePolynomial<Fr>>::deserialize_unchecked(&acc[..]).ok()?;
    let r = ArkRandomness::<Fr, DensePolynomial<Fr>>::deserialize_unchecked(&r[..]).ok()?;
    a += (Fr::from_le_bytes_mod_order(&BigInteger256::new(coef.limbs).to_bytes_le()), &r);
    let mut b = Vec::new();
    a.serialize_unchecked(&mut b).ok()?;
    Some(b)
}

} // verus!
