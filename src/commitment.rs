//! The additively homomorphic commitment interface that every subprotocol
//! consumes: labeled polynomials and commitments, commit / open / check, and
//! linear combinations of commitments and of hiding randomness.
use vstd::prelude::*;
use crate::error::Error;
use crate::field::{values, Fe};
use crate::kzg::{
    ark_check, ark_commit, ark_commitment_add_scaled, ark_commitment_empty, ark_open,
    ark_randomness_add_scaled, ark_randomness_empty, ark_setup_trim, commitment_add_scaled, commitment_decodes,
    empty_commitment, empty_randomness, keys_of, kzg_accepts, kzg_commit_of, kzg_open_of, opt_view, params_ok, bounds_within,
    proof_decodes, randomness_add_scaled, randomness_sound, trimmed_ck, trimmed_vk,
};

verus! {

/// A committer key, as its canonical serialization, with the parameters it
/// was made with. Only `KZG10::setup` makes one.
#[derive(Debug)]
pub struct CommitterKey {
    bytes: Vec<u8>,
    supported_degree: usize,
    hiding_bound: usize,
}

/// A verifier key, as its canonical serialization. Only `KZG10::setup` makes one.
#[derive(Debug)]
pub struct VerifierKey {
    bytes: Vec<u8>,
}

impl CommitterKey {
    pub closed spec fn spec_bytes(&self) -> Seq<u8> {
        self.bytes@
    }

    /// The largest degree it commits to.
    pub closed spec fn spec_supported_degree(&self) -> nat {
        self.supported_degree as nat
    }

    pub closed spec fn spec_hiding_bound(&self) -> nat {
        self.hiding_bound as nat
    }

    #[verifier::type_invariant]
    spec fn inv(&self) -> bool {
        trimmed_ck(self.bytes@, self.supported_degree, self.hiding_bound)
    }
}

impl VerifierKey {
    pub closed spec fn spec_bytes(&self) -> Seq<u8> {
        self.bytes@
    }

    #[verifier::type_invariant]
    spec fn inv(&self) -> bool {
        trimmed_vk(self.bytes@)
    }
}

/// An element of the commitment group, as its canonical serialization.
#[derive(Clone, Debug, PartialEq, Eq)]
pub struct Commitment {
    pub bytes: Vec<u8>,
}

/// Hiding randomness paired with a commitment, as its canonical
/// serialization. Only commit, `empty_randomness` and combinations make one.
#[derive(Debug)]
pub struct Randomness {
    bytes: Vec<u8>,
}

/// An opening proof, as its canonical serialization.
#[derive(Clone, Debug, PartialEq, Eq)]
pub struct OpeningProof {
    pub bytes: Vec<u8>,
}

/// A polynomial with its label, and optional degree and hiding bounds.
#[derive(Clone, Debug)]
pub struct LabeledPolynomial {
    pub label: String,
    pub coeffs: Vec<Fe>,
    pub degree_bound: Option<usize>,
    pub hiding_bound: Option<usize>,
}

/// A commitment with the label of its polynomial and its degree bound.
#[derive(Clone, Debug)]
pub struct LabeledCommitment {
    pub label: String,
    pub commitment: Commitment,
    pub degree_bound: Option<usize>,
}

/// A term of a linear combination: the constant one, or a polynomial by label.
#[derive(Clone, Debug)]
pub enum LCTerm {
    One,
    PolyLabel(String),
}

/// A labeled linear combination `sum coef_i * term_i`.
#[derive(Clone, Debug)]
pub struct LinearCombination {
    pub label: String,
    pub terms: Vec<(Fe, LCTerm)>,
}

impl Commitment {
    pub fn copy(&self) -> (r: Commitment)
        ensures
            r.bytes@ == self.bytes@,
    {
        Commitment { bytes: self.bytes.clone() }
    }
}

impl Randomness {
    pub closed spec fn spec_bytes(&self) -> Seq<u8> {
        self.bytes@
    }

    #[verifier::type_invariant]
    spec fn inv(&self) -> bool {
        randomness_sound(self.bytes@)
    }

    pub fn copy(&self) -> (r: Randomness)
        ensures
            r.spec_bytes() == self.spec_bytes(),
    {
        proof { use_type_invariant(self); }
        let b = self.bytes.clone();
        assert(b@ =~= self.bytes@);
        Randomness { bytes: b }
    }
}

impl LabeledPolynomial {
    pub fn new(label: String, coeffs: Vec<Fe>, degree_bound: Option<usize>, hiding_bound: Option<usize>) -> (r: LabeledPolynomial)
        ensures
            r.label == label,
            r.coeffs@ == coeffs@,
            r.degree_bound == degree_bound,
            r.hiding_bound == hiding_bound,
    {
        LabeledPolynomial { label, coeffs, degree_bound, hiding_bound }
    }

    pub fn copy(&self) -> (r: LabeledPolynomial)
        ensures
            r.label@ == self.label@,
            r.coeffs@ == self.coeffs@,
            r.degree_bound == self.degree_bound,
            r.hiding_bound == self.hiding_bound,
    {
        let coeffs = self.coeffs.clone();
        assert(coeffs@ =~= self.coeffs@);
        LabeledPolynomial { label: self.label.clone(), coeffs, degree_bound: self.degree_bound, hiding_bound: self.hiding_bound }
    }
}

impl LabeledCommitment {
    pub fn new(label: String, commitment: Commitment, degree_bound: Option<usize>) -> (r: LabeledCommitment)
        ensures
            r.label == label,
            r.commitment == commitment,
            r.degree_bound == degree_bound,
    {
        LabeledCommitment { label, commitment, degree_bound }
    }

    pub fn copy(&self) -> (r: LabeledCommitment)
        ensures
            r.label@ == self.label@,
            r.commitment.bytes@ == self.commitment.bytes@,
            r.degree_bound == self.degree_bound,
    {
        LabeledCommitment { label: self.label.clone(), commitment: self.commitment.copy(), degree_bound: self.degree_bound }
    }
}

/// The index of the first commitment labeled `label`, if any.
pub open spec fn find_label(cs: Seq<LabeledCommitment>, label: Seq<char>) -> Option<int>
    decreases cs.len(),
{
    if cs.len() == 0 {
        None
    } else if cs.last().label@ == label {
        match find_label(cs.drop_last(), label) {
            Some(i) => Some(i),
            None => Some(cs.len() - 1),
        }
    } else {
        find_label(cs.drop_last(), label)
    }
}

/// Whether a term names a label that no commitment carries.
pub open spec fn term_missing(cs: Seq<LabeledCommitment>, t: LCTerm) -> bool {
    match t {
        LCTerm::One => false,
        LCTerm::PolyLabel(l) => find_label(cs, l@) is None,
    }
}

/// The commitment group element that a term stands for.
pub open spec fn term_commitment(cs: Seq<LabeledCommitment>, t: LCTerm) -> Seq<u8> {
    match t {
        LCTerm::One => empty_commitment(0),
        LCTerm::PolyLabel(l) => match find_label(cs, l@) {
            Some(i) => cs[i].commitment.bytes@,
            None => empty_commitment(0),
        },
    }
}

/// The hiding randomness that a term stands for.
pub open spec fn term_randomness(cs: Seq<LabeledCommitment>, rs: Seq<Randomness>, t: LCTerm) -> Seq<u8> {
    match t {
        LCTerm::One => empty_randomness(0),
        LCTerm::PolyLabel(l) => match find_label(cs, l@) {
            Some(i) => rs[i].spec_bytes(),
            None => empty_randomness(0),
        },
    }
}

/// `sum coef_i * c_i` over the first `n` terms, accumulated in order from the
/// neutral element.
pub open spec fn lc_commitment(cs: Seq<LabeledCommitment>, terms: Seq<(Fe, LCTerm)>, n: nat) -> Seq<u8>
    decreases n,
{
    if n == 0 {
        empty_commitment(0)
    } else {
        commitment_add_scaled(lc_commitment(cs, terms, (n - 1) as nat), terms[n - 1].0@, term_commitment(cs, terms[n - 1].1))
    }
}

/// The same combination of the paired randomness.
pub open spec fn lc_randomness(cs: Seq<LabeledCommitment>, rs: Seq<Randomness>, terms: Seq<(Fe, LCTerm)>, n: nat) -> Seq<u8>
    decreases n,
{
    if n == 0 {
        empty_randomness(0)
    } else {
        randomness_add_scaled(lc_randomness(cs, rs, terms, (n - 1) as nat), terms[n - 1].0@, term_randomness(cs, rs, terms[n - 1].1))
    }
}

/// `sum scalars_i * c_i` over the first `n` commitments.
pub open spec fn msm(cs: Seq<Commitment>, scalars: Seq<Fe>, n: nat) -> Seq<u8>
    decreases n,
{
    if n == 0 {
        empty_commitment(0)
    } else {
        commitment_add_scaled(msm(cs, scalars, (n - 1) as nat), scalars[n - 1]@, cs[n - 1].bytes@)
    }
}

/// Some commitment has a degree bound other than the first one's.
pub open spec fn degree_bounds_differ(cs: Seq<LabeledCommitment>) -> bool {
    exists|i: int| 0 <= i < cs.len() && (#[trigger] cs[i]).degree_bound != cs[0].degree_bound
}

/// Some term of the combination names a missing label.
pub open spec fn some_term_missing(cs: Seq<LabeledCommitment>, terms: Seq<(Fe, LCTerm)>) -> bool {
    exists|k: int| 0 <= k < terms.len() && term_missing(cs, (#[trigger] terms[k]).1)
}

/// Every commitment (and randomness) a term names decodes.
pub open spec fn named_decode(cs: Seq<LabeledCommitment>, rs: Seq<Randomness>, terms: Seq<(Fe, LCTerm)>, with_rands: bool) -> bool {
    forall|k: int| 0 <= k < terms.len() ==> {
        &&& commitment_decodes(term_commitment(cs, (#[trigger] terms[k]).1))
    }
}

/// The degree bound of a combination: the commitments' common one.
pub open spec fn common_bound(cs: Seq<LabeledCommitment>) -> Option<usize> {
    if cs.len() == 0 { None } else { cs[0].degree_bound }
}

/// An additively homomorphic polynomial commitment scheme.
pub trait AdditivelyHomomorphicPCS {
    /// The linear combination of the provided commitments. Fails with
    /// `MismatchedDegreeBounds` exactly when their degree bounds differ, else
    /// with `MissingCommitment` exactly when a term names an absent label;
    /// otherwise it succeeds whenever the named commitments decode.
    fn get_commitments_lc(commitments: &Vec<LabeledCommitment>, lc: &LinearCombination) -> (r: Result<LabeledCommitment, Error>)
        ensures
            (r matches Err(e) && e is MismatchedDegreeBounds) <==> degree_bounds_differ(commitments@),
            (r matches Err(e) && e is MissingCommitment) <==> (!degree_bounds_differ(commitments@)
                && some_term_missing(commitments@, lc.terms@)),
            r matches Err(e) ==> (e is MismatchedDegreeBounds || e is MissingCommitment || e is PCError),
            !degree_bounds_differ(commitments@) && !some_term_missing(commitments@, lc.terms@)
                && named_decode(commitments@, Seq::empty(), lc.terms@, false) ==> r is Ok,
            r matches Ok(c) ==> {
                &&& c.label == lc.label
                &&& c.degree_bound == common_bound(commitments@)
                &&& c.commitment.bytes@ == lc_commitment(commitments@, lc.terms@, lc.terms@.len() as nat)
            },
    ;

    /// The linear combination of the provided commitments and, alike, of the
    /// randomness paired with them one to one. Fails first with
    /// `InputLengthError` exactly when the two lists differ in length, then as
    /// `get_commitments_lc` does.
    fn get_commitments_lc_with_rands(
        commitments: &Vec<LabeledCommitment>,
        hiding_rands: &Vec<Randomness>,
        lc: &LinearCombination,
    ) -> (r: Result<(LabeledCommitment, Randomness), Error>)
        ensures
            (r matches Err(e) && e is InputLengthError) <==> commitments@.len() != hiding_rands@.len(),
            (r matches Err(e) && e is MismatchedDegreeBounds) <==> (commitments@.len() == hiding_rands@.len()
                && degree_bounds_differ(commitments@)),
            (r matches Err(e) && e is MissingCommitment) <==> (commitments@.len() == hiding_rands@.len()
                && !degree_bounds_differ(commitments@) && some_term_missing(commitments@, lc.terms@)),
            r matches Err(e) ==> (e is InputLengthError || e is MismatchedDegreeBounds || e is MissingCommitment || e is PCError),
            commitments@.len() == hiding_rands@.len() && !degree_bounds_differ(commitments@)
                && !some_term_missing(commitments@, lc.terms@)
                && named_decode(commitments@, hiding_rands@, lc.terms@, true) ==> r is Ok,
            r matches Ok((c, rand)) ==> {
                &&& c.label == lc.label
                &&& c.degree_bound == common_bound(commitments@)
                &&& c.commitment.bytes@ == lc_commitment(commitments@, lc.terms@, lc.terms@.len() as nat)
                &&& rand.spec_bytes() == lc_randomness(commitments@, hiding_rands@, lc.terms@, lc.terms@.len() as nat)
            },
    ;
}

/// The seed `seed + i`, wrapping around at 2^64.
pub open spec fn seed_at(seed: u64, i: int) -> u64 {
    if seed + i <= u64::MAX { (seed + i) as u64 } else { (seed + i - 18446744073709551616) as u64 }
}

/// The polynomial fits the key: degree within the key's, no degree bound,
/// and no hiding.
pub open spec fn fits_key(ck: &CommitterKey, p: LabeledPolynomial) -> bool {
    &&& p.coeffs@.len() <= ck.spec_supported_degree() + 1
    &&& p.degree_bound is None
    &&& p.hiding_bound is None
}

/// Whether the enforced degree bounds lie within the supported degree, and
/// the supported degree within a positive maximum.
fn check_params(max_degree: usize, supported_degree: usize, enforced: &Option<Vec<usize>>) -> (r: bool)
    ensures
        r == (1 <= max_degree && supported_degree <= max_degree && bounds_within(opt_view(*enforced), supported_degree)),
{
    if max_degree < 1 || supported_degree > max_degree {
        return false;
    }
    match enforced {
        Some(e) => {
            assert(opt_view(*enforced) == Some(e@));
            let mut i: usize = 0;
            while i < e.len()
                invariant
                    i <= e@.len(),
                    opt_view(*enforced) == Some(e@),
                    forall|j: int| 0 <= j < i ==> #[trigger] e@[j] <= supported_degree,
                decreases e@.len() - i,
            {
                if e[i] > supported_degree {
                    assert(e@[i as int] > supported_degree);
                    assert(!(forall|j: int| 0 <= j < e@.len() ==> #[trigger] e@[j] <= supported_degree));
                    assert(!bounds_within(Some(e@), supported_degree));
                    assert(!bounds_within(opt_view(*enforced), supported_degree));
                    return false;
                }
                i = i + 1;
            }
            true
        },
        None => true,
    }
}

/// The Sonic-style KZG scheme over BN254.
pub struct KZG10 {}

fn check_degree_bounds(commitments: &Vec<LabeledCommitment>) -> (r: Result<Option<usize>, Error>)
    ensures
        r is Err <==> degree_bounds_differ(commitments@),
        r matches Err(e) ==> e is MismatchedDegreeBounds,
        r matches Ok(b) ==> b == common_bound(commitments@),
{
    if commitments.len() == 0 {
        return Ok(None);
    }
    let degree_bound = commitments[0].degree_bound;
    let mut i: usize = 0;
    while i < commitments.len()
        invariant
            i <= commitments@.len(),
            commitments@.len() > 0,
            degree_bound == commitments@[0].degree_bound,
            forall|j: int| 0 <= j < i ==> (#[trigger] commitments@[j]).degree_bound == degree_bound,
        decreases commitments@.len() - i,
    {
        if commitments[i].degree_bound != degree_bound {
            return Err(Error::MismatchedDegreeBounds("commitments with different degree bounds cannot be combined".to_string()));
        }
        i = i + 1;
    }
    Ok(degree_bound)
}

/// Fails with `MissingCommitment` exactly when a term names an absent label.
fn check_labels(commitments: &Vec<LabeledCommitment>, lc: &LinearCombination) -> (r: Result<(), Error>)
    ensures
        r is Err <==> some_term_missing(commitments@, lc.terms@),
        r matches Err(e) ==> e is MissingCommitment,
{
    let mut k: usize = 0;
    while k < lc.terms.len()
        invariant
            k <= lc.terms@.len(),
            forall|j: int| 0 <= j < k ==> !term_missing(commitments@, (#[trigger] lc.terms@[j]).1),
        decreases lc.terms@.len() - k,
    {
        if let LCTerm::PolyLabel(label) = &lc.terms[k].1 {
            if find_commitment(commitments, label).is_none() {
                assert(term_missing(commitments@, lc.terms@[k as int].1));
                return Err(Error::MissingCommitment("a term's label names no commitment".to_string()));
            }
        }
        k = k + 1;
    }
    Ok(())
}

/// The index of the first commitment labeled `label`.
fn find_commitment(commitments: &Vec<LabeledCommitment>, label: &String) -> (r: Option<usize>)
    ensures
        r matches Some(i) ==> find_label(commitments@, label@) == Some(i as int),
        r is None <==> find_label(commitments@, label@) is None,
{
    let mut i: usize = 0;
    while i < commitments.len()
        invariant
            i <= commitments@.len(),
            find_label(commitments@.subrange(0, i as int), label@) is None,
        decreases commitments@.len() - i,
    {
        if commitments[i].label == *label {
            proof { lemma_find_first(commitments@, label@, i as int); }
            return Some(i);
        }
        proof {
            assert(commitments@.subrange(0, i + 1).drop_last() =~= commitments@.subrange(0, i as int));
        }
        i = i + 1;
    }
    assert(commitments@.subrange(0, commitments@.len() as int) =~= commitments@);
    None
}

/// A label missing from a prefix but present at the next index is first found there.
proof fn lemma_find_first(cs: Seq<LabeledCommitment>, label: Seq<char>, i: int)
    requires
        0 <= i < cs.len(),
        find_label(cs.subrange(0, i), label) is None,
        cs[i].label@ == label,
    ensures
        find_label(cs, label) == Some(i),
    decreases cs.len(),
{
    if i < cs.len() - 1 {
        let d = cs.drop_last();
        assert(d.subrange(0, i) =~= cs.subrange(0, i));
        lemma_find_first(d, label, i);
    } else {
        assert(cs.drop_last() =~= cs.subrange(0, i));
    }
}

proof fn lemma_find_label_bound(cs: Seq<LabeledCommitment>, label: Seq<char>)
    ensures
        find_label(cs, label) matches Some(i) ==> 0 <= i < cs.len() && cs[i].label@ == label,
    decreases cs.len(),
{
    if cs.len() > 0 {
        lemma_find_label_bound(cs.drop_last(), label);
    }
}

impl AdditivelyHomomorphicPCS for KZG10 {
    fn get_commitments_lc(commitments: &Vec<LabeledCommitment>, lc: &LinearCombination) -> (r: Result<LabeledCommitment, Error>) {
        let degree_bound = check_degree_bounds(commitments)?;
        check_labels(commitments, lc)?;
        let mut aggregate = ark_commitment_empty();
        let mut k: usize = 0;
        while k < lc.terms.len()
            invariant
                k <= lc.terms@.len(),
                !degree_bounds_differ(commitments@),
                !some_term_missing(commitments@, lc.terms@),
                degree_bound == common_bound(commitments@),
                aggregate@ == lc_commitment(commitments@, lc.terms@, k as nat),
                named_decode(commitments@, Seq::empty(), lc.terms@, false) ==> commitment_decodes(aggregate@),
            decreases lc.terms@.len() - k,
        {
            let coef = lc.terms[k].0;
            let commitment = match &lc.terms[k].1 {
                LCTerm::PolyLabel(label) => match find_commitment(commitments, label) {
                    Some(i) => {
                        proof { lemma_find_label_bound(commitments@, label@); }
                        commitments[i].commitment.bytes.clone()
                    },
                    None => {
                        proof { assert(term_missing(commitments@, lc.terms@[k as int].1)); }
                        return Err(Error::MissingCommitment("a term's label names no commitment".to_string()));
                    },
                },
                LCTerm::One => ark_commitment_empty(),
            };
            proof {
                if named_decode(commitments@, Seq::empty(), lc.terms@, false) {
                    assert(commitment_decodes(term_commitment(commitments@, lc.terms@[k as int].1)));
                }
            }
            aggregate = match ark_commitment_add_scaled(&aggregate, coef, &commitment) {
                Some(a) => a,
                None => {
                    return Err(Error::PCError("a named commitment does not decode".to_string()));
                },
            };
            k = k + 1;
        }
        Ok(LabeledCommitment { label: lc.label.clone(), commitment: Commitment { bytes: aggregate }, degree_bound })
    }

    fn get_commitments_lc_with_rands(
        commitments: &Vec<LabeledCommitment>,
        hiding_rands: &Vec<Randomness>,
        lc: &LinearCombination,
    ) -> (r: Result<(LabeledCommitment, Randomness), Error>) {
        if commitments.len() != hiding_rands.len() {
            return Err(Error::InputLengthError("commitments and randomness values differ in number".to_string()));
        }
        let degree_bound = check_degree_bounds(commitments)?;
        check_labels(commitments, lc)?;
        let mut aggregate_commitment = ark_commitment_empty();
        let mut aggregate_randomness = ark_randomness_empty();
        let mut k: usize = 0;
        while k < lc.terms.len()
            invariant
                k <= lc.terms@.len(),
                commitments@.len() == hiding_rands@.len(),
                !degree_bounds_differ(commitments@),
                !some_term_missing(commitments@, lc.terms@),
                degree_bound == common_bound(commitments@),
                aggregate_commitment@ == lc_commitment(commitments@, lc.terms@, k as nat),
                aggregate_randomness@ == lc_randomness(commitments@, hiding_rands@, lc.terms@, k as nat),
                named_decode(commitments@, hiding_rands@, lc.terms@, true) ==> commitment_decodes(aggregate_commitment@),
                randomness_sound(aggregate_randomness@),
            decreases lc.terms@.len() - k,
        {
            let coef = lc.terms[k].0;
            let (comm, rand) = match &lc.terms[k].1 {
                LCTerm::PolyLabel(label) => match find_commitment(commitments, label) {
                    Some(i) => {
                        proof { lemma_find_label_bound(commitments@, label@); }
                        let ri = &hiding_rands[i];
                        proof { use_type_invariant(ri); }
                        let rb = ri.bytes.clone();
                        assert(rb@ =~= ri.bytes@);
                        (commitments[i].commitment.bytes.clone(), rb)
                    },
                    None => {
                        proof { assert(term_missing(commitments@, lc.terms@[k as int].1)); }
                        return Err(Error::MissingCommitment("a term's label names no commitment".to_string()));
                    },
                },
                LCTerm::One => (ark_commitment_empty(), ark_randomness_empty()),
            };
            proof {
                if named_decode(commitments@, hiding_rands@, lc.terms@, true) {
                    assert(commitment_decodes(term_commitment(commitments@, lc.terms@[k as int].1)));
                }
            }
            aggregate_commitment = match ark_commitment_add_scaled(&aggregate_commitment, coef, &comm) {
                Some(a) => a,
                None => {
                    return Err(Error::PCError("a named commitment does not decode".to_string()));
                },
            };
            aggregate_randomness = match ark_randomness_add_scaled(&aggregate_randomness, coef, &rand) {
                Some(a) => a,
                None => {
                    return Err(Error::PCError("randomness arithmetic failed".to_string()));
                },
            };
            k = k + 1;
        }
        Ok((
            LabeledCommitment { label: lc.label.clone(), commitment: Commitment { bytes: aggregate_commitment }, degree_bound },
            Randomness { bytes: aggregate_randomness },
        ))
    }
}

impl KZG10 {
    /// Samples public parameters for degree up to `max_degree` from an rng
    /// seeded by `seed`, and trims them to committer and verifier keys.
    /// Fails with `PCError` exactly when the parameters do not fit: a zero
    /// maximum degree, a supported degree or hiding bound above it, or an
    /// enforced degree bound above the supported degree.
    pub fn setup(
        max_degree: usize,
        supported_degree: usize,
        hiding_bound: usize,
        enforced_degree_bounds: &Option<Vec<usize>>,
        seed: u64,
    ) -> (r: Result<(CommitterKey, VerifierKey), Error>)
        ensures
            r is Ok <==> params_ok(max_degree, supported_degree, hiding_bound, opt_view(*enforced_degree_bounds)),
            r matches Err(e) ==> e is PCError,
            r matches Ok((ck, vk)) ==> {
                &&& (ck.spec_bytes(), vk.spec_bytes())
                    == keys_of(max_degree, supported_degree, hiding_bound, opt_view(*enforced_degree_bounds), seed)
                &&& ck.spec_supported_degree() == supported_degree
                &&& ck.spec_hiding_bound() == hiding_bound
            },
    {
        if hiding_bound > max_degree {
            return Err(Error::PCError("the hiding bound exceeds the maximum degree".to_string()));
        }
        let ok = check_params(max_degree, supported_degree, enforced_degree_bounds);
        match ark_setup_trim(max_degree, supported_degree, hiding_bound, enforced_degree_bounds, seed) {
            Some((ck, vk)) => {
                if !ok {
                    return Err(Error::PCError("setup or trim refused the parameters".to_string()));
                }
                proof {
                    assert(params_ok(max_degree, supported_degree, hiding_bound, opt_view(*enforced_degree_bounds)));
                    assert(keys_of(max_degree, supported_degree, hiding_bound, opt_view(*enforced_degree_bounds), seed).0 == ck@);
                    assert(keys_of(max_degree, supported_degree, hiding_bound, opt_view(*enforced_degree_bounds), seed).1 == vk@);
                }
                Ok((CommitterKey { bytes: ck, supported_degree, hiding_bound }, VerifierKey { bytes: vk }))
            },
            None => Err(Error::PCError("setup or trim refused the parameters".to_string())),
        }
    }

    /// Commits to each polynomial; the commitments keep the polynomials'
    /// labels and degree bounds, in order, and each is the scheme's
    /// commitment with hiding randomness from an rng seeded by `seed + i`
    /// (wrapping). Succeeds when every polynomial fits the key's degree, has
    /// no degree bound and no hiding; fails only with `PCError`.
    pub fn commit(ck: &CommitterKey, polynomials: &Vec<LabeledPolynomial>, seed: u64) -> (r: Result<(Vec<LabeledCommitment>, Vec<Randomness>), Error>)
        ensures
            r matches Err(e) ==> e is PCError,
            (forall|i: int| 0 <= i < polynomials@.len() ==> #[trigger] fits_key(ck, polynomials@[i])) ==> r is Ok,
            r matches Ok((cs, rs)) ==> {
                &&& cs@.len() == polynomials@.len()
                &&& rs@.len() == polynomials@.len()
                &&& forall|i: int| 0 <= i < cs@.len() ==> {
                    &&& (#[trigger] cs@[i]).label == polynomials@[i].label
                    &&& cs@[i].degree_bound == polynomials@[i].degree_bound
                    &&& (cs@[i].commitment.bytes@, rs@[i].spec_bytes()) == kzg_commit_of(ck.spec_bytes(),
                        values(polynomials@[i].coeffs@), polynomials@[i].degree_bound, polynomials@[i].hiding_bound,
                        seed_at(seed, i))
                    &&& commitment_decodes(cs@[i].commitment.bytes@)
                    &&& randomness_sound(rs@[i].spec_bytes())
                    &&& (polynomials@[i].hiding_bound is None ==> rs@[i].spec_bytes() == empty_randomness(0))
                }
            },
    {
        proof { use_type_invariant(ck); }
        let mut cs: Vec<LabeledCommitment> = Vec::new();
        let mut rs: Vec<Randomness> = Vec::new();
        let mut i: usize = 0;
        while i < polynomials.len()
            invariant
                i <= polynomials@.len(),
                trimmed_ck(ck.bytes@, ck.supported_degree, ck.hiding_bound),
                cs@.len() == i,
                rs@.len() == i,
                forall|j: int| 0 <= j < i ==> {
                    &&& (#[trigger] cs@[j]).label == polynomials@[j].label
                    &&& cs@[j].degree_bound == polynomials@[j].degree_bound
                    &&& (cs@[j].commitment.bytes@, rs@[j].spec_bytes()) == kzg_commit_of(ck.bytes@,
                        values(polynomials@[j].coeffs@), polynomials@[j].degree_bound, polynomials@[j].hiding_bound,
                        seed_at(seed, j))
                    &&& commitment_decodes(cs@[j].commitment.bytes@)
                    &&& randomness_sound(rs@[j].spec_bytes())
                    &&& (polynomials@[j].hiding_bound is None ==> rs@[j].spec_bytes() == empty_randomness(0))
                },
            decreases polynomials@.len() - i,
        {
            let p = &polynomials[i];
            let k = i as u64;
            let s = if k <= u64::MAX - seed { seed + k } else { k - (u64::MAX - seed) - 1 };
            assert(s == seed_at(seed, i as int));
            if let Some(hb) = p.hiding_bound {
                if hb == usize::MAX {
                    assert(!fits_key(ck, polynomials@[i as int]));
                    return Err(Error::PCError("the hiding bound is too large".to_string()));
                }
            }
            match ark_commit(&ck.bytes, &p.coeffs, p.degree_bound, p.hiding_bound, s) {
                Some((c, rand)) => {
                    cs.push(LabeledCommitment { label: p.label.clone(), commitment: Commitment { bytes: c }, degree_bound: p.degree_bound });
                    rs.push(Randomness { bytes: rand });
                },
                None => {
                    proof {
                        assert(!fits_key(ck, polynomials@[i as int]));
                    }
                    return Err(Error::PCError("commit failed".to_string()));
                },
            }
            i = i + 1;
        }
        Ok((cs, rs))
    }

    /// A proof that the polynomial, committed with randomness `rand`, takes
    /// its value at `point`: the scheme's opening. Succeeds for a polynomial
    /// that fits the key's degree, has no degree bound and hides nothing.
    pub fn open(
        ck: &CommitterKey,
        polynomial: &LabeledPolynomial,
        rand: &Randomness,
        point: Fe,
    ) -> (r: Result<OpeningProof, Error>)
        ensures
            r matches Err(e) ==> e is PCError,
            polynomial.coeffs@.len() <= ck.spec_supported_degree() + 1 && polynomial.degree_bound is None
                && rand.spec_bytes() == empty_randomness(0) ==> r is Ok,
            r matches Ok(pf) ==> pf.bytes@ == kzg_open_of(ck.spec_bytes(), values(polynomial.coeffs@),
                polynomial.degree_bound, polynomial.hiding_bound, rand.spec_bytes(), point@) && proof_decodes(pf.bytes@),
    {
        proof { use_type_invariant(ck); }
        proof { use_type_invariant(rand); }
        match ark_open(&ck.bytes, &polynomial.coeffs, polynomial.degree_bound, polynomial.hiding_bound, &rand.bytes, point) {
            Some(b) => Ok(OpeningProof { bytes: b }),
            None => Err(Error::PCError("open failed".to_string())),
        }
    }

    /// Whether `proof` opens the commitment to `value` at `point`. Answers
    /// for every decodable commitment and proof without a degree bound.
    pub fn check(vk: &VerifierKey, commitment: &LabeledCommitment, point: Fe, value: Fe, proof: &OpeningProof) -> (r: Result<bool, Error>)
        ensures
            r matches Err(e) ==> e is PCError,
            commitment_decodes(commitment.commitment.bytes@) && proof_decodes(proof.bytes@)
                && commitment.degree_bound is None ==> r is Ok,
            r matches Ok(b) ==> b == kzg_accepts(vk.spec_bytes(), commitment.commitment.bytes@, commitment.degree_bound, point@, value@, proof.bytes@),
    {
        proof { use_type_invariant(vk); }
        match ark_check(&vk.bytes, &commitment.commitment.bytes, commitment.degree_bound, point, value, &proof.bytes) {
            Some(b) => Ok(b),
            None => Err(Error::PCError("check failed".to_string())),
        }
    }

    /// The randomness of a commitment that hides nothing.
    pub fn empty_randomness() -> (r: Randomness)
        ensures
            r.spec_bytes() == empty_randomness(0),
    {
        Randomness { bytes: ark_randomness_empty() }
    }

    /// The unlabeled combination `sum scalars_i * commitments_i`.
    pub fn multi_scalar_mul(commitments: &Vec<Commitment>, scalars: &Vec<Fe>) -> (r: Result<Commitment, Error>)
        ensures
            (r matches Err(e) && e is InputLengthError) <==> commitments@.len() != scalars@.len(),
            r matches Err(e) ==> (e is InputLengthError || e is PCError),
            commitments@.len() == scalars@.len()
                && (forall|i: int| 0 <= i < commitments@.len() ==> commitment_decodes((#[trigger] commitments@[i]).bytes@)) ==> r is Ok,
            r matches Ok(c) ==> c.bytes@ == msm(commitments@, scalars@, commitments@.len() as nat) && commitment_decodes(c.bytes@),
    {
        if commitments.len() != scalars.len() {
            return Err(Error::InputLengthError("commitments and scalars differ in number".to_string()));
        }
        let mut acc = ark_commitment_empty();
        let mut i: usize = 0;
        while i < commitments.len()
            invariant
                i <= commitments@.len(),
                commitments@.len() == scalars@.len(),
                acc@ == msm(commitments@, scalars@, i as nat),
                commitment_decodes(acc@),
            decreases commitments@.len() - i,
        {
            acc = match ark_commitment_add_scaled(&acc, scalars[i], &commitments[i].bytes) {
                Some(a) => a,
                None => {
                    return Err(Error::PCError("commitment arithmetic failed".to_string()));
                },
            };
            i = i + 1;
        }
        Ok(Commitment { bytes: acc })
    }
}

} // verus!
