//! The t-strictly-lower-triangular test: a sparse |H| x |H| matrix whose
//! non-zero entries are listed by the oracles `row` and `col` over K (each
//! value an element of H naming a row or a column) has all of them at rows
//! `r >= t` and columns `c < r`.
use vstd::prelude::*;
use vstd::string::StrSliceExecFns;
use crate::commitment::{fits_key, seed_at, Commitment, CommitterKey, LabeledCommitment, LabeledPolynomial, VerifierKey, KZG10};
use crate::discrete_log_comparison::{completeness_holds, dl_accepted, dl_decodes, dl_geo_accepted, dl_key_fits, dlog, dlog_less_at, dlog_less_on, proof_message, DLComparison};
use crate::domain::Domain;
use crate::error::Error;
use crate::field::{values, Fe};
use crate::kzg::kzg_commit_of;
use crate::geo_seq::{generate_sequence, GeoSeqTest};
use crate::poly::{constant, eval_coeffs};
use crate::transcript::Transcript;

verus! {

/// A t-strictly-lower-triangular proof.
#[derive(Clone, Debug)]
pub struct Proof {
    /// Commitment to h: `omega^t, ..., omega^(|H|-1)` on K, padded with zeros.
    pub h_commit: Commitment,
    pub dl_proof: crate::discrete_log_comparison::Proof,
    pub geo_seq_proof: crate::geo_seq::Proof,
    /// For `t > 0`: that `dlog(row) > t - 1` everywhere on K, as a comparison
    /// of the constant `omega^(t-1)` against `row`.
    pub row_floor_proof: Option<crate::discrete_log_comparison::Proof>,
}

/// The domain tag `t-Strictly Lower Triangular Test`.
pub open spec fn protocol_name() -> Seq<u8> {
    "t-Strictly Lower Triangular Test"@.map_values(|c: char| c as u8)
}

/// Every row value is `omega^r` with `t <= r < |H|`.
pub open spec fn rows_from(row: Seq<Fe>, k: Domain, h: Domain, t: nat) -> bool {
    forall|j: nat| j < k.spec_size() ==> #[trigger] row_from_at(row, k, h, t, j)
}

/// The row value at the `j`-th element of K is `omega^r` with `t <= r < |H|`.
pub open spec fn row_from_at(row: Seq<Fe>, k: Domain, h: Domain, t: nat, j: nat) -> bool {
    exists|r: nat| #![trigger h.elem(r)] t <= r < h.spec_size() && eval_coeffs(row, k.elem(j)) == h.elem(r)
}

/// The parameters fit: `t <= |H| <= |K|`.
pub open spec fn params_fit(t: nat, k: Domain, h: Domain) -> bool {
    t <= h.spec_size() && h.spec_size() <= k.spec_size()
}

/// The messages a proof contributes after the domain tag: the row-floor
/// comparison's, if any, then the column-row comparison's.
pub open spec fn proof_messages(p: Proof) -> Seq<Seq<u8>> {
    match p.row_floor_proof {
        Some(q) => seq![proof_message(q), proof_message(p.dl_proof)],
        None => seq![proof_message(p.dl_proof)],
    }
}

/// The run lengths of h: `|H| - t`, then the padding up to `|K|` if any.
pub open spec fn slt_run_lengths(t: nat, k: Domain, h: Domain) -> Seq<usize> {
    if k.spec_size() > h.spec_size() - t {
        seq![(h.spec_size() - t) as usize, (k.spec_size() - (h.spec_size() - t)) as usize]
    } else {
        seq![(h.spec_size() - t) as usize]
    }
}

/// The initial values of h's runs: `omega^t`, then zero for the padding.
pub open spec fn slt_run_values(t: nat, k: Domain, h: Domain) -> Seq<nat> {
    if k.spec_size() > h.spec_size() - t { seq![h.elem(t), 0nat] } else { seq![h.elem(t)] }
}

/// The commitment to the constant `omega^(t-1)`.
pub open spec fn floor_commitment(ck: Seq<u8>, h: Domain, t: nat) -> Seq<u8> {
    kzg_commit_of(ck, seq![h.elem((t - 1) as nat)], None, None, 0).0
}

/// The row-floor part of an accepted proof: for `t > 0` the comparison of
/// `omega^(t-1)` against `row` accepts; for `t = 0` there is none.
pub open spec fn floor_accepted(t: nat, fp: Option<crate::discrete_log_comparison::Proof>, k: Domain, h: Domain,
    row: Seq<u8>, row_db: Option<usize>, ck: Seq<u8>, vk: Seq<u8>) -> bool {
    if t > 0 {
        fp matches Some(q) && dl_accepted(q, floor_commitment(ck, h, t), None, row, row_db, k, ck, vk)
            && dl_geo_accepted(q, k, h, vk)
    } else {
        fp is None
    }
}

/// What an accepted t-strictly-lower-triangular proof shows: the row-floor
/// comparison, the column-row comparison and h's geometric test accept.
pub open spec fn slt_accepted(t: nat, p: Proof, k: Domain, h: Domain, row: Seq<u8>, row_db: Option<usize>,
    col: Seq<u8>, col_db: Option<usize>, ck: Seq<u8>, vk: Seq<u8>) -> bool {
    &&& floor_accepted(t, p.row_floor_proof, k, h, row, row_db, ck, vk)
    &&& dl_accepted(p.dl_proof, col, col_db, row, row_db, k, ck, vk)
    &&& dl_geo_accepted(p.dl_proof, k, h, vk)
    &&& exists|a: Seq<Fe>| #[trigger] values(a) == slt_run_values(t, k, h)
        && crate::geo_seq::geo_accepted(h.elem(1), a, slt_run_lengths(t, k, h), k, p.h_commit.bytes@, None, p.geo_seq_proof, vk)
}

/// Every commitment and proof the verifier reads decodes.
pub open spec fn slt_decodes(t: nat, p: Proof, h: Domain, row: Seq<u8>, col: Seq<u8>, ck: Seq<u8>) -> bool {
    &&& dl_decodes(p.dl_proof, col, row, ck)
    &&& (t > 0 ==> (p.row_floor_proof matches Some(q) ==> dl_decodes(q, floor_commitment(ck, h, t), row, ck)))
    &&& crate::geo_seq::geo_decodes(p.h_commit.bytes@, p.geo_seq_proof)
}

pub struct TStrictlyLowerTriangular {}

/// Checks, for `t > 0`, the comparison of `omega^(t-1)` against `row`.
fn verify_row_floor(
    vk: &VerifierKey,
    ck: &CommitterKey,
    t: usize,
    domain_k: &Domain,
    domain_h: &Domain,
    row_commit: &LabeledCommitment,
    floor_proof: &Option<crate::discrete_log_comparison::Proof>,
    transcript: &mut Transcript,
) -> (r: Result<(), Error>)
    requires
        domain_k.wf(),
        domain_h.wf(),
        params_fit(t as nat, *domain_k, *domain_h),
    ensures
        !(r matches Err(e) && e is T2Large),
        final(transcript).spec_seed() == old(transcript).spec_seed(),
        r is Ok ==> (t > 0 <==> floor_proof is Some),
        r is Ok ==> floor_accepted(t as nat, *floor_proof, *domain_k, *domain_h, row_commit.commitment.bytes@,
            row_commit.degree_bound, ck.spec_bytes(), vk.spec_bytes()),
        floor_accepted(t as nat, *floor_proof, *domain_k, *domain_h, row_commit.commitment.bytes@,
            row_commit.degree_bound, ck.spec_bytes(), vk.spec_bytes())
            && (exists|v: nat| v < crate::field::modulus() && #[trigger] crate::field::fmul(v, v) == domain_h.elem(1))
            && row_commit.degree_bound is None
            && (t > 0 ==> (*floor_proof matches Some(q) ==> dl_decodes(q, floor_commitment(ck.spec_bytes(), *domain_h, t as nat),
                row_commit.commitment.bytes@, ck.spec_bytes()))) ==> r is Ok,
        r is Ok ==> final(transcript).spec_absorbed() == old(transcript).spec_absorbed() + match *floor_proof {
            Some(q) => seq![proof_message(q)],
            None => Seq::<Seq<u8>>::empty(),
        },
{
    if t > 0 {
        match floor_proof {
            Some(q) => {
                let floor_value = domain_h.element((t - 1) as u64);
                let floor = LabeledPolynomial::new("row_floor".to_string(), constant(floor_value), None, None);
                let floors = vec![floor];
                proof {
                    assert(fits_key(ck, floors@[0]));
                    assert(values(floors@[0].coeffs@) =~= seq![domain_h.elem((t - 1) as nat)]);
                }
                let (floor_commits, _) = KZG10::commit(ck, &floors, 0)?;
                proof {
                    assert(floor_commits@[0].label == floors@[0].label);
                    assert(seed_at(0, 0) == 0);
                }
                let ghost before = transcript.spec_absorbed();
                let r = DLComparison::verify(vk, ck, domain_k, domain_h, &floor_commits[0], row_commit, q, transcript);
                proof {
                    if r is Ok {
                        assert(transcript.spec_absorbed() =~= before + seq![proof_message(*q)]);
                    }
                }
                r
            },
            None => Err(Error::InputLengthError("the proof lacks the row range comparison".to_string())),
        }
    } else if floor_proof.is_some() {
        Err(Error::InputLengthError("no row range comparison is expected for t = 0".to_string()))
    } else {
        assert(transcript.spec_absorbed() =~= transcript.spec_absorbed() + Seq::<Seq<u8>>::empty());
        Ok(())
    }
}

/// Absorbs the domain tag.
fn absorb_name(transcript: &mut Transcript)
    ensures
        final(transcript).spec_seed() == old(transcript).spec_seed(),
        final(transcript).spec_absorbed() == old(transcript).spec_absorbed().push(protocol_name()),
{
    let tag = "t-Strictly Lower Triangular Test";
    let msg = tag.as_bytes_vec();
    proof {
        reveal_strlit("t-Strictly Lower Triangular Test");
        assert(vstd::string::is_ascii(tag));
        vstd::string::is_ascii_spec_bytes(tag);
        assert(msg@ =~= protocol_name());
    }
    transcript.absorb(&msg);
}

/// The run layout of h: `|H| - t` powers of omega from `omega^t`, then zeros up to `|K|`.
fn h_runs(t: usize, k: &Domain, h: &Domain) -> (r: Result<(Vec<Fe>, Vec<usize>), Error>)
    ensures
        (r matches Err(e) && e is T2Large) <==> !params_fit(t as nat, *k, *h),
        r matches Err(e) ==> e is T2Large,
        r matches Ok((a_s, c_s)) ==> a_s@.len() == c_s@.len() && crate::geo_seq::total(c_s@) == k.spec_size() && c_s@.len() <= 2
            && c_s@ == slt_run_lengths(t as nat, *k, *h) && values(a_s@) == slt_run_values(t as nat, *k, *h),
{
    if t > h.size() || h.size() > k.size() {
        return Err(Error::T2Large);
    }
    let run = h.size() - t;
    let mut a_s = vec![h.element(t as u64)];
    let mut c_s = vec![run];
    let to_pad = k.size() - run;
    proof {
        assert(c_s@.drop_last() =~= Seq::<usize>::empty());
        assert(crate::geo_seq::total(c_s@.drop_last()) == 0);
        assert(crate::geo_seq::total(c_s@) == run);
    }
    if to_pad > 0 {
        a_s.push(Fe::zero());
        c_s.push(to_pad);
        proof {
            assert(c_s@.drop_last() =~= seq![run]);
            assert(c_s@.drop_last().drop_last() =~= Seq::<usize>::empty());
            assert(crate::geo_seq::total(c_s@.drop_last().drop_last()) == 0);
            assert(crate::geo_seq::total(c_s@.drop_last()) == run);
        }
    }
    proof {
        assert(c_s@ =~= slt_run_lengths(t as nat, *k, *h));
        assert(values(a_s@) =~= slt_run_values(t as nat, *k, *h));
    }
    Ok((a_s, c_s))
}

/// Whether every row value is a power `omega^r` with `r >= t`.
fn check_rows_from(row: &Vec<Fe>, k: &Domain, h: &Domain, t: usize) -> (ok: bool)
    requires
        k.wf(),
        h.wf(),
    ensures
        ok <==> rows_from(row@, *k, *h, t as nat),
{
    let evals = k.evaluations_of(row);
    let mut j: usize = 0;
    while j < k.size()
        invariant
            j <= k.spec_size(),
            h.wf(),
            evals@.len() == k.spec_size(),
            forall|i: int| 0 <= i < k.spec_size() ==> (#[trigger] evals@[i])@ == eval_coeffs(row@, k.elem(i as nat)),
            forall|i: nat| i < j ==> #[trigger] row_from_at(row@, *k, *h, t as nat, i),
        decreases k.spec_size() - j,
    {
        match dlog(h, evals[j]) {
            Some(r) => {
                if (r as usize) < t {
                    proof {
                        if row_from_at(row@, *k, *h, t as nat, j as nat) {
                            let r2 = choose|r2: nat| #![trigger h.elem(r2)] t <= r2 < h.spec_size()
                                && eval_coeffs(row@, k.elem(j as nat)) == h.elem(r2);
                            h.lemma_elem_injective(r as nat, r2);
                        }
                    }
                    return false;
                }
                assert(eval_coeffs(row@, k.elem(j as nat)) == h.elem(r as nat));
            },
            None => {
                proof {
                    if row_from_at(row@, *k, *h, t as nat, j as nat) {
                        let r2 = choose|r2: nat| #![trigger h.elem(r2)] t <= r2 < h.spec_size()
                            && eval_coeffs(row@, k.elem(j as nat)) == h.elem(r2);
                        assert(h.elem(r2) != evals@[j as int]@);
                    }
                }
                return false;
            },
        }
        j = j + 1;
    }
    true
}

impl TStrictlyLowerTriangular {
    /// Proves that the matrix encoded by `row` and `col` over K is strictly
    /// lower triangular below row t: every row value is `omega^r` with
    /// `t <= r`, and the column's discrete log is below the row's. Fails with
    /// `T2Large` exactly when `t > |H|` or `|H| > |K|`, and with
    /// `Check1Failed` when a row lies above row t or outside H; failures of
    /// the nested tests pass through unchanged.
    #[verifier::spinoff_prover]
    #[verifier::rlimit(100)]
    pub fn prove(
        ck: &CommitterKey,
        t: usize,
        domain_k: &Domain,
        domain_h: &Domain,
        row_poly: &LabeledPolynomial,
        col_poly: &LabeledPolynomial,
        row_commit: &LabeledCommitment,
        col_commit: &LabeledCommitment,
        transcript: &mut Transcript,
        seed: u64,
    ) -> (r: Result<Proof, Error>)
        requires
            domain_k.wf(),
            domain_h.wf(),
        ensures
            (r matches Err(e) && e is T2Large) <==> !params_fit(t as nat, *domain_k, *domain_h),
            final(transcript).spec_seed() == old(transcript).spec_seed(),
            r matches Ok(p) ==> final(transcript).spec_absorbed()
                == old(transcript).spec_absorbed().push(protocol_name()) + proof_messages(p),
            r is Ok ==> {
                &&& rows_from(row_poly.coeffs@, *domain_k, *domain_h, t as nat)
                &&& dlog_less_on(col_poly.coeffs@, row_poly.coeffs@, *domain_k, *domain_h)
            },
            params_fit(t as nat, *domain_k, *domain_h) && rows_from(row_poly.coeffs@, *domain_k, *domain_h, t as nat)
                && completeness_holds(col_poly.coeffs@, row_poly.coeffs@, *domain_k, *domain_h)
                && dl_key_fits(ck, col_poly, row_poly, *domain_k) ==> r is Ok,
            params_fit(t as nat, *domain_k, *domain_h) && rows_from(row_poly.coeffs@, *domain_k, *domain_h, t as nat)
                && (exists|v: nat| v < crate::field::modulus() && #[trigger] crate::field::fmul(v, v) == domain_h.elem(1))
                && dl_key_fits(ck, col_poly, row_poly, *domain_k)
                && !dlog_less_on(col_poly.coeffs@, row_poly.coeffs@, *domain_k, *domain_h)
                ==> (r matches Err(e) && e is FEvalIsZero),
    {
        let ghost fits = params_fit(t as nat, *domain_k, *domain_h) && rows_from(row_poly.coeffs@, *domain_k, *domain_h, t as nat)
            && (exists|v: nat| v < crate::field::modulus() && #[trigger] crate::field::fmul(v, v) == domain_h.elem(1))
            && dl_key_fits(ck, col_poly, row_poly, *domain_k);
        absorb_name(transcript);
        let r = domain_h.element(1);
        let (a_s, c_s) = h_runs(t, domain_k, domain_h)?;

        // Step 1: interpolate h and commit to it.
        let seq = generate_sequence(r, &a_s, &c_s);
        proof { crate::geo_seq::lemma_geo_seq_len(r@, crate::field::values(a_s@), c_s@); }
        let h = LabeledPolynomial::new("h".to_string(), domain_k.ifft(&seq), None, None);
        let h_polys = vec![h.copy()];
        proof {
            if fits {
                assert(fits_key(ck, h_polys@[0]));
            }
        }
        let (commitments, rands) = KZG10::commit(ck, &h_polys, seed)?;
        proof {
            if fits {
                assert(commitments@[0].label == h_polys@[0].label);
                assert(crate::geo_seq::h_fits(ck, &h, &rands@[0], domain_k.spec_size(), c_s@.len()));
            }
        }
        proof {
            assert forall|j: nat| j < domain_k.spec_size() implies #[trigger] eval_coeffs(h.coeffs@, domain_k.elem(j))
                == crate::geo_seq::geo_seq(r@, crate::field::values(a_s@), c_s@)[j as int] by {
                assert(eval_coeffs(h.coeffs@, domain_k.elem((j as int) as nat)) == seq@[j as int]@);
            }
        }

        // Step 2: the geometric sequence test on h.
        let geo_seq_proof = GeoSeqTest::prove(ck, r, &h, &commitments[0], &rands[0], &a_s, &c_s, domain_k, seed)?;

        // Step 3: every row value lies in h's image, shown by comparing the
        // constant omega^(t-1) against the rows.
        if !check_rows_from(&row_poly.coeffs, domain_k, domain_h, t) {
            return Err(Error::Check1Failed);
        }
        let row_floor_proof = if t > 0 {
            let floor_value = domain_h.element((t - 1) as u64);
            let floor = LabeledPolynomial::new("row_floor".to_string(), constant(floor_value), None, None);
            let floor_polys = vec![floor.copy()];
            proof {
                if fits {
                    assert(fits_key(ck, floor_polys@[0]));
                    assert forall|j: nat| j < domain_k.spec_size() implies
                        #[trigger] dlog_less_at(floor.coeffs@, row_poly.coeffs@, *domain_k, *domain_h, j) by {
                        assert(row_from_at(row_poly.coeffs@, *domain_k, *domain_h, t as nat, j));
                        let rr = choose|rr: nat| #![trigger domain_h.elem(rr)] t <= rr < domain_h.spec_size()
                            && eval_coeffs(row_poly.coeffs@, domain_k.elem(j)) == domain_h.elem(rr);
                        assert(eval_coeffs(floor.coeffs@, domain_k.elem(j)) == domain_h.elem((t - 1) as nat));
                    }
                    assert(completeness_holds(floor.coeffs@, row_poly.coeffs@, *domain_k, *domain_h));
                    assert(dl_key_fits(ck, &floor, row_poly, *domain_k));
                }
            }
            let (floor_commits, _) = KZG10::commit(ck, &floor_polys, seed)?;
            Some(DLComparison::prove(ck, domain_k, domain_h, &floor, row_poly, &floor_commits[0], row_commit, transcript, seed)?)
        } else {
            None
        };

        // Step 4: the column's discrete log is below the row's.
        let dl_proof = DLComparison::prove(ck, domain_k, domain_h, col_poly, row_poly, col_commit, row_commit, transcript, seed)?;

        Ok(Proof { h_commit: commitments[0].commitment.copy(), dl_proof, geo_seq_proof, row_floor_proof })
    }

    /// Checks a t-strictly-lower-triangular proof for the commitments to
    /// `row` and `col`: for `t > 0` the comparison of `omega^(t-1)` against
    /// `row` (every row index is at least t), the comparison of `col` against
    /// `row`, and the geometric test on h. Nested failures pass through.
    #[verifier::rlimit(100)]
    #[verifier::spinoff_prover]
    pub fn verify(
        vk: &VerifierKey,
        ck: &CommitterKey,
        t: usize,
        domain_k: &Domain,
        domain_h: &Domain,
        row_commit: &LabeledCommitment,
        col_commit: &LabeledCommitment,
        proof: &Proof,
        transcript: &mut Transcript,
    ) -> (r: Result<(), Error>)
        requires
            domain_k.wf(),
            domain_h.wf(),
        ensures
            (r matches Err(e) && e is T2Large) <==> !params_fit(t as nat, *domain_k, *domain_h),
            final(transcript).spec_seed() == old(transcript).spec_seed(),
            r is Ok ==> final(transcript).spec_absorbed()
                == old(transcript).spec_absorbed().push(protocol_name()) + proof_messages(*proof),
            r is Ok ==> slt_accepted(t as nat, *proof, *domain_k, *domain_h, row_commit.commitment.bytes@, row_commit.degree_bound,
                col_commit.commitment.bytes@, col_commit.degree_bound, ck.spec_bytes(), vk.spec_bytes()),
            params_fit(t as nat, *domain_k, *domain_h)
                && (exists|v: nat| v < crate::field::modulus() && #[trigger] crate::field::fmul(v, v) == domain_h.elem(1))
                && row_commit.degree_bound is None && col_commit.degree_bound is None
                && slt_accepted(t as nat, *proof, *domain_k, *domain_h, row_commit.commitment.bytes@, row_commit.degree_bound,
                    col_commit.commitment.bytes@, col_commit.degree_bound, ck.spec_bytes(), vk.spec_bytes())
                && slt_decodes(t as nat, *proof, *domain_h, row_commit.commitment.bytes@, col_commit.commitment.bytes@, ck.spec_bytes())
                ==> r is Ok,
            r is Ok ==> (t > 0 <==> proof.row_floor_proof is Some),
    {
        absorb_name(transcript);
        let (a_s, c_s) = h_runs(t, domain_k, domain_h)?;
        // The rows lie at or below row t.
        verify_row_floor(vk, ck, t, domain_k, domain_h, row_commit, &proof.row_floor_proof, transcript)?;
        // The column's discrete log is below the row's.
        DLComparison::verify(vk, ck, domain_k, domain_h, col_commit, row_commit, &proof.dl_proof, transcript)?;
        // h is the geometric sequence of the rows' range.
        let h_commit = LabeledCommitment::new("h".to_string(), proof.h_commit.copy(), None);
        let omega = domain_h.element(1);
        proof {
            if slt_accepted(t as nat, *proof, *domain_k, *domain_h, row_commit.commitment.bytes@, row_commit.degree_bound,
                col_commit.commitment.bytes@, col_commit.degree_bound, ck.spec_bytes(), vk.spec_bytes()) {
                let a = choose|a: Seq<Fe>| #[trigger] values(a) == slt_run_values(t as nat, *domain_k, *domain_h)
                    && crate::geo_seq::geo_accepted(domain_h.elem(1), a, slt_run_lengths(t as nat, *domain_k, *domain_h), *domain_k,
                        proof.h_commit.bytes@, None, proof.geo_seq_proof, vk.spec_bytes());
                crate::geo_seq::lemma_geo_accepted_values(omega@, a, a_s@, c_s@, *domain_k, proof.h_commit.bytes@, None,
                    proof.geo_seq_proof, vk.spec_bytes());
            }
        }
        GeoSeqTest::verify(omega, &a_s, &c_s, domain_k, &h_commit, &proof.geo_seq_proof, vk)?;
        Ok(())
    }
}

} // verus!
