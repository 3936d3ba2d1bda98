//! Dense univariate polynomials over the field, held as coefficient vectors
//! (lowest degree first) and specified by their evaluation.
use vstd::prelude::*;
use crate::field::{fadd, fmul, fpow, fsub, lemma_fmul3, lemma_fmul_distrib, lemma_reduced, modulus, values, Fe};
use ark_bn254::Fr;
use ark_ff::{BigInteger, BigInteger256, PrimeField};
use ark_poly::univariate::DensePolynomial;
use ark_poly::{EvaluationDomain, GeneralEvaluationDomain, Polynomial, UVPolynomial};
use crate::domain::{is_pow2, max_domain_size};

verus! {

/// The value at `x` of the polynomial with coefficients `c` (Horner form).
pub open spec fn poly_eval(c: Seq<nat>, x: nat) -> nat
    decreases c.len(),
{
    if c.len() == 0 {
        0
    } else {
        fadd(c[0], fmul(x, poly_eval(c.drop_first(), x)))
    }
}

/// The value at `x` of a coefficient vector of field elements.
pub open spec fn eval_coeffs(c: Seq<Fe>, x: nat) -> nat {
    poly_eval(values(c), x)
}

/// The vanishing polynomial of a subgroup of size `n`, `X^n - 1`, at `x`.
pub open spec fn vanishing_at(n: nat, x: nat) -> nat {
    fsub(fpow(x, n), 1)
}

/// Coefficient `i` of `c` scaled by `alpha^(i + k)`.
pub open spec fn scaled(c: Seq<nat>, alpha: nat, k: nat) -> Seq<nat> {
    Seq::new(c.len(), |i: int| fmul(c[i], fpow(alpha, (i + k) as nat)))
}

pub proof fn lemma_eval_reduced(c: Seq<nat>, x: nat)
    ensures
        poly_eval(c, x) < modulus(),
    decreases c.len(),
{
    if c.len() > 0 {
        lemma_reduced(c[0], fmul(x, poly_eval(c.drop_first(), x)));
    }
}

proof fn lemma_scaled_eval(c: Seq<nat>, alpha: nat, k: nat, x: nat)
    ensures
        poly_eval(scaled(c, alpha, k), x) == fmul(fpow(alpha, k), poly_eval(c, fmul(alpha, x))),
    decreases c.len(),
{
    let s = scaled(c, alpha, k);
    if c.len() == 0 {
        assert(fmul(fpow(alpha, k), 0) == 0);
    } else {
        let ak = fpow(alpha, k);
        let ax = fmul(alpha, x);
        let e1 = poly_eval(c.drop_first(), ax);
        assert(s.drop_first() =~= scaled(c.drop_first(), alpha, k + 1));
        lemma_scaled_eval(c.drop_first(), alpha, k + 1, x);
        // s = c0 * a^k + x * (a^(k+1) * e1)
        assert(fpow(alpha, k + 1) == fmul(ak, alpha));
        lemma_fmul3(ak, alpha, e1);
        lemma_fmul3(x, (ak * alpha * e1) % modulus(), 1);
        vstd::arithmetic::div_mod::lemma_mul_mod_noop_right(x as int, (ak * alpha * e1) as int, modulus() as int);
        vstd::arithmetic::div_mod::lemma_mul_mod_noop_right(ak as int, (alpha * x * e1) as int, modulus() as int);
        lemma_fmul3(alpha, x, e1);
        assert(x * (ak * alpha * e1) == ak * (alpha * x * e1)) by (nonlinear_arith);
        assert(fmul(x, fmul(fmul(ak, alpha), e1)) == fmul(ak, fmul(ax, e1)));
        lemma_fmul_distrib(ak, c[0], fmul(ax, e1));
        assert(fmul(c[0], ak) == fmul(ak, c[0])) by {
            assert(c[0] * ak == ak * c[0]) by (nonlinear_arith);
        }
    }
}

/// A polynomial's value depends on the point only modulo the prime.
pub proof fn lemma_eval_mod(c: Seq<nat>, x: nat)
    ensures
        poly_eval(c, x % modulus()) == poly_eval(c, x),
    decreases c.len(),
{
    if c.len() > 0 {
        lemma_eval_mod(c.drop_first(), x);
        vstd::arithmetic::div_mod::lemma_mul_mod_noop_left(x as int, poly_eval(c.drop_first(), x) as int, modulus() as int);
    }
}

/// A shift by one leaves the value unchanged.
pub proof fn lemma_unit_shift(p: Seq<Fe>, x: nat)
    ensures
        eval_coeffs(p, fmul(1, x)) == eval_coeffs(p, x),
{
    assert(1 * x == x);
    lemma_eval_mod(values(p), x);
}

/// Scaling coefficient `i` by `alpha^i` turns `p(X)` into `p(alpha * X)`.
pub proof fn lemma_shift_eval(c: Seq<nat>, alpha: nat, x: nat)
    ensures
        poly_eval(scaled(c, alpha, 0), x) == poly_eval(c, fmul(alpha, x)),
{
    lemma_scaled_eval(c, alpha, 0, x);
    lemma_eval_reduced(c, fmul(alpha, x));
    assert(fpow(alpha, 0) == 1);
    assert(1 * poly_eval(c, fmul(alpha, x)) == poly_eval(c, fmul(alpha, x)));
    vstd::arithmetic::div_mod::lemma_small_mod(poly_eval(c, fmul(alpha, x)), modulus());
}

/// Relies on ark-poly's `Polynomial::evaluate` on a dense polynomial.
#[verifier::external_body]
pub(crate) fn ark_evaluate(c: &Vec<Fe>, x: Fe) -> (r: Fe)
    ensures
        r@ == eval_coeffs(c@, x@),
{
    let p = DensePolynomial::from_coefficients_vec(c.iter().map(|v| Fr::from_le_bytes_mod_order(&BigInteger256::new(v.limbs).to_bytes_le())).collect());
    let y = p.evaluate(&Fr::from_le_bytes_mod_order(&BigInteger256::new(x.limbs).to_bytes_le()));
    Fe { limbs: y.into_repr().0 }
}

/// Relies on ark-poly's `+` on dense polynomials.
#[verifier::external_body]
pub(crate) fn ark_poly_add(a: &Vec<Fe>, b: &Vec<Fe>) -> (r: Vec<Fe>)
    ensures
        r@.len() <= a@.len() || r@.len() <= b@.len(),
        forall|x: nat| #[trigger] eval_coeffs(r@, x) == fadd(eval_coeffs(a@, x), eval_coeffs(b@, x)),
{
    let p = DensePolynomial::from_coefficients_vec(a.iter().map(|v| Fr::from_le_bytes_mod_order(&BigInteger256::new(v.limbs).to_bytes_le())).collect());
    let q = DensePolynomial::from_coefficients_vec(b.iter().map(|v| Fr::from_le_bytes_mod_order(&BigInteger256::new(v.limbs).to_bytes_le())).collect());
    (&p + &q).coeffs.iter().map(|v| Fe { limbs: v.into_repr().0 }).collect()
}

/// Relies on ark-poly's `-` on dense polynomials.
#[verifier::external_body]
pub(crate) fn ark_poly_sub(a: &Vec<Fe>, b: &Vec<Fe>) -> (r: Vec<Fe>)
    ensures
        r@.len() <= a@.len() || r@.len() <= b@.len(),
        forall|x: nat| #[trigger] eval_coeffs(r@, x) == fsub(eval_coeffs(a@, x), eval_coeffs(b@, x)),
{
    let p = DensePolynomial::from_coefficients_vec(a.iter().map(|v| Fr::from_le_bytes_mod_order(&BigInteger256::new(v.limbs).to_bytes_le())).collect());
    let q = DensePolynomial::from_coefficients_vec(b.iter().map(|v| Fr::from_le_bytes_mod_order(&BigInteger256::new(v.limbs).to_bytes_le())).collect());
    (&p - &q).coeffs.iter().map(|v| Fe { limbs: v.into_repr().0 }).collect()
}

/// Relies on ark-poly's `*` on dense polynomials, which multiplies by FFT over
/// a domain of `a.len() + b.len()` points (and panics when the field has none).
#[verifier::external_body]
pub(crate) fn ark_poly_mul(a: &Vec<Fe>, b: &Vec<Fe>) -> (r: Vec<Fe>)
    requires
        a@.len() + b@.len() <= max_domain_size(),
    ensures
        r@.len() <= a@.len() + b@.len(),
        forall|x: nat| #[trigger] eval_coeffs(r@, x) == fmul(eval_coeffs(a@, x), eval_coeffs(b@, x)),
{
    let p = DensePolynomial::from_coefficients_vec(a.iter().map(|v| Fr::from_le_bytes_mod_order(&BigInteger256::new(v.limbs).to_bytes_le())).collect());
    let q = DensePolynomial::from_coefficients_vec(b.iter().map(|v| Fr::from_le_bytes_mod_order(&BigInteger256::new(v.limbs).to_bytes_le())).collect());
    (&p * &q).coeffs.iter().map(|v| Fe { limbs: v.into_repr().0 }).collect()
}

/// Relies on ark-poly's `DensePolynomial::naive_mul`, the schoolbook product.
#[verifier::external_body]
pub(crate) fn ark_naive_mul(a: &Vec<Fe>, b: &Vec<Fe>) -> (r: Vec<Fe>)
    ensures
        r@.len() <= a@.len() + b@.len(),
        forall|x: nat| #[trigger] eval_coeffs(r@, x) == fmul(eval_coeffs(a@, x), eval_coeffs(b@, x)),
{
    let p = DensePolynomial::from_coefficients_vec(a.iter().map(|v| Fr::from_le_bytes_mod_order(&BigInteger256::new(v.limbs).to_bytes_le())).collect());
    let q = DensePolynomial::from_coefficients_vec(b.iter().map(|v| Fr::from_le_bytes_mod_order(&BigInteger256::new(v.limbs).to_bytes_le())).collect());
    p.naive_mul(&q).coeffs.iter().map(|v| Fe { limbs: v.into_repr().0 }).collect()
}

/// Relies on ark-poly's `DensePolynomial::divide_by_vanishing_poly`: quotient
/// and remainder of the division by `X^n - 1`, for a subgroup of size `n`.
#[verifier::external_body]
pub(crate) fn ark_divide_by_vanishing(a: &Vec<Fe>, n: usize) -> (r: Option<(Vec<Fe>, Vec<Fe>)>)
    requires
        is_pow2(n as nat),
    ensures
        n <= max_domain_size() ==> r is Some,
        r matches Some((q, rem)) ==> q@.len() <= a@.len(),
        r matches Some((q, rem)) ==> forall|x: nat| #[trigger] eval_coeffs(a@, x) == fadd(
            fmul(eval_coeffs(q@, x), vanishing_at(n as nat, x)),
            eval_coeffs(rem@, x),
        ),
{
    let p = DensePolynomial::from_coefficients_vec(a.iter().map(|v| Fr::from_le_bytes_mod_order(&BigInteger256::new(v.limbs).to_bytes_le())).collect());
    let (q, rem) = p.divide_by_vanishing_poly(GeneralEvaluationDomain::<Fr>::new(n)?)?;
    Some((q.coeffs.iter().map(|v| Fe { limbs: v.into_repr().0 }).collect(), rem.coeffs.iter().map(|v| Fe { limbs: v.into_repr().0 }).collect()))
}

/// The value of the polynomial at `x`.
pub fn evaluate(c: &Vec<Fe>, x: Fe) -> (r: Fe)
    ensures
        r@ == eval_coeffs(c@, x@),
{
    ark_evaluate(c, x)
}

pub fn poly_add(a: &Vec<Fe>, b: &Vec<Fe>) -> (r: Vec<Fe>)
    ensures
        r@.len() <= a@.len() || r@.len() <= b@.len(),
        forall|x: nat| #[trigger] eval_coeffs(r@, x) == fadd(eval_coeffs(a@, x), eval_coeffs(b@, x)),
{
    ark_poly_add(a, b)
}

pub fn poly_sub(a: &Vec<Fe>, b: &Vec<Fe>) -> (r: Vec<Fe>)
    ensures
        r@.len() <= a@.len() || r@.len() <= b@.len(),
        forall|x: nat| #[trigger] eval_coeffs(r@, x) == fsub(eval_coeffs(a@, x), eval_coeffs(b@, x)),
{
    ark_poly_sub(a, b)
}

/// The product, by FFT where the field has a domain large enough and by the
/// schoolbook method otherwise.
pub fn poly_mul(a: &Vec<Fe>, b: &Vec<Fe>) -> (r: Vec<Fe>)
    ensures
        r@.len() <= a@.len() + b@.len(),
        forall|x: nat| #[trigger] eval_coeffs(r@, x) == fmul(eval_coeffs(a@, x), eval_coeffs(b@, x)),
{
    if a.len() <= 268435456 && b.len() <= 268435456 - a.len() {
        ark_poly_mul(a, b)
    } else {
        ark_naive_mul(a, b)
    }
}

/// Quotient and remainder of the division by the vanishing polynomial of a
/// subgroup of size `n`; `None` when the field has no such subgroup.
pub fn divide_by_vanishing(a: &Vec<Fe>, n: usize) -> (r: Option<(Vec<Fe>, Vec<Fe>)>)
    requires
        is_pow2(n as nat),
    ensures
        n <= max_domain_size() ==> r is Some,
        r matches Some((q, rem)) ==> q@.len() <= a@.len(),
        r matches Some((q, rem)) ==> forall|x: nat| #[trigger] eval_coeffs(a@, x) == fadd(
            fmul(eval_coeffs(q@, x), vanishing_at(n as nat, x)),
            eval_coeffs(rem@, x),
        ),
{
    ark_divide_by_vanishing(a, n)
}

/// The constant polynomial `c`.
pub fn constant(c: Fe) -> (r: Vec<Fe>)
    ensures
        r@ == seq![c],
        forall|x: nat| #[trigger] eval_coeffs(r@, x) == c@,
{
    let r = vec![c];
    assert forall|x: nat| #[trigger] eval_coeffs(r@, x) == c@ by {
        let v = values(r@);
        assert(v.drop_first().len() == 0);
        assert(poly_eval(v.drop_first(), x) == 0);
        assert(x * 0 == 0);
        assert(fmul(x, 0) == 0);
        assert(v[0] == c@);
        assert(c@ < modulus());
        vstd::arithmetic::div_mod::lemma_small_mod(c@, modulus());
    }
    r
}

/// The polynomial `X`.
pub fn indeterminate() -> (r: Vec<Fe>)
    ensures
        r@.len() == 2,
        forall|x: nat| #[trigger] eval_coeffs(r@, x) == x % modulus(),
{
    let r = vec![Fe::zero(), Fe::one()];
    assert forall|x: nat| #[trigger] eval_coeffs(r@, x) == x % modulus() by {
        let v = values(r@);
        assert(v.drop_first().drop_first().len() == 0);
        assert(v[1] == 1);
        assert(v[0] == 0);
        assert(poly_eval(v.drop_first().drop_first(), x) == 0);
        assert(x * 0 == 0);
        assert(fmul(x, 0) == 0);
        assert(poly_eval(v.drop_first(), x) == 1);
        assert(fmul(x, 1) == x % modulus());
        vstd::arithmetic::div_mod::lemma_mod_twice(x as int, modulus() as int);
    }
    r
}

/// The polynomial `p(alpha * X)`: coefficient `i` is scaled by `alpha^i`.
pub fn shift_dense_poly(p: &Vec<Fe>, alpha: Fe) -> (r: Vec<Fe>)
    ensures
        r@.len() == p@.len(),
        forall|x: nat| #[trigger] eval_coeffs(r@, x) == eval_coeffs(p@, fmul(alpha@, x)),
{
    let mut r: Vec<Fe> = Vec::new();
    let mut power = Fe::one();
    let mut i: usize = 0;
    while i < p.len()
        invariant
            i <= p@.len(),
            r@.len() == i,
            power@ == fpow(alpha@, i as nat),
            forall|j: int| 0 <= j < i ==> (#[trigger] r@[j])@ == fmul(p@[j]@, fpow(alpha@, j as nat)),
        decreases p@.len() - i,
    {
        r.push(p[i].mul(power));
        power = power.mul(alpha);
        i = i + 1;
    }
    assert forall|x: nat| #[trigger] eval_coeffs(r@, x) == eval_coeffs(p@, fmul(alpha@, x)) by {
        assert(values(r@) =~= scaled(values(p@), alpha@, 0));
        lemma_shift_eval(values(p@), alpha@, x);
    }
    r
}

} // verus!
