//! Multiplicative subgroups of the field of power-of-two size, with their FFTs.
use vstd::prelude::*;
use crate::field::{fmul, fpow, fsub, Fe};
use crate::poly::{eval_coeffs, evaluate};
use ark_bn254::Fr;
use ark_ff::{BigInteger, BigInteger256, PrimeField};
use ark_poly::{EvaluationDomain, GeneralEvaluationDomain};

verus! {

/// The largest subgroup size: the field's two-adicity is 28.
pub open spec fn max_domain_size() -> nat {
    268435456
}

pub open spec fn is_pow2(n: nat) -> bool
    decreases n,
{
    if n <= 1 {
        n == 1
    } else {
        n % 2 == 0 && is_pow2(n / 2)
    }
}

/// The generator that the field's FFT domains of size `size` use.
pub uninterp spec fn domain_generator(size: nat) -> nat;

/// The size the FFT domain for `n` coefficients takes: the least power of two
/// not below `n`.
pub open spec fn domain_size_for(n: nat, size: nat) -> bool {
    &&& is_pow2(size)
    &&& size >= n
    &&& (size == 1 || size / 2 < n)
}

/// Relies on ark-poly's `GeneralEvaluationDomain::new` and `element(1)`: the
/// domain's size and generator, a primitive root of unity of that order.
#[verifier::external_body]
pub(crate) fn ark_domain(n: usize) -> (r: Option<(usize, Fe)>)
    requires
        n <= max_domain_size(),
    ensures
        r is None <==> n > max_domain_size(),
        r matches Some((s, g)) ==> {
            &&& domain_size_for(n as nat, s as nat)
            &&& s <= max_domain_size()
            &&& g@ == domain_generator(s as nat)
            &&& fpow(g@, s as nat) == 1
            &&& forall|i: nat| 0 < i < s ==> #[trigger] fpow(g@, i) != 1
        },
{
    let d = GeneralEvaluationDomain::<Fr>::new(n)?;
    Some((d.size(), Fe { limbs: d.element(1).into_repr().0 }))
}

/// Relies on ark-poly's `EvaluationDomain::fft`: the evaluations of a
/// polynomial of at most `size` coefficients at the domain's elements.
#[verifier::external_body]
pub(crate) fn ark_fft(size: usize, coeffs: &Vec<Fe>) -> (r: Vec<Fe>)
    requires
        is_pow2(size as nat),
        size <= max_domain_size(),
        coeffs@.len() <= size,
    ensures
        r@.len() == size,
        forall|i: int| 0 <= i < size ==> (#[trigger] r@[i])@ == eval_coeffs(coeffs@, fpow(domain_generator(size as nat), i as nat)),
{
    let d = GeneralEvaluationDomain::<Fr>::new(size).unwrap();
    let c: Vec<Fr> = coeffs.iter().map(|v| Fr::from_le_bytes_mod_order(&BigInteger256::new(v.limbs).to_bytes_le())).collect();
    d.fft(&c).iter().map(|v| Fe { limbs: v.into_repr().0 }).collect()
}

/// Relies on ark-poly's `EvaluationDomain::ifft`: the coefficients of the
/// polynomial of degree below `size` that takes the given values on the domain.
#[verifier::external_body]
pub(crate) fn ark_ifft(size: usize, evals: &Vec<Fe>) -> (r: Vec<Fe>)
    requires
        is_pow2(size as nat),
        size <= max_domain_size(),
        evals@.len() == size,
    ensures
        r@.len() == size,
        forall|i: int| 0 <= i < size ==> eval_coeffs(r@, fpow(domain_generator(size as nat), i as nat)) == (#[trigger] evals@[i])@,
{
    let d = GeneralEvaluationDomain::<Fr>::new(size).unwrap();
    let e: Vec<Fr> = evals.iter().map(|v| Fr::from_le_bytes_mod_order(&BigInteger256::new(v.limbs).to_bytes_le())).collect();
    d.ifft(&e).iter().map(|v| Fe { limbs: v.into_repr().0 }).collect()
}

/// A multiplicative subgroup `{1, g, g^2, ..., g^(size-1)}`.
#[derive(Clone, Copy, Debug)]
pub struct Domain {
    size: usize,
    generator: Fe,
}

impl Domain {
    pub closed spec fn spec_size(self) -> nat {
        self.size as nat
    }

    pub closed spec fn spec_gen(self) -> nat {
        self.generator@
    }

    /// The generator is a reduced field value.
    pub proof fn lemma_gen_reduced(self)
        ensures
            self.spec_gen() < crate::field::modulus(),
    {
        vstd::arithmetic::div_mod::lemma_mod_bound(self.generator.raw() as int, crate::field::modulus() as int);
    }

    /// Elements at distinct indices below the size are distinct.
    pub proof fn lemma_elem_injective(self, x: nat, y: nat)
        requires
            self.wf(),
            x < y < self.spec_size(),
        ensures
            self.elem(x) != self.elem(y),
    {
        let g = self.spec_gen();
        let n = self.spec_size();
        self.lemma_gen_reduced();
        let u = fpow(g, x);
        let uinv = fpow(g, (n - x) as nat);
        let w = fpow(g, (y - x) as nat);
        crate::field::lemma_fpow_add(g, x, (n - x) as nat);
        assert(x + (n - x) as nat == n);
        assert(fmul(u, uinv) == 1);
        crate::field::lemma_fpow_add(g, x, (y - x) as nat);
        assert(x + (y - x) as nat == y);
        if u == fpow(g, y) {
            crate::field::lemma_fpow_reduced(g, (y - x) as nat);
            crate::field::lemma_fmul_comm(u, w);
            crate::field::lemma_cancel(w, u, uinv);
            assert(w == 1);
            let k = (y - x) as nat;
            assert(0 < k && k < n);
        }
    }

    /// The `i`-th element of the subgroup.
    pub open spec fn elem(self, i: nat) -> nat {
        fpow(self.spec_gen(), i)
    }

    pub open spec fn wf(self) -> bool {
        &&& is_pow2(self.spec_size())
        &&& self.spec_size() <= max_domain_size()
        &&& self.spec_gen() == domain_generator(self.spec_size())
        &&& fpow(self.spec_gen(), self.spec_size()) == 1
        &&& forall|i: nat| 0 < i < self.spec_size() ==> #[trigger] fpow(self.spec_gen(), i) != 1
    }

    /// The subgroup for polynomials of `n` coefficients: its size is the least
    /// power of two not below `n`. `None` when the field has no such subgroup.
    pub fn new(n: usize) -> (r: Option<Domain>)
        ensures
            r is None <==> n > max_domain_size(),
            r matches Some(d) ==> d.wf() && domain_size_for(n as nat, d.spec_size()),
    {
        if n > 268435456 {
            return None;
        }
        match ark_domain(n) {
            Some((size, generator)) => Some(Domain { size, generator }),
            None => None,
        }
    }

    pub fn size(&self) -> (r: usize)
        ensures
            r == self.spec_size(),
    {
        self.size
    }

    pub fn generator(&self) -> (r: Fe)
        ensures
            r@ == self.spec_gen(),
    {
        self.generator
    }

    /// The `i`-th element, `g^i`.
    pub fn element(&self, i: u64) -> (r: Fe)
        ensures
            r@ == self.elem(i as nat),
    {
        self.generator.pow(i)
    }

    /// The vanishing polynomial `X^size - 1` at `x`.
    pub fn evaluate_vanishing_polynomial(&self, x: Fe) -> (r: Fe)
        ensures
            r@ == fsub(fpow(x@, self.spec_size()), 1),
    {
        x.pow(self.size as u64).sub(Fe::one())
    }

    /// The evaluations on the subgroup of a polynomial with at most `size` coefficients.
    pub fn fft(&self, coeffs: &Vec<Fe>) -> (r: Vec<Fe>)
        requires
            self.wf(),
            coeffs@.len() <= self.spec_size(),
        ensures
            r@.len() == self.spec_size(),
            forall|i: int| 0 <= i < self.spec_size() ==> (#[trigger] r@[i])@ == eval_coeffs(coeffs@, self.elem(i as nat)),
    {
        ark_fft(self.size, coeffs)
    }

    /// The coefficients of the polynomial of degree below `size` that takes the given values.
    pub fn ifft(&self, evals: &Vec<Fe>) -> (r: Vec<Fe>)
        requires
            self.wf(),
            evals@.len() == self.spec_size(),
        ensures
            r@.len() == self.spec_size(),
            forall|i: int| 0 <= i < self.spec_size() ==> eval_coeffs(r@, self.elem(i as nat)) == (#[trigger] evals@[i])@,
    {
        ark_ifft(self.size, evals)
    }

    /// The evaluations of a polynomial on the domain: by FFT when it has at most
    /// `|K|` coefficients, else point by point.
    pub fn evaluations_of(&self, coeffs: &Vec<Fe>) -> (r: Vec<Fe>)
        requires
            self.wf(),
        ensures
            r@.len() == self.spec_size(),
            forall|i: int| 0 <= i < self.spec_size() ==> (#[trigger] r@[i])@ == eval_coeffs(coeffs@, self.elem(i as nat)),
    {
        if coeffs.len() <= self.size() {
            return self.fft(coeffs);
        }
        let mut r: Vec<Fe> = Vec::new();
        let mut i: usize = 0;
        while i < self.size()
            invariant
                i <= self.spec_size(),
                r@.len() == i,
                forall|j: int| 0 <= j < i ==> (#[trigger] r@[j])@ == eval_coeffs(coeffs@, self.elem(j as nat)),
            decreases self.spec_size() - i,
        {
            r.push(evaluate(coeffs, self.element(i as u64)));
            i = i + 1;
        }
        r
    }
}

} // verus!
