//! Elements of the BN254 scalar field, held as four little-endian 64-bit limbs
//! and read modulo the field's prime.
use vstd::prelude::*;
use vstd::arithmetic::div_mod::{lemma_add_mod_noop, lemma_mul_mod_noop_left, lemma_mul_mod_noop_right};
use ark_bn254::Fr;
use ark_ff::{BigInteger, BigInteger256, Field, PrimeField, SquareRootField};

verus! {

/// The prime order of the BN254 scalar field.
pub open spec fn modulus() -> nat {
    21888242871839275222246405745257275088548364400416034343698204186575808495617nat
}

pub open spec fn two64() -> nat {
    18446744073709551616nat
}

/// Sum in the field.
pub open spec fn fadd(a: nat, b: nat) -> nat {
    (a + b) % modulus()
}

/// Difference in the field.
pub open spec fn fsub(a: nat, b: nat) -> nat {
    ((a + modulus()) - (b % modulus())) as nat % modulus()
}

/// Product in the field.
pub open spec fn fmul(a: nat, b: nat) -> nat {
    (a * b) % modulus()
}

/// Additive inverse in the field.
pub open spec fn fneg(a: nat) -> nat {
    fsub(0, a)
}

/// `a` raised to the `n`-th power in the field.
pub open spec fn fpow(a: nat, n: nat) -> nat
    decreases n,
{
    if n == 0 {
        1
    } else {
        fmul(fpow(a, (n - 1) as nat), a)
    }
}


/// Field multiplication read as one integer product.
pub proof fn lemma_fmul3(a: nat, b: nat, c: nat)
    ensures
        fmul(fmul(a, b), c) == (a * b * c) % modulus(),
        fmul(a, fmul(b, c)) == (a * b * c) % modulus(),
{
    lemma_mul_mod_noop_left((a * b) as int, c as int, modulus() as int);
    lemma_mul_mod_noop_right(a as int, (b * c) as int, modulus() as int);
    assert(a * (b * c) == a * b * c) by (nonlinear_arith);
}

/// Multiplication distributes over addition in the field.
pub proof fn lemma_fmul_distrib(a: nat, b: nat, c: nat)
    ensures
        fmul(a, fadd(b, c)) == fadd(fmul(a, b), fmul(a, c)),
{
    lemma_mul_mod_noop_right(a as int, (b + c) as int, modulus() as int);
    lemma_add_mod_noop((a * b) as int, (a * c) as int, modulus() as int);
    assert(a * (b + c) == a * b + a * c) by (nonlinear_arith);
}

/// A difference of reduced values is zero only when they are equal.
pub proof fn lemma_fsub_zero(a: nat, b: nat)
    requires
        a < modulus(),
        b < modulus(),
        fsub(a, b) == 0,
    ensures
        a == b,
{
    vstd::arithmetic::div_mod::lemma_small_mod(b, modulus());
    if a >= b {
        vstd::arithmetic::div_mod::lemma_mod_add_multiples_vanish((a - b) as int, modulus() as int);
        vstd::arithmetic::div_mod::lemma_small_mod((a - b) as nat, modulus());
    } else {
        vstd::arithmetic::div_mod::lemma_small_mod((a + modulus() - b) as nat, modulus());
    }
}

/// Powers are reduced.
pub proof fn lemma_fpow_reduced(a: nat, n: nat)
    ensures
        fpow(a, n) < modulus(),
{
    if n > 0 {
        lemma_reduced(fpow(a, (n - 1) as nat), a);
    }
}

pub proof fn lemma_fmul_comm(a: nat, b: nat)
    ensures
        fmul(a, b) == fmul(b, a),
{
    assert(a * b == b * a) by (nonlinear_arith);
}

/// One is the unit of multiplication on reduced values.
pub proof fn lemma_fmul_one(a: nat)
    requires
        a < modulus(),
    ensures
        fmul(a, 1) == a,
        fmul(1, a) == a,
{
    assert(a * 1 == a && 1 * a == a);
    vstd::arithmetic::div_mod::lemma_small_mod(a, modulus());
}

/// A product of four, in any grouping, is the integer product reduced.
pub proof fn lemma_fmul4(x: nat, y: nat, z: nat, w: nat)
    ensures
        fmul(fmul(x, y), fmul(z, w)) == (x * y * z * w) % modulus(),
{
    let p = modulus() as int;
    lemma_mul_mod_noop_left((x * y) as int, (fmul(z, w)) as int, p);
    lemma_mul_mod_noop_right((x * y) as int, (z * w) as int, p);
    assert(x * y * (z * w) == x * y * z * w) by (nonlinear_arith);
}

/// Multiplying by `w` and then by its inverse gives back `u`.
pub proof fn lemma_cancel(u: nat, w: nat, winv: nat)
    requires
        u < modulus(),
        fmul(w, winv) == 1,
    ensures
        fmul(fmul(u, w), winv) == u,
{
    lemma_fmul3(u, w, winv);
    lemma_fmul_one(u);
}

pub proof fn lemma_fpow_add(a: nat, i: nat, j: nat)
    ensures
        fpow(a, i + j) == fmul(fpow(a, i), fpow(a, j)),
    decreases j,
{
    lemma_fpow_reduced(a, i);
    if j == 0 {
        lemma_fmul_one(fpow(a, i));
    } else {
        lemma_fpow_add(a, i, (j - 1) as nat);
        assert(fpow(a, i + j) == fmul(fpow(a, (i + j - 1) as nat), a));
        assert((i + j - 1) as nat == i + (j - 1) as nat);
        lemma_fmul3(fpow(a, i), fpow(a, (j - 1) as nat), a);
    }
}

/// `a^i b^i = (a b)^i`.
pub proof fn lemma_fpow_mul_base(a: nat, b: nat, i: nat)
    ensures
        fmul(fpow(a, i), fpow(b, i)) == fpow(fmul(a, b), i),
    decreases i,
{
    if i == 0 {
        lemma_fmul_one(1);
    } else {
        let x = fpow(a, (i - 1) as nat);
        let y = fpow(b, (i - 1) as nat);
        lemma_fpow_mul_base(a, b, (i - 1) as nat);
        lemma_fmul4(x, a, y, b);
        lemma_fmul4(x, y, a, b);
        // fmul(fmul(x, a), fmul(y, b)) and fmul(fmul(x, y), fmul(a, b)) are the same product
        assert(x * a * y * b == x * y * a * b) by (nonlinear_arith);
        // the grouping fmul(fmul(x, y), fmul(a, b)) reads fpow(ab, i - 1) * ab
        lemma_mul_mod_noop_left((x * y) as int, fmul(a, b) as int, modulus() as int);
    }
}

/// The powers of an invertible element are not zero.
pub proof fn lemma_fpow_nonzero(a: nat, ainv: nat, i: nat)
    requires
        a < modulus(),
        fmul(a, ainv) == 1,
    ensures
        fpow(a, i) != 0,
    decreases i,
{
    if i > 0 {
        let u = fpow(a, (i - 1) as nat);
        lemma_fpow_nonzero(a, ainv, (i - 1) as nat);
        lemma_fpow_reduced(a, (i - 1) as nat);
        lemma_cancel(u, a, ainv);
        if fpow(a, i) == 0 {
            assert(fmul(0, ainv) == 0);
        }
    }
}

/// Field results are reduced.
pub proof fn lemma_reduced(a: nat, b: nat)
    ensures
        fmul(a, b) < modulus(),
        fadd(a, b) < modulus(),
        fsub(a, b) < modulus(),
{
}

/// A field element. Any four limbs are a valid element; their value is read
/// modulo the prime, and the results of arithmetic are always reduced.
#[derive(Clone, Copy, Debug)]
pub struct Fe {
    pub limbs: [u64; 4],
}

impl Fe {
    /// The integer that the limbs spell, before reduction.
    pub open spec fn raw(self) -> nat {
        self.limbs[0] as nat + two64() * (self.limbs[1] as nat + two64() * (
        self.limbs[2] as nat + two64() * self.limbs[3] as nat))
    }
}

impl View for Fe {
    type V = nat;

    open spec fn view(&self) -> nat {
        self.raw() % modulus()
    }
}

/// The values of a sequence of field elements.
pub open spec fn values(s: Seq<Fe>) -> Seq<nat> {
    s.map_values(|x: Fe| x@)
}

/// Relies on ark-ff's `Fr::from_le_bytes_mod_order` and `into_repr` for `+`
/// on the BN254 scalar field.
#[verifier::external_body]
pub(crate) fn ark_add(a: Fe, b: Fe) -> (r: Fe)
    ensures
        r@ == fadd(a@, b@),
{
    let x = Fr::from_le_bytes_mod_order(&BigInteger256::new(a.limbs).to_bytes_le());
    let y = Fr::from_le_bytes_mod_order(&BigInteger256::new(b.limbs).to_bytes_le());
    Fe { limbs: (x + y).into_repr().0 }
}

/// Relies on ark-ff's `-` on the BN254 scalar field.
#[verifier::external_body]
pub(crate) fn ark_sub(a: Fe, b: Fe) -> (r: Fe)
    ensures
        r@ == fsub(a@, b@),
{
    let x = Fr::from_le_bytes_mod_order(&BigInteger256::new(a.limbs).to_bytes_le());
    let y = Fr::from_le_bytes_mod_order(&BigInteger256::new(b.limbs).to_bytes_le());
    Fe { limbs: (x - y).into_repr().0 }
}

/// Relies on ark-ff's `*` on the BN254 scalar field.
#[verifier::external_body]
pub(crate) fn ark_mul(a: Fe, b: Fe) -> (r: Fe)
    ensures
        r@ == fmul(a@, b@),
{
    let x = Fr::from_le_bytes_mod_order(&BigInteger256::new(a.limbs).to_bytes_le());
    let y = Fr::from_le_bytes_mod_order(&BigInteger256::new(b.limbs).to_bytes_le());
    Fe { limbs: (x * y).into_repr().0 }
}

/// Relies on ark-ff's `Field::inverse`: `None` for zero, else the element
/// whose product with the argument is one.
#[verifier::external_body]
pub(crate) fn ark_inverse(a: Fe) -> (r: Option<Fe>)
    ensures
        r is None <==> a@ == 0,
        r matches Some(v) ==> fmul(v@, a@) == 1,
{
    let x = Fr::from_le_bytes_mod_order(&BigInteger256::new(a.limbs).to_bytes_le());
    x.inverse().map(|v| Fe { limbs: v.into_repr().0 })
}

/// The square root that ark-ff's Tonelli–Shanks `sqrt` picks for `a`.
pub uninterp spec fn sqrt_of(a: nat) -> nat;

/// Relies on ark-ff's `Field::sqrt`: a square root when one exists, always
/// the same one for the same value.
#[verifier::external_body]
pub(crate) fn ark_sqrt(a: Fe) -> (r: Option<Fe>)
    ensures
        r matches Some(v) ==> fmul(v@, v@) == a@ && v@ == sqrt_of(a@),
        r is None ==> forall|v: nat| v < modulus() ==> #[trigger] fmul(v, v) != a@,
{
    let x = Fr::from_le_bytes_mod_order(&BigInteger256::new(a.limbs).to_bytes_le());
    x.sqrt().map(|v| Fe { limbs: v.into_repr().0 })
}

/// Relies on ark-ff's `==` on the BN254 scalar field, which compares values.
#[verifier::external_body]
pub(crate) fn ark_eq(a: Fe, b: Fe) -> (r: bool)
    ensures
        r == (a@ == b@),
{
    let x = Fr::from_le_bytes_mod_order(&BigInteger256::new(a.limbs).to_bytes_le());
    let y = Fr::from_le_bytes_mod_order(&BigInteger256::new(b.limbs).to_bytes_le());
    x == y
}

impl Fe {
    pub fn zero() -> (r: Fe)
        ensures
            r@ == 0,
    {
        Fe { limbs: [0, 0, 0, 0] }
    }

    pub fn one() -> (r: Fe)
        ensures
            r@ == 1,
    {
        Fe { limbs: [1, 0, 0, 0] }
    }

    /// The element with value `v`.
    pub fn from_u64(v: u64) -> (r: Fe)
        ensures
            r@ == v as nat,
    {
        let r = Fe { limbs: [v, 0, 0, 0] };
        assert(r.raw() == v as nat);
        assert(v < modulus());
        r
    }

    pub fn add(self, other: Fe) -> (r: Fe)
        ensures
            r@ == fadd(self@, other@),
    {
        ark_add(self, other)
    }

    pub fn sub(self, other: Fe) -> (r: Fe)
        ensures
            r@ == fsub(self@, other@),
    {
        ark_sub(self, other)
    }

    pub fn mul(self, other: Fe) -> (r: Fe)
        ensures
            r@ == fmul(self@, other@),
    {
        ark_mul(self, other)
    }

    pub fn neg(self) -> (r: Fe)
        ensures
            r@ == fneg(self@),
    {
        ark_sub(Fe::zero(), self)
    }

    /// The multiplicative inverse; `None` exactly for zero.
    pub fn inverse(self) -> (r: Option<Fe>)
        ensures
            r is None <==> self@ == 0,
            r matches Some(v) ==> fmul(v@, self@) == 1,
    {
        ark_inverse(self)
    }

    /// A square root, when the element is a square.
    pub fn sqrt(self) -> (r: Option<Fe>)
        ensures
            r matches Some(v) ==> fmul(v@, v@) == self@ && v@ == sqrt_of(self@),
            r is None ==> forall|v: nat| v < modulus() ==> #[trigger] fmul(v, v) != self@,
    {
        ark_sqrt(self)
    }

    /// Equality of values.
    pub fn equals(&self, other: &Fe) -> (r: bool)
        ensures
            r == (self@ == other@),
    {
        ark_eq(*self, *other)
    }

    pub fn is_zero(&self) -> (r: bool)
        ensures
            r == (self@ == 0),
    {
        ark_eq(*self, Fe::zero())
    }

    /// `self` raised to the `n`-th power, by repeated multiplication.
    pub fn pow(self, n: u64) -> (r: Fe)
        ensures
            r@ == fpow(self@, n as nat),
    {
        let mut acc = Fe::one();
        let mut i: u64 = 0;
        while i < n
            invariant
                i <= n,
                acc@ == fpow(self@, i as nat),
            decreases n - i,
        {
            acc = acc.mul(self);
            i = i + 1;
        }
        acc
    }
}

} // verus!
