//! Virtual oracles: arithmetic combinations of shifted concrete oracles.
use vstd::prelude::*;
use vstd::string::StringExecFns;
use crate::error::Error;
use crate::field::{fadd, fmul, fsub, modulus, values, Fe};
use crate::domain::Domain;
use crate::poly::{constant, eval_coeffs, lemma_unit_shift, indeterminate, poly_add, poly_mul, poly_sub, shift_dense_poly};

verus! {

/// A combine function: an arithmetic expression over the terms of a virtual
/// oracle and the indeterminate. It applies alike to polynomials and to
/// their values at a point.
#[derive(Debug)]
pub enum Combine {
    /// The term of that index.
    Term(usize),
    /// The indeterminate `X`, or the point at which terms were evaluated.
    Point,
    Const(Fe),
    Add(Box<Combine>, Box<Combine>),
    Sub(Box<Combine>, Box<Combine>),
    Mul(Box<Combine>, Box<Combine>),
}

/// The values at `x` of each polynomial in `polys`.
pub open spec fn evals_at(polys: Seq<Vec<Fe>>, x: nat) -> Seq<nat> {
    Seq::new(polys.len(), |i: int| eval_coeffs(polys[i]@, x))
}

impl Combine {
    /// Every term that the expression names is below `n`.
    pub open spec fn terms_below(self, n: nat) -> bool
        decreases self,
    {
        match self {
            Combine::Term(i) => i < n,
            Combine::Point => true,
            Combine::Const(_) => true,
            Combine::Add(a, b) => a.terms_below(n) && b.terms_below(n),
            Combine::Sub(a, b) => a.terms_below(n) && b.terms_below(n),
            Combine::Mul(a, b) => a.terms_below(n) && b.terms_below(n),
        }
    }

    /// A bound on the number of coefficients of the combination of term
    /// polynomials with at most `m` coefficients each.
    pub open spec fn len_bound(self, m: nat) -> nat
        decreases self,
    {
        match self {
            Combine::Term(_) => m,
            Combine::Point => 2,
            Combine::Const(_) => 1,
            Combine::Add(a, b) => if a.len_bound(m) >= b.len_bound(m) { a.len_bound(m) } else { b.len_bound(m) },
            Combine::Sub(a, b) => if a.len_bound(m) >= b.len_bound(m) { a.len_bound(m) } else { b.len_bound(m) },
            Combine::Mul(a, b) => a.len_bound(m) + b.len_bound(m),
        }
    }

    /// The value of the expression on term values `t` at the point `x`.
    pub open spec fn value(self, t: Seq<nat>, x: nat) -> nat
        decreases self,
    {
        match self {
            Combine::Term(i) => t[i as int],
            Combine::Point => x % modulus(),
            Combine::Const(c) => c@,
            Combine::Add(a, b) => fadd(a.value(t, x), b.value(t, x)),
            Combine::Sub(a, b) => fsub(a.value(t, x), b.value(t, x)),
            Combine::Mul(a, b) => fmul(a.value(t, x), b.value(t, x)),
        }
    }

    /// Whether every term named is below `n`.
    pub fn check_terms_below(&self, n: usize) -> (r: bool)
        ensures
            r == self.terms_below(n as nat),
        decreases self,
    {
        match self {
            Combine::Term(i) => *i < n,
            Combine::Point => true,
            Combine::Const(_) => true,
            Combine::Add(a, b) => a.check_terms_below(n) && b.check_terms_below(n),
            Combine::Sub(a, b) => a.check_terms_below(n) && b.check_terms_below(n),
            Combine::Mul(a, b) => a.check_terms_below(n) && b.check_terms_below(n),
        }
    }

    /// The combination of term values at `point`.
    pub fn apply_to_evals(&self, terms: &Vec<Fe>, point: Fe) -> (r: Fe)
        requires
            self.terms_below(terms@.len() as nat),
        ensures
            r@ == self.value(values(terms@), point@),
        decreases self,
    {
        match self {
            Combine::Term(i) => terms[*i],
            Combine::Point => Fe::zero().add(point),
            Combine::Const(c) => Fe::zero().add(*c),
            Combine::Add(a, b) => a.apply_to_evals(terms, point).add(b.apply_to_evals(terms, point)),
            Combine::Sub(a, b) => a.apply_to_evals(terms, point).sub(b.apply_to_evals(terms, point)),
            Combine::Mul(a, b) => a.apply_to_evals(terms, point).mul(b.apply_to_evals(terms, point)),
        }
    }

    /// The combination of term polynomials: a polynomial whose value at each
    /// `x` is the combination of the terms' values at `x`.
    pub fn apply_to_polys(&self, terms: &Vec<Vec<Fe>>) -> (r: Vec<Fe>)
        requires
            self.terms_below(terms@.len() as nat),
        ensures
            forall|x: nat| #[trigger] eval_coeffs(r@, x) == self.value(evals_at(terms@, x), x),
            forall|m: nat| (forall|i: int| 0 <= i < terms@.len() ==> (#[trigger] terms@[i])@.len() <= m)
                ==> r@.len() <= #[trigger] self.len_bound(m),
        decreases self,
    {
        match self {
            Combine::Term(i) => {
                let t = terms[*i].clone();
                assert(t@ =~= terms@[*i as int]@);
                proof {
                    assert forall|m: nat| (forall|j: int| 0 <= j < terms@.len() ==> (#[trigger] terms@[j])@.len() <= m)
                        implies t@.len() <= #[trigger] self.len_bound(m) by {
                        assert(terms@[*i as int]@.len() <= m);
                    }
                }
                t
            },
            Combine::Point => indeterminate(),
            Combine::Const(c) => constant(*c),
            Combine::Add(a, b) => {
                let ra = a.apply_to_polys(terms);
                let rb = b.apply_to_polys(terms);
                let r = poly_add(&ra, &rb);
                proof {
                    assert forall|m: nat| (forall|j: int| 0 <= j < terms@.len() ==> (#[trigger] terms@[j])@.len() <= m)
                        implies r@.len() <= #[trigger] self.len_bound(m) by {
                        assert(ra@.len() <= a.len_bound(m));
                        assert(rb@.len() <= b.len_bound(m));
                    }
                }
                r
            },
            Combine::Sub(a, b) => {
                let ra = a.apply_to_polys(terms);
                let rb = b.apply_to_polys(terms);
                let r = poly_sub(&ra, &rb);
                proof {
                    assert forall|m: nat| (forall|j: int| 0 <= j < terms@.len() ==> (#[trigger] terms@[j])@.len() <= m)
                        implies r@.len() <= #[trigger] self.len_bound(m) by {
                        assert(ra@.len() <= a.len_bound(m));
                        assert(rb@.len() <= b.len_bound(m));
                    }
                }
                r
            },
            Combine::Mul(a, b) => {
                let ra = a.apply_to_polys(terms);
                let rb = b.apply_to_polys(terms);
                let r = poly_mul(&ra, &rb);
                proof {
                    assert forall|m: nat| (forall|j: int| 0 <= j < terms@.len() ==> (#[trigger] terms@[j])@.len() <= m)
                        implies r@.len() <= #[trigger] self.len_bound(m) by {
                        assert(ra@.len() <= a.len_bound(m));
                        assert(rb@.len() <= b.len_bound(m));
                    }
                }
                r
            },
        }
    }
}

/// The values of the terms of a virtual oracle at `x`: term `i` is concrete
/// oracle `mapping[i]` at `shifts[i] * x`.
pub open spec fn term_values(mapping: Seq<usize>, shifts: Seq<nat>, oracles: Seq<Vec<Fe>>, x: nat) -> Seq<nat> {
    Seq::new(mapping.len(), |i: int| eval_coeffs(oracles[mapping[i] as int]@, fmul(shifts[i], x)))
}

/// Each term's polynomial, `p_mapping[i](shifts[i] * X)`, as the values it takes.
pub open spec fn shifted_terms(mapping: Seq<usize>, shifts: Seq<nat>, oracles: Seq<Vec<Fe>>, terms: Seq<Vec<Fe>>) -> bool {
    &&& terms.len() == mapping.len()
    &&& forall|i: int, x: nat| 0 <= i < mapping.len() ==>
        #[trigger] eval_coeffs(terms[i]@, x) == eval_coeffs(oracles[mapping[i] as int]@, fmul(shifts[i], x))
}

/// The capability set shared by all virtual oracles: term `i` reads concrete
/// oracle `mapping[i]` at `shifts[i] * X`, and the terms are combined by a
/// function that works alike on polynomials and on values.
pub trait VirtualOracle {
    spec fn spec_mapping(&self) -> Seq<usize>;

    spec fn spec_shifts(&self) -> Seq<nat>;

    /// The combination of term values `t` at the point `x`.
    spec fn spec_combine(&self, t: Seq<nat>, x: nat) -> nat;

    /// Whether the oracle accepts `n` concrete oracles.
    spec fn spec_accepts(&self, n: nat) -> bool;

    /// A bound on the number of coefficients of the virtual polynomial of
    /// concrete oracles with at most `m` coefficients each.
    spec fn spec_len_bound(&self, m: nat) -> nat;

    spec fn vo_wf(&self) -> bool;

    /// Mapping and shifts have one entry per term, and every accepted number
    /// of concrete oracles covers the mapping.
    proof fn lemma_wf(&self)
        requires
            self.vo_wf(),
        ensures
            self.spec_mapping().len() == self.spec_shifts().len(),
            forall|n: nat, i: int| #[trigger] self.spec_accepts(n) && 0 <= i < self.spec_mapping().len()
                ==> (#[trigger] self.spec_mapping()[i]) < n,
    ;

    fn mapping_vector(&self) -> (r: Vec<usize>)
        requires
            self.vo_wf(),
        ensures
            r@ == self.spec_mapping(),
    ;

    fn shifting_coefficients(&self) -> (r: Vec<Fe>)
        requires
            self.vo_wf(),
        ensures
            values(r@) == self.spec_shifts(),
    ;

    /// Whether the oracle accepts `n` concrete oracles.
    fn accepts(&self, n: usize) -> (r: bool)
        requires
            self.vo_wf(),
        ensures
            r == self.spec_accepts(n as nat),
    ;

    /// The number of terms.
    fn num_of_oracles(&self) -> (r: usize)
        requires
            self.vo_wf(),
        ensures
            r == self.spec_mapping().len(),
    ;

    /// The virtual polynomial built from the concrete oracles: at every `x`
    /// it takes the combination of the shifted oracles' values at `x`.
    fn instantiate_in_coeffs_form(&self, concrete_oracles: &Vec<Vec<Fe>>) -> (r: Result<Vec<Fe>, Error>)
        requires
            self.vo_wf(),
        ensures
            r is Ok <==> self.spec_accepts(concrete_oracles@.len() as nat),
            r matches Err(e) ==> e is InstantiationError,
            r matches Ok(v) ==> forall|x: nat| #[trigger] eval_coeffs(v@, x) == self.spec_combine(
                term_values(self.spec_mapping(), self.spec_shifts(), concrete_oracles@, x), x),
            r matches Ok(v) ==> forall|m: nat| (forall|i: int| 0 <= i < concrete_oracles@.len() ==> (#[trigger] concrete_oracles@[i])@.len() <= m)
                ==> v@.len() <= #[trigger] self.spec_len_bound(m),
    ;

    /// The oracle's value at `point` from the values of its terms there.
    fn query(&self, evals: &Vec<Fe>, point: Fe) -> (r: Result<Fe, Error>)
        requires
            self.vo_wf(),
        ensures
            r is Ok <==> evals@.len() == self.spec_mapping().len(),
            r matches Err(e) ==> e is EvaluationError,
            r matches Ok(v) ==> v@ == self.spec_combine(values(evals@), point@),
    ;
}

/// `v` is the virtual polynomial of `vo` on the concrete oracles.
pub open spec fn instantiates<V: VirtualOracle>(vo: &V, oracles: Seq<Vec<Fe>>, v: Seq<Fe>) -> bool {
    forall|x: nat| #[trigger] eval_coeffs(v, x) == vo.spec_combine(
        term_values(vo.spec_mapping(), vo.spec_shifts(), oracles, x), x)
}

/// `value` is what `vo` answers for term values `evals` at `point`.
pub open spec fn answers_query<V: VirtualOracle>(vo: &V, evals: Seq<Fe>, point: nat, value: nat) -> bool {
    value == vo.spec_combine(values(evals), point)
}

/// Instantiating a virtual oracle as a polynomial and evaluating it at a
/// point gives what the oracle's query answers on the concrete oracles'
/// values at that point's shifts.
pub proof fn lemma_instantiate_agrees_with_query<V: VirtualOracle>(
    vo: &V,
    oracles: Seq<Vec<Fe>>,
    v: Seq<Fe>,
    point: Fe,
    evals: Seq<Fe>,
    value: nat,
)
    requires
        vo.vo_wf(),
        instantiates(vo, oracles, v),
        evals.len() == vo.spec_mapping().len(),
        forall|i: int| 0 <= i < evals.len() ==> (#[trigger] evals[i])@ == eval_coeffs(
            oracles[vo.spec_mapping()[i] as int]@, fmul(vo.spec_shifts()[i], point@)),
        answers_query(vo, evals, point@, value),
    ensures
        eval_coeffs(v, point@) == value,
{
    assert(values(evals) =~= term_values(vo.spec_mapping(), vo.spec_shifts(), oracles, point@));
}

/// The decimal digits of `n`.
pub open spec fn decimal(n: nat) -> Seq<char>
    decreases n,
{
    if n < 10 {
        seq![seq!['0', '1', '2', '3', '4', '5', '6', '7', '8', '9'][n as int]]
    } else {
        decimal(n / 10) + seq![seq!['0', '1', '2', '3', '4', '5', '6', '7', '8', '9'][(n % 10) as int]]
    }
}

/// Relies on std's `ToString` for `usize`, which writes its decimal digits.
#[verifier::external_body]
fn usize_text(n: usize) -> (r: String)
    ensures
        r@ == decimal(n as nat),
{
    n.to_string()
}

/// Builds the term polynomials `p_mapping[i](shifts[i] * X)`.
fn shifted_term_polys(mapping: &Vec<usize>, shifts: &Vec<Fe>, oracles: &Vec<Vec<Fe>>) -> (r: Vec<Vec<Fe>>)
    requires
        mapping@.len() == shifts@.len(),
        forall|i: int| 0 <= i < mapping@.len() ==> (#[trigger] mapping@[i]) < oracles@.len(),
    ensures
        shifted_terms(mapping@, values(shifts@), oracles@, r@),
        forall|j: int| 0 <= j < r@.len() ==> (#[trigger] r@[j])@.len() == oracles@[mapping@[j] as int]@.len(),
{
    let mut terms: Vec<Vec<Fe>> = Vec::new();
    let mut i: usize = 0;
    while i < mapping.len()
        invariant
            i <= mapping@.len(),
            mapping@.len() == shifts@.len(),
            forall|j: int| 0 <= j < mapping@.len() ==> (#[trigger] mapping@[j]) < oracles@.len(),
            terms@.len() == i,
            forall|j: int, x: nat| 0 <= j < i ==> #[trigger] eval_coeffs(terms@[j]@, x) == eval_coeffs(
                oracles@[mapping@[j] as int]@, fmul(values(shifts@)[j], x)),
            forall|j: int| 0 <= j < i ==> (#[trigger] terms@[j])@.len() == oracles@[mapping@[j] as int]@.len(),
        decreases mapping@.len() - i,
    {
        let shifted = shift_dense_poly(&oracles[mapping[i]], shifts[i]);
        terms.push(shifted);
        i = i + 1;
    }
    terms
}

proof fn lemma_evals_of_shifted(mapping: Seq<usize>, shifts: Seq<nat>, oracles: Seq<Vec<Fe>>, terms: Seq<Vec<Fe>>, x: nat)
    requires
        shifted_terms(mapping, shifts, oracles, terms),
    ensures
        evals_at(terms, x) == term_values(mapping, shifts, oracles, x),
{
    assert(evals_at(terms, x) =~= term_values(mapping, shifts, oracles, x));
}

/// A general input-shifting virtual oracle.
#[derive(Debug)]
pub struct NewVO {
    mapping_vector: Vec<usize>,
    shifting_coefficients: Vec<Fe>,
    combine_function: Combine,
    minimum_oracle_length: usize,
}

/// The largest entry of `s`, for a non-empty `s`.
pub open spec fn seq_max(s: Seq<usize>) -> nat
    decreases s.len(),
{
    if s.len() <= 1 {
        if s.len() == 0 { 0 } else { s[0] as nat }
    } else {
        let m = seq_max(s.drop_last());
        if s.last() as nat > m { s.last() as nat } else { m }
    }
}

proof fn lemma_seq_max(s: Seq<usize>)
    ensures
        forall|i: int| 0 <= i < s.len() ==> (#[trigger] s[i]) <= seq_max(s),
        s.len() > 0 ==> exists|i: int| 0 <= i < s.len() && s[i] == seq_max(s),
    decreases s.len(),
{
    if s.len() > 1 {
        lemma_seq_max(s.drop_last());
        assert forall|i: int| 0 <= i < s.len() implies (#[trigger] s[i]) <= seq_max(s) by {
            if i < s.len() - 1 {
                assert(s[i] == s.drop_last()[i]);
            }
        }
        if s.last() as nat <= seq_max(s.drop_last()) {
            let j = choose|j: int| 0 <= j < s.drop_last().len() && s.drop_last()[j] == seq_max(s.drop_last());
            assert(s[j] == seq_max(s));
        } else {
            assert(s[s.len() - 1] == seq_max(s));
        }
    } else if s.len() == 1 {
        assert(s[0] == seq_max(s));
    }
}

impl NewVO {
    pub closed spec fn spec_mapping_vector(&self) -> Seq<usize> {
        self.mapping_vector@
    }

    pub closed spec fn spec_shifting_coefficients(&self) -> Seq<Fe> {
        self.shifting_coefficients@
    }

    pub closed spec fn spec_combine_function(&self) -> Combine {
        self.combine_function
    }

    pub closed spec fn spec_minimum_oracle_length(&self) -> nat {
        self.minimum_oracle_length as nat
    }

    /// One shift per term, at least one term, the combine function names
    /// only existing terms, and at least `max(mapping) + 1` oracles are needed.
    pub open spec fn wf(&self) -> bool {
        &&& self.spec_mapping_vector().len() > 0
        &&& self.spec_mapping_vector().len() == self.spec_shifting_coefficients().len()
        &&& self.spec_combine_function().terms_below(self.spec_mapping_vector().len())
        &&& self.spec_minimum_oracle_length() == seq_max(self.spec_mapping_vector()) + 1
    }

    /// Builds an input-shifting virtual oracle. Fails with `InputLengthError`
    /// when the mapping is empty, when the mapping and the shifts differ in
    /// length, or when the combine function names a term beyond them.
    pub fn new(mapping_vector: &Vec<usize>, shifting_coefficients: &Vec<Fe>, combine_function: Combine) -> (r: Result<NewVO, Error>)
        ensures
            r is Ok <==> (mapping_vector@.len() > 0 && shifting_coefficients@.len() == mapping_vector@.len()
                && combine_function.terms_below(mapping_vector@.len() as nat)
                && seq_max(mapping_vector@) < usize::MAX),
            r matches Err(e) ==> e is InputLengthError,
            r matches Ok(vo) ==> {
                &&& vo.wf()
                &&& vo.spec_mapping_vector() == mapping_vector@
                &&& vo.spec_shifting_coefficients() == shifting_coefficients@
                &&& vo.spec_combine_function() == combine_function
            },
    {
        let number_of_terms = mapping_vector.len();
        if number_of_terms == 0 {
            return Err(Error::InputLengthError("the mapping vector is empty".to_string()));
        }
        if shifting_coefficients.len() != number_of_terms {
            return Err(Error::InputLengthError("mapping vector and shifting coefficients do not match".to_string()));
        }
        if !combine_function.check_terms_below(number_of_terms) {
            return Err(Error::InputLengthError("combine function refers to a missing term".to_string()));
        }
        let mut max_index: usize = mapping_vector[0];
        let mut i: usize = 1;
        while i < number_of_terms
            invariant
                1 <= i <= number_of_terms,
                number_of_terms == mapping_vector@.len(),
                max_index as nat == seq_max(mapping_vector@.subrange(0, i as int)),
            decreases number_of_terms - i,
        {
            assert(mapping_vector@.subrange(0, i + 1).drop_last() =~= mapping_vector@.subrange(0, i as int));
            if mapping_vector[i] > max_index {
                max_index = mapping_vector[i];
            }
            i = i + 1;
        }
        assert(mapping_vector@.subrange(0, number_of_terms as int) =~= mapping_vector@);
        proof { lemma_seq_max(mapping_vector@); }
        if max_index == usize::MAX {
            return Err(Error::InputLengthError("mapping vector index out of range".to_string()));
        }
        Ok(NewVO {
            mapping_vector: mapping_vector.clone(),
            shifting_coefficients: shifting_coefficients.clone(),
            combine_function,
            minimum_oracle_length: max_index + 1,
        })
    }

    pub fn number_of_internal_terms(&self) -> (r: usize)
        ensures
            r == self.spec_mapping_vector().len(),
    {
        self.mapping_vector.len()
    }

    /// The label of the concrete oracle that each term reads.
    pub fn get_term_labels(&self, concrete_oracle_labels: &Vec<String>) -> (r: Vec<String>)
        requires
            self.wf(),
            concrete_oracle_labels@.len() >= self.spec_minimum_oracle_length(),
        ensures
            r@.len() == self.spec_mapping_vector().len(),
            forall|i: int| 0 <= i < r@.len() ==> #[trigger] r@[i] == concrete_oracle_labels@[self.spec_mapping_vector()[i] as int],
    {
        proof { lemma_seq_max(self.mapping_vector@); }
        let mut r: Vec<String> = Vec::new();
        let mut i: usize = 0;
        while i < self.mapping_vector.len()
            invariant
                self.wf(),
                concrete_oracle_labels@.len() >= self.spec_minimum_oracle_length(),
                forall|j: int| 0 <= j < self.mapping_vector@.len() ==> (#[trigger] self.mapping_vector@[j]) <= seq_max(self.mapping_vector@),
                i <= self.mapping_vector@.len(),
                r@.len() == i,
                forall|j: int| 0 <= j < i ==> #[trigger] r@[j] == concrete_oracle_labels@[self.mapping_vector@[j] as int],
            decreases self.mapping_vector@.len() - i,
        {
            r.push(concrete_oracle_labels[self.mapping_vector[i]].clone());
            i = i + 1;
        }
        r
    }

    /// Fails with `InstantiationError` unless at least `max(mapping) + 1`
    /// concrete oracles (or their labels) were provided.
    fn check_conrete_oracle_length(&self, input_length: usize) -> (r: Result<(), Error>)
        ensures
            r is Ok <==> input_length >= self.spec_minimum_oracle_length(),
            r matches Err(e) ==> e is InstantiationError,
    {
        if input_length < self.minimum_oracle_length {
            return Err(Error::InstantiationError);
        }
        Ok(())
    }

    /// The polynomial that combines the shifted concrete oracles.
    pub fn compute_polynomial(&self, concrete_oracles: &Vec<Vec<Fe>>) -> (r: Result<Vec<Fe>, Error>)
        requires
            self.wf(),
        ensures
            r is Ok <==> concrete_oracles@.len() >= self.spec_minimum_oracle_length(),
            r matches Err(e) ==> e is InstantiationError,
            r matches Ok(v) ==> forall|x: nat| #[trigger] eval_coeffs(v@, x) == self.spec_combine_function().value(
                term_values(self.spec_mapping_vector(), values(self.spec_shifting_coefficients()), concrete_oracles@, x), x),
            r matches Ok(v) ==> forall|m: nat| (forall|i: int| 0 <= i < concrete_oracles@.len() ==> (#[trigger] concrete_oracles@[i])@.len() <= m)
                ==> v@.len() <= #[trigger] self.spec_combine_function().len_bound(m),
    {
        self.check_conrete_oracle_length(concrete_oracles.len())?;
        proof { lemma_seq_max(self.mapping_vector@); }
        let terms = shifted_term_polys(&self.mapping_vector, &self.shifting_coefficients, concrete_oracles);
        let combined = self.combine_function.apply_to_polys(&terms);
        assert forall|x: nat| #[trigger] eval_coeffs(combined@, x) == self.spec_combine_function().value(
            term_values(self.spec_mapping_vector(), values(self.spec_shifting_coefficients()), concrete_oracles@, x), x) by {
            lemma_evals_of_shifted(self.mapping_vector@, values(self.shifting_coefficients@), concrete_oracles@, terms@, x);
        }
        assert forall|m: nat| (forall|i: int| 0 <= i < concrete_oracles@.len() ==> (#[trigger] concrete_oracles@[i])@.len() <= m)
            implies combined@.len() <= #[trigger] self.spec_combine_function().len_bound(m) by {
            assert forall|j: int| 0 <= j < terms@.len() implies (#[trigger] terms@[j])@.len() <= m by {
                assert(concrete_oracles@[self.mapping_vector@[j] as int]@.len() <= m);
            }
        }
        Ok(combined)
    }

    /// The virtual polynomial's values on the domain.
    pub fn instantiate_in_evals_form(&self, concrete_oracles: &Vec<Vec<Fe>>, domain: &Domain) -> (r: Result<Vec<Fe>, Error>)
        requires
            self.wf(),
            domain.wf(),
        ensures
            r is Ok <==> concrete_oracles@.len() >= self.spec_minimum_oracle_length(),
            r matches Err(e) ==> e is InstantiationError,
            r matches Ok(v) ==> {
                &&& v@.len() == domain.spec_size()
                &&& forall|i: int| 0 <= i < domain.spec_size() ==> (#[trigger] v@[i])@ == self.spec_combine_function().value(
                    term_values(self.spec_mapping_vector(), values(self.spec_shifting_coefficients()), concrete_oracles@,
                    domain.elem(i as nat)), domain.elem(i as nat))
            },
    {
        let poly = self.compute_polynomial(concrete_oracles)?;
        Ok(domain.evaluations_of(&poly))
    }

    /// The bound on the virtual oracle's degree on a domain of size `domain_size`.
    pub fn degree_bound(&self, domain_size: usize) -> (r: usize)
        ensures
            r == domain_size,
    {
        domain_size
    }

    /// How much larger than the domain the quotient's evaluation domain is taken.
    pub fn compute_scaling_factor(&self, domain: &Domain) -> (r: usize)
        ensures
            r == 2,
    {
        2
    }

    /// The labels of the oracles the terms read; the same as `get_term_labels`.
    pub fn get_h_labels(&self, concrete_oracle_labels: &Vec<String>) -> (r: Vec<String>)
        requires
            self.wf(),
            concrete_oracle_labels@.len() >= self.spec_minimum_oracle_length(),
        ensures
            r@.len() == self.spec_mapping_vector().len(),
            forall|i: int| 0 <= i < r@.len() ==> #[trigger] r@[i] == concrete_oracle_labels@[self.spec_mapping_vector()[i] as int],
    {
        self.get_term_labels(concrete_oracle_labels)
    }

    pub fn name(&self) -> (r: String)
        ensures
            r@ == "General VO"@,
    {
        proof { reveal_strlit("General VO"); }
        String::from_str("General VO")
    }

    /// The query set for the value of the virtual oracle at the labeled
    /// point `(pl, z)`: term `i` asks for oracle `mapping[i]` at
    /// `shifts[i] * z`, a point labeled `pl_times_alpha<i>`. Fails with
    /// `InstantiationError` when too few oracle labels are given.
    pub fn query(&self, concrete_oracle_labels: &Vec<String>, labeled_point: &(String, Fe)) -> (r: Result<Vec<(String, (String, Fe))>, Error>)
        requires
            self.wf(),
        ensures
            r is Ok <==> concrete_oracle_labels@.len() >= self.spec_minimum_oracle_length(),
            r matches Err(e) ==> e is InstantiationError,
            r matches Ok(q) ==> {
                &&& q@.len() == self.spec_mapping_vector().len()
                &&& forall|i: int| 0 <= i < q@.len() ==> {
                    &&& (#[trigger] q@[i]).0 == concrete_oracle_labels@[self.spec_mapping_vector()[i] as int]
                    &&& q@[i].1.0@ == labeled_point.0@ + "_times_alpha"@ + decimal(i as nat)
                    &&& q@[i].1.1@ == fmul(self.spec_shifting_coefficients()[i]@, labeled_point.1@)
                }
            },
    {
        self.check_conrete_oracle_length(concrete_oracle_labels.len())?;
        proof {
            lemma_seq_max(self.mapping_vector@);
            reveal_strlit("_times_alpha");
        }
        let mut q: Vec<(String, (String, Fe))> = Vec::new();
        let mut i: usize = 0;
        while i < self.mapping_vector.len()
            invariant
                self.wf(),
                concrete_oracle_labels@.len() >= self.spec_minimum_oracle_length(),
                forall|j: int| 0 <= j < self.mapping_vector@.len() ==> (#[trigger] self.mapping_vector@[j]) <= seq_max(self.mapping_vector@),
                i <= self.mapping_vector@.len(),
                q@.len() == i,
                forall|j: int| 0 <= j < i ==> {
                    &&& (#[trigger] q@[j]).0 == concrete_oracle_labels@[self.mapping_vector@[j] as int]
                    &&& q@[j].1.0@ == labeled_point.0@ + "_times_alpha"@ + decimal(j as nat)
                    &&& q@[j].1.1@ == fmul(self.shifting_coefficients@[j]@, labeled_point.1@)
                },
            decreases self.mapping_vector@.len() - i,
        {
            let label = concrete_oracle_labels[self.mapping_vector[i]].clone();
            let mut point_label = labeled_point.0.clone();
            point_label.append("_times_alpha");
            point_label.append(usize_text(i).as_str());
            q.push((label, (point_label, self.shifting_coefficients[i].mul(labeled_point.1))));
            i = i + 1;
        }
        Ok(q)
    }

    /// The value of the virtual oracle at `eval_point`, from a list of
    /// `(label, point, value)` evaluations of the concrete oracles, the first
    /// entry that fits being taken. Fails with `EvaluationError` when one that a
    /// term needs is missing.
    pub fn evaluate_from_concrete_evals(
        &self,
        concrete_oracle_labels: &Vec<String>,
        eval_point: Fe,
        evaluations: &Vec<(String, Fe, Fe)>,
    ) -> (r: Result<Fe, Error>)
        requires
            self.wf(),
        ensures
            r matches Err(e) ==> e is EvaluationError,
            concrete_oracle_labels@.len() < self.spec_minimum_oracle_length() ==> r is Err,
            concrete_oracle_labels@.len() >= self.spec_minimum_oracle_length() ==> (r is Err <==> exists|i: int| 0 <= i < self.spec_mapping_vector().len()
                && (#[trigger] self.term_lookups(concrete_oracle_labels@, eval_point@, evaluations@)[i]) is None),
            r matches Ok(v) ==> v@ == self.spec_combine_function().value(
                unwrap_all(self.term_lookups(concrete_oracle_labels@, eval_point@, evaluations@)), eval_point@),
    {
        if concrete_oracle_labels.len() < self.minimum_oracle_length {
            return Err(Error::EvaluationError);
        }
        proof { lemma_seq_max(self.mapping_vector@); }
        let ghost lookups = self.term_lookups(concrete_oracle_labels@, eval_point@, evaluations@);
        let mut terms: Vec<Fe> = Vec::new();
        let mut i: usize = 0;
        while i < self.mapping_vector.len()
            invariant
                self.wf(),
                lookups == self.term_lookups(concrete_oracle_labels@, eval_point@, evaluations@),
                concrete_oracle_labels@.len() >= self.spec_minimum_oracle_length(),
                forall|j: int| 0 <= j < self.mapping_vector@.len() ==> (#[trigger] self.mapping_vector@[j]) <= seq_max(self.mapping_vector@),
                i <= self.mapping_vector@.len(),
                terms@.len() == i,
                forall|j: int| 0 <= j < i ==> lookups[j] == Some((#[trigger] terms@[j])@),
            decreases self.mapping_vector@.len() - i,
        {
            let label = &concrete_oracle_labels[self.mapping_vector[i]];
            let shifted = self.shifting_coefficients[i].mul(eval_point);
            let mut k: usize = 0;
            let mut found: Option<Fe> = None;
            assert(evaluations@.subrange(0, evaluations@.len() as int) =~= evaluations@);
            while k < evaluations.len() && found.is_none()
                invariant
                    k <= evaluations@.len(),
                    found is None ==> find_eval(evaluations@, label@, shifted@)
                        == find_eval(evaluations@.subrange(k as int, evaluations@.len() as int), label@, shifted@),
                    found matches Some(v) ==> find_eval(evaluations@, label@, shifted@) == Some(v@),
                decreases evaluations@.len() - k,
            {
                let ghost rest = evaluations@.subrange(k as int, evaluations@.len() as int);
                assert(rest.drop_first() =~= evaluations@.subrange(k + 1, evaluations@.len() as int));
                assert(rest[0] == evaluations@[k as int]);
                if evaluations[k].0 == *label && evaluations[k].1.equals(&shifted) {
                    found = Some(evaluations[k].2);
                }
                k = k + 1;
            }
            match found {
                Some(v) => terms.push(v),
                None => {
                    assert(evaluations@.subrange(k as int, evaluations@.len() as int).len() == 0);
                    assert(lookups[i as int] is None);
                    return Err(Error::EvaluationError);
                },
            }
            i = i + 1;
        }
        let r = self.combine_function.apply_to_evals(&terms, eval_point);
        assert(values(terms@) =~= unwrap_all(lookups));
        assert forall|j: int| 0 <= j < lookups.len() implies !(#[trigger] lookups[j] is None) by {
            assert(lookups[j] == Some(terms@[j]@));
        }
        Ok(r)
    }

    /// For each term, the value that the evaluations list gives its concrete
    /// oracle at the shifted point, if any.
    pub open spec fn term_lookups(&self, labels: Seq<String>, point: nat, evals: Seq<(String, Fe, Fe)>) -> Seq<Option<nat>> {
        Seq::new(self.spec_mapping_vector().len(), |i: int|
            find_eval(evals, labels[self.spec_mapping_vector()[i] as int]@, fmul(self.spec_shifting_coefficients()[i]@, point)))
    }
}

/// The value of the first entry of `evals` with that label and point.
pub open spec fn find_eval(evals: Seq<(String, Fe, Fe)>, label: Seq<char>, point: nat) -> Option<nat>
    decreases evals.len(),
{
    if evals.len() == 0 {
        None
    } else if evals[0].0@ == label && evals[0].1@ == point {
        Some(evals[0].2@)
    } else {
        find_eval(evals.drop_first(), label, point)
    }
}

pub open spec fn unwrap_all(s: Seq<Option<nat>>) -> Seq<nat> {
    Seq::new(s.len(), |i: int| match s[i] { Some(v) => v, None => 0 })
}

impl VirtualOracle for NewVO {
    open spec fn spec_mapping(&self) -> Seq<usize> {
        self.spec_mapping_vector()
    }

    open spec fn spec_shifts(&self) -> Seq<nat> {
        values(self.spec_shifting_coefficients())
    }

    open spec fn spec_combine(&self, t: Seq<nat>, x: nat) -> nat {
        self.spec_combine_function().value(t, x)
    }

    open spec fn spec_accepts(&self, n: nat) -> bool {
        n >= self.spec_minimum_oracle_length()
    }

    open spec fn spec_len_bound(&self, m: nat) -> nat {
        self.spec_combine_function().len_bound(m)
    }

    open spec fn vo_wf(&self) -> bool {
        self.wf()
    }

    proof fn lemma_wf(&self) {
        lemma_seq_max(self.spec_mapping_vector());
    }

    fn mapping_vector(&self) -> (r: Vec<usize>) {
        self.mapping_vector.clone()
    }

    fn shifting_coefficients(&self) -> (r: Vec<Fe>) {
        self.shifting_coefficients.clone()
    }

    fn accepts(&self, n: usize) -> (r: bool) {
        n >= self.minimum_oracle_length
    }

    fn num_of_oracles(&self) -> (r: usize) {
        self.mapping_vector.len()
    }

    fn instantiate_in_coeffs_form(&self, concrete_oracles: &Vec<Vec<Fe>>) -> (r: Result<Vec<Fe>, Error>) {
        self.compute_polynomial(concrete_oracles)
    }

    fn query(&self, evals: &Vec<Fe>, point: Fe) -> (r: Result<Fe, Error>) {
        if evals.len() != self.mapping_vector.len() {
            return Err(Error::EvaluationError);
        }
        Ok(self.combine_function.apply_to_evals(evals, point))
    }
}

/// A virtual oracle on three concrete oracles f, g, h: `v(X) = f(X) - g(X) h(X)`.
/// It vanishes on a set exactly where `f = g * h` there.
#[derive(Debug)]
pub struct ProductCheckVO {}

impl ProductCheckVO {
    pub fn new() -> (r: ProductCheckVO)
        ensures
            r.vo_wf(),
    {
        ProductCheckVO {}
    }
}

impl VirtualOracle for ProductCheckVO {
    open spec fn spec_mapping(&self) -> Seq<usize> {
        seq![0usize, 1usize, 2usize]
    }

    open spec fn spec_shifts(&self) -> Seq<nat> {
        seq![1nat, 1nat, 1nat]
    }

    open spec fn spec_combine(&self, t: Seq<nat>, x: nat) -> nat {
        fsub(t[0], fmul(t[1], t[2]))
    }

    open spec fn spec_accepts(&self, n: nat) -> bool {
        n == 3
    }

    open spec fn spec_len_bound(&self, m: nat) -> nat {
        2 * m
    }

    open spec fn vo_wf(&self) -> bool {
        true
    }

    proof fn lemma_wf(&self) {
    }

    fn mapping_vector(&self) -> (r: Vec<usize>) {
        let r = vec![0usize, 1usize, 2usize];
        assert(r@ =~= seq![0usize, 1usize, 2usize]);
        r
    }

    fn shifting_coefficients(&self) -> (r: Vec<Fe>) {
        let r = vec![Fe::one(), Fe::one(), Fe::one()];
        assert(values(r@) =~= seq![1nat, 1nat, 1nat]);
        r
    }

    fn accepts(&self, n: usize) -> (r: bool) {
        n == 3
    }

    fn num_of_oracles(&self) -> (r: usize) {
        3
    }

    fn instantiate_in_coeffs_form(&self, concrete_oracles: &Vec<Vec<Fe>>) -> (r: Result<Vec<Fe>, Error>) {
        if concrete_oracles.len() != 3 {
            return Err(Error::InstantiationError);
        }
        let gh = poly_mul(&concrete_oracles[1], &concrete_oracles[2]);
        let v = poly_sub(&concrete_oracles[0], &gh);
        assert forall|x: nat| #[trigger] eval_coeffs(v@, x) == self.spec_combine(
            term_values(self.spec_mapping(), self.spec_shifts(), concrete_oracles@, x), x) by {
            lemma_unit_shift(concrete_oracles@[0]@, x);
            lemma_unit_shift(concrete_oracles@[1]@, x);
            lemma_unit_shift(concrete_oracles@[2]@, x);
        }
        Ok(v)
    }

    fn query(&self, evals: &Vec<Fe>, point: Fe) -> (r: Result<Fe, Error>) {
        if evals.len() != 3 {
            return Err(Error::EvaluationError);
        }
        Ok(evals[0].sub(evals[1].mul(evals[2])))
    }
}

/// The term-index expression `Term(i)`, boxed.
fn term(i: usize) -> (r: Box<Combine>)
    ensures
        *r == Combine::Term(i),
{
    Box::new(Combine::Term(i))
}

impl NewVO {
    /// The square check on two oracles: `v = o0 - o1^2`.
    pub fn square_check() -> (r: NewVO)
        ensures
            r.wf(),
            r.spec_minimum_oracle_length() == 2,
            r.spec_mapping_vector() == seq![0usize, 1usize],
            values(r.spec_shifting_coefficients()) == seq![1nat, 1nat],
            forall|t: Seq<nat>, x: nat| #[trigger] r.spec_combine(t, x) == fsub(t[0], fmul(t[1], t[1])),
            forall|m: nat| #[trigger] r.spec_len_bound(m) == 2 * m,
    {
        let r = NewVO {
            mapping_vector: vec![0usize, 1usize],
            shifting_coefficients: vec![Fe::one(), Fe::one()],
            combine_function: Combine::Sub(term(0), Box::new(Combine::Mul(term(1), term(1)))),
            minimum_oracle_length: 2,
        };
        proof {
            reveal_with_fuel(Combine::terms_below, 4);
            reveal_with_fuel(Combine::value, 4);
            reveal_with_fuel(Combine::len_bound, 4);
        }
        assert(r.mapping_vector@ =~= seq![0usize, 1usize]);
        assert(values(r.shifting_coefficients@) =~= seq![1nat, 1nat]);
        assert(r.mapping_vector@.drop_last() =~= seq![0usize]);
        assert(seq_max(seq![0usize]) == 0);
        assert(seq_max(r.mapping_vector@) == 1);
        assert forall|t: Seq<nat>, x: nat| #[trigger] r.spec_combine(t, x) == fsub(t[0], fmul(t[1], t[1])) by {
        }
        r
    }

    /// The inverse check on two oracles: `v = 1 - o0 o1`.
    pub fn inverse_check() -> (r: NewVO)
        ensures
            r.wf(),
            r.spec_minimum_oracle_length() == 2,
            r.spec_mapping_vector() == seq![0usize, 1usize],
            values(r.spec_shifting_coefficients()) == seq![1nat, 1nat],
            forall|t: Seq<nat>, x: nat| #[trigger] r.spec_combine(t, x) == fsub(1, fmul(t[0], t[1])),
            forall|m: nat| m >= 1 ==> #[trigger] r.spec_len_bound(m) == 2 * m,
    {
        let r = NewVO {
            mapping_vector: vec![0usize, 1usize],
            shifting_coefficients: vec![Fe::one(), Fe::one()],
            combine_function: one_minus_product(),
            minimum_oracle_length: 2,
        };
        assert(r.mapping_vector@ =~= seq![0usize, 1usize]);
        assert(values(r.shifting_coefficients@) =~= seq![1nat, 1nat]);
        assert(r.mapping_vector@.drop_last() =~= seq![0usize]);
        assert(seq_max(seq![0usize]) == 0);
        assert(seq_max(r.mapping_vector@) == 1);
        r
    }
}

/// The expression `1 - Term(0) * Term(1)`.
fn one_minus_product() -> (c: Combine)
    ensures
        c.terms_below(2),
        forall|m: nat| m >= 1 ==> #[trigger] c.len_bound(m) == 2 * m,
        forall|t: Seq<nat>, x: nat| #[trigger] c.value(t, x) == fsub(1, fmul(t[0], t[1])),
{
    let one = Fe::one();
    let c = Combine::Sub(Box::new(Combine::Const(one)), Box::new(Combine::Mul(term(0), term(1))));
    proof {
        reveal_with_fuel(Combine::terms_below, 4);
        reveal_with_fuel(Combine::value, 4);
        reveal_with_fuel(Combine::len_bound, 4);
    }
    assert forall|t: Seq<nat>, x: nat| #[trigger] c.value(t, x) == fsub(1, fmul(t[0], t[1])) by {
        assert(Combine::Const(one).value(t, x) == 1);
    }
    c
}

} // verus!
