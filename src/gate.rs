//! Arithmetic-circuit gates of the circuit front end, kept as records keyed
//! by label: an input that is another gate names it by its label.
use vstd::prelude::*;
use vstd::string::StringExecFns;
use crate::error::Error;
use crate::field::Fe;
use ark_bn254::Fr;
use ark_ff::{BigInteger, BigInteger256, PrimeField};

verus! {

/// How ark-ff displays the field element of value `v`.
pub uninterp spec fn fe_display(v: nat) -> Seq<char>;

/// Relies on the `Display` of ark-ff's `Fp256`, which shows the canonical value.
#[verifier::external_body]
pub(crate) fn ark_fe_display(x: Fe) -> (r: String)
    ensures
        r@ == fe_display(x@),
{
    format!("{}", Fr::from_le_bytes_mod_order(&BigInteger256::new(x.limbs).to_bytes_le()))
}

#[derive(Debug, Clone, Copy, PartialEq, Eq)]
pub enum GateType {
    Add,
    Mul,
}

#[derive(Debug, Clone)]
pub enum GateInput {
    Constant(Fe),
    /// A named circuit input.
    Input(String),
    /// The output of the circuit node with that label.
    Gate(String),
}

#[derive(Debug, Clone)]
pub struct Gate {
    pub left: GateInput,
    pub right: GateInput,
    pub symbol: GateType,
    pub label: String,
}

pub open spec fn symbol_text(s: GateType) -> Seq<char> {
    match s {
        GateType::Add => seq!['+'],
        GateType::Mul => seq!['*'],
    }
}

pub open spec fn input_text(i: GateInput) -> Seq<char> {
    match i {
        GateInput::Constant(c) => fe_display(c@),
        GateInput::Input(s) => s@,
        GateInput::Gate(l) => l@,
    }
}

/// Two inputs are the same: equal constants, the same named input, or the
/// same circuit node.
pub open spec fn same_input(a: GateInput, b: GateInput) -> bool {
    match (a, b) {
        (GateInput::Constant(x), GateInput::Constant(y)) => x@ == y@,
        (GateInput::Input(x), GateInput::Input(y)) => x@ == y@,
        (GateInput::Gate(x), GateInput::Gate(y)) => x@ == y@,
        _ => false,
    }
}

impl GateType {
    pub fn to_string(&self) -> (r: String)
        ensures
            r@ == symbol_text(*self),
    {
        let r = match self {
            GateType::Add => String::from_str("+"),
            GateType::Mul => String::from_str("*"),
        };
        proof {
            reveal_strlit("+");
            reveal_strlit("*");
        }
        r
    }
}

impl GateInput {
    pub fn to_string(&self) -> (r: String)
        ensures
            r@ == input_text(*self),
    {
        match self {
            GateInput::Constant(c) => ark_fe_display(*c),
            GateInput::Input(s) => s.clone(),
            GateInput::Gate(l) => l.clone(),
        }
    }

    /// Whether two inputs are the same: equal constants, the same named
    /// input, or the same circuit node.
    pub fn equals(&self, other: &GateInput) -> (r: bool)
        ensures
            r == same_input(*self, *other),
    {
        match (self, other) {
            (GateInput::Constant(a), GateInput::Constant(b)) => a.equals(b),
            (GateInput::Input(a), GateInput::Input(b)) => *a == *b,
            (GateInput::Gate(a), GateInput::Gate(b)) => *a == *b,
            _ => false,
        }
    }

    /// The label of the circuit node this input reads; `GateInputNotGate` for a
    /// constant or a circuit input.
    pub fn into_gate(&self) -> (r: Result<String, Error>)
        ensures
            r matches Ok(l) ==> (*self matches GateInput::Gate(g) && l@ == g@),
            r is Err <==> !(*self is Gate),
            r matches Err(e) ==> e is GateInputNotGate,
    {
        match self {
            GateInput::Gate(l) => Ok(l.clone()),
            _ => Err(Error::GateInputNotGate),
        }
    }
}

impl Gate {
    /// The text `label: (left, right, symbol)`.
    pub fn to_string(&self) -> (r: String)
        ensures
            r@ == self.label@ + ": ("@ + input_text(self.left) + ", "@ + input_text(self.right) + ", "@
                + symbol_text(self.symbol) + ")"@,
    {
        let mut r = self.label.clone();
        r.append(": (");
        r.append(self.left.to_string().as_str());
        r.append(", ");
        r.append(self.right.to_string().as_str());
        r.append(", ");
        r.append(self.symbol.to_string().as_str());
        r.append(")");
        r
    }
}

} // verus!
