//! The failures that the subprotocols report.
use vstd::prelude::*;

verus! {

#[derive(Debug, Clone, PartialEq, Eq)]
pub enum Error {
    /// The virtual oracle does not vanish on the domain: the witness is invalid.
    Check1Failed,
    /// The virtual oracle's value at the challenge disagrees with quotient times vanishing polynomial.
    Check2Failed,
    /// An opening of the commitment scheme did not verify.
    BatchCheckError,
    /// The commitment scheme failed; the text says where.
    PCError(String),
    /// A virtual oracle was given the wrong number of concrete oracles.
    InstantiationError,
    /// A virtual oracle was given the wrong number of evaluations.
    EvaluationError,
    /// The witness of a non-zero test has a zero on the domain.
    FEvalIsZero,
    VOFailedToCompute,
    VOFailedToInstantiate,
    /// Commitments combined linearly have different degree bounds.
    MismatchedDegreeBounds(String),
    /// A linear combination names a label that no commitment carries.
    MissingCommitment(String),
    /// Parallel inputs have different lengths.
    InputLengthError(String),
    GateInputNotGate,
    /// The requested parameter exceeds the size of the domain.
    T2Large,
}

} // verus!
