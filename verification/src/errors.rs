use vstd::prelude::*;

verus! {

/// Every way a load or a synthesis can fail.
///
/// Loading and synthesis fail fast: the first defect aborts the whole
/// operation, because a partially loaded circuit or a partially synthesized
/// constraint system must never reach the proving backend.
#[derive(Clone, Copy, Debug, PartialEq, Eq, Structural)]
pub enum BridgeError {
    /// The first line of a file could not be decoded as a header.
    MalformedHeader,
    /// A coefficient string is not a valid decimal field-element literal.
    InvalidFieldElement,
    /// The file holds no line at all, so there is no header to read.
    TruncatedFile,
    /// The payload line with this 1-based number could not be decoded.
    MalformedRecord(usize),
    /// A variable index lies outside the range declared by the header.
    InconsistentVariableCount,
    /// A witness was supplied but holds no value for this variable index.
    MissingWitnessValue(usize),
    /// A constraint references this index, which no allocated variable and
    /// not the constant-one variable covers.
    UnknownVariableIndex(usize),
    /// The external constraint-system builder rejected an operation.
    Synthesis,
}

impl BridgeError {
    /// A short description of the failure, for reporting at the edge.
    pub fn describe(&self) -> (m: &'static str) {
        match self {
            BridgeError::MalformedHeader => "malformed header line",
            BridgeError::InvalidFieldElement => "invalid field element literal",
            BridgeError::TruncatedFile => "file holds no header line",
            BridgeError::MalformedRecord(_) => "malformed payload line",
            BridgeError::InconsistentVariableCount => "variable index out of declared range",
            BridgeError::MissingWitnessValue(_) => "witness lacks a value for a variable",
            BridgeError::UnknownVariableIndex(_) => "constraint references an unknown variable",
            BridgeError::Synthesis => "constraint-system builder failure",
        }
    }
}

} // verus!
