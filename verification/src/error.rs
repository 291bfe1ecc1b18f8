use vstd::prelude::*;

verus! {

/// Everything that can go wrong while loading or executing a program.
///
/// Loading problems (`Io`, `FileDoesNotExist`, `NotO2File`) are raised by the
/// collaborator that reads compiled programs from storage; the runtime itself
/// raises the structural, scheduling, type and call-protocol errors.
#[derive(Debug, PartialEq)]
pub enum VmError {
    Io(String),
    FileDoesNotExist(String),
    NotO2File(String),
    UnboundedName(String),
    OperandStackUnderflow,
    RuntimeStackUnderflow,
    NoThreadsInReadyQueue,
    PcOutOfBounds(usize),
    BadType { expected: String, found: String },
    IllegalArgument(String),
    UnsupportedOperation(String, String),
    TypeMismatch { expected: String, found: String },
    ArityParamsMismatch { arity: usize, params: usize },
    InsufficientArguments { expected: usize, got: usize },
    EnvironmentDroppedError,
    UnknownBuiltin { sym: String },
}

} // verus!
