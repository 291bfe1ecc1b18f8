use vstd::prelude::*;

use crate::value::{value_wf, Symbol, Value};

verus! {

/// One instruction of a compiled program. Each is a fixed-shape record; the
/// dispatcher executes the one the current thread's program counter points
/// at.
#[derive(Debug, PartialEq)]
pub enum ByteCode {
    /// Push a literal value onto the operand stack.
    LDC(Value),
    /// Resolve a symbol through the current environment and push the result.
    LD(Symbol),
    /// Discard the top operand (statement results).
    POP,
    /// Halt the current thread; the run completes when no ready thread is
    /// left to take over.
    DONE,
    /// Pop a semaphore and decrement it, blocking when it is exhausted.
    WAIT,
    /// Pop a semaphore and increment it, waking the earliest blocked waiter.
    SIGNAL,
    /// Start a new thread at the given address.
    SPAWN(usize),
    /// Call the closure beneath the top `n` operands (the arguments), pushing
    /// an activation record and jumping, or dispatching a builtin natively.
    CALL(usize),
    /// Pop the top activation record: restore the caller's environment and
    /// jump back to it, leaving the callee's result on the operand stack.
    RET,
}

/// A literal carried by an instruction keeps its handles inside the machine.
pub open spec fn bytecode_wf(bc: ByteCode, n_frames: int, n_sems: int) -> bool {
    match bc {
        ByteCode::LDC(v) => value_wf(v@, n_frames, n_sems),
        _ => true,
    }
}

impl ByteCode {
    /// Load-constant instruction for a literal value.
    pub fn ldc(v: Value) -> (r: ByteCode)
        ensures
            r == ByteCode::LDC(v),
    {
        ByteCode::LDC(v)
    }

    /// An owned copy with the same mathematical content (the dispatcher
    /// decodes a copy so the machine itself can move on).
    pub fn dup(&self) -> (r: ByteCode)
        ensures
            self matches ByteCode::LDC(v) ==> (r matches ByteCode::LDC(w) && w@ == v@),
            self matches ByteCode::LD(s) ==> (r matches ByteCode::LD(t) && t@ == s@),
            self matches ByteCode::POP ==> r == ByteCode::POP,
            self matches ByteCode::DONE ==> r == ByteCode::DONE,
            self matches ByteCode::WAIT ==> r == ByteCode::WAIT,
            self matches ByteCode::SIGNAL ==> r == ByteCode::SIGNAL,
            self matches ByteCode::SPAWN(a) ==> r == ByteCode::SPAWN(*a),
            self matches ByteCode::CALL(n) ==> r == ByteCode::CALL(*n),
            self matches ByteCode::RET ==> r == ByteCode::RET,
    {
        match self {
            ByteCode::LDC(v) => ByteCode::LDC(v.dup()),
            ByteCode::LD(s) => ByteCode::LD(s.clone()),
            ByteCode::POP => ByteCode::POP,
            ByteCode::DONE => ByteCode::DONE,
            ByteCode::WAIT => ByteCode::WAIT,
            ByteCode::SIGNAL => ByteCode::SIGNAL,
            ByteCode::SPAWN(a) => ByteCode::SPAWN(*a),
            ByteCode::CALL(n) => ByteCode::CALL(*n),
            ByteCode::RET => ByteCode::RET,
        }
    }
}

} // verus!
