use vstd::prelude::*;

use crate::value::{value_wf, Value};

verus! {

/// The id of the first thread a runtime creates.
pub const MAIN_THREAD_ID: i64 = 1;

/// One activation record of the runtime stack: the address to return to and
/// the caller's environment frame to restore.
#[derive(Debug, PartialEq)]
pub struct StackFrame {
    pub address: usize,
    pub env: usize,
}

/// One logical thread of execution: a continuation the scheduler can park
/// and resume. A thread is running when it is the scheduler's current
/// thread, ready when it sits in the ready queue, and blocked when it sits
/// in the blocked queue paired with the semaphore it waits on.
#[derive(Debug, PartialEq)]
pub struct Thread {
    pub thread_id: i64,
    pub pc: usize,
    pub operand_stack: Vec<Value>,
    pub runtime_stack: Vec<StackFrame>,
    pub env: usize,
}

impl Thread {
    /// Every handle held by the thread points inside the machine.
    pub open spec fn wf(self, n_frames: int, n_sems: int) -> bool {
        &&& (self.env as int) < n_frames
        &&& forall|i: int|
            0 <= i < self.operand_stack@.len() ==> value_wf(
                (#[trigger] self.operand_stack@[i])@,
                n_frames,
                n_sems,
            )
        &&& forall|i: int|
            0 <= i < self.runtime_stack@.len() ==> ((#[trigger] self.runtime_stack@[i]).env as int)
                < n_frames
    }

    /// A fresh thread: empty stacks, about to execute the instruction at `pc`
    /// in environment frame `env`.
    pub fn new(thread_id: i64, pc: usize, env: usize) -> (t: Thread)
        ensures
            t.thread_id == thread_id,
            t.pc == pc,
            t.env == env,
            t.operand_stack@ == Seq::<Value>::empty(),
            t.runtime_stack@ == Seq::<StackFrame>::empty(),
    {
        Thread {
            thread_id,
            pc,
            operand_stack: Vec::new(),
            runtime_stack: Vec::new(),
            env,
        }
    }
}

} // verus!
