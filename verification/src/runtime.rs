use std::collections::VecDeque;
use vstd::prelude::*;

use crate::bytecode::{bytecode_wf, ByteCode};
use crate::environment::{is_global_frame, opt_value_view, EnvArena, Environment};
use crate::error::VmError;
use crate::thread::{Thread, MAIN_THREAD_ID};
use crate::value::{value_wf, Value};

verus! {

/// The whole machine state: the running thread, the FIFO ready queue, the
/// FIFO blocked queue of (thread, semaphore) pairs, the loaded program, the
/// environment arena, the semaphore counters, the next thread id to hand
/// out, and whether the run has completed.
///
/// Every instruction handler consumes the machine and returns the next one
/// (or fails); nothing retains an alias across calls.
#[derive(Debug)]
pub struct Runtime {
    pub current_thread: Thread,
    pub ready_queue: VecDeque<Thread>,
    pub blocked_queue: VecDeque<(Thread, usize)>,
    pub program: Vec<ByteCode>,
    pub arena: EnvArena,
    pub sems: Vec<u64>,
    pub next_thread_id: i64,
    pub done: bool,
}

impl Runtime {
    pub open spec fn n_frames(self) -> int {
        self.arena.frames@.len() as int
    }

    pub open spec fn n_sems(self) -> int {
        self.sems@.len() as int
    }

    /// Every handle anywhere in the machine points inside the machine: the
    /// arena is well-formed, every value stored in a frame, on a stack or in
    /// a program literal keeps its handles in range, and every thread's
    /// environment frame exists.
    pub open spec fn wf(self) -> bool {
        &&& self.arena.wf()
        &&& forall|f: int, j: int|
            0 <= f < self.n_frames() && 0 <= j < self.arena.frames@[f].env@.len() ==> value_wf(
                ((#[trigger] self.arena.frames@[f].env@[j]).1)@,
                self.n_frames(),
                self.n_sems(),
            )
        &&& self.current_thread.wf(self.n_frames(), self.n_sems())
        &&& forall|i: int|
            0 <= i < self.ready_queue@.len() ==> (#[trigger] self.ready_queue@[i]).wf(
                self.n_frames(),
                self.n_sems(),
            )
        &&& forall|i: int|
            0 <= i < self.blocked_queue@.len() ==> (#[trigger] self.blocked_queue@[i]).0.wf(
                self.n_frames(),
                self.n_sems(),
            ) && ((self.blocked_queue@[i]).1 as int) < self.n_sems()
        &&& forall|i: int|
            0 <= i < self.program@.len() ==> bytecode_wf(
                #[trigger] self.program@[i],
                self.n_frames(),
                self.n_sems(),
            )
    }

    /// Make a machine ready to execute `program`: a fresh global environment
    /// (frame 0) and a single main thread about to run the instruction at
    /// address 0.
    pub fn load(program: Vec<ByteCode>) -> (rt: Runtime)
        requires
            forall|i: int| 0 <= i < program@.len() ==> bytecode_wf(#[trigger] program@[i], 1, 0),
        ensures
            rt.wf(),
            rt.program@ == program@,
            !rt.done,
            rt.current_thread.thread_id == MAIN_THREAD_ID,
            rt.current_thread.pc == 0,
            rt.current_thread.operand_stack@.len() == 0,
            rt.current_thread.runtime_stack@.len() == 0,
            rt.current_thread.env == 0,
            rt.ready_queue@.len() == 0,
            rt.blocked_queue@.len() == 0,
            rt.sems@.len() == 0,
            rt.next_thread_id == MAIN_THREAD_ID + 1,
            rt.arena.frames@.len() == 1,
            is_global_frame(rt.arena.frames@[0]),
    {
        let mut arena = EnvArena::new();
        let g = Environment::new_global(&mut arena);
        let rt = Runtime {
            current_thread: Thread::new(MAIN_THREAD_ID, 0, g),
            ready_queue: VecDeque::new(),
            blocked_queue: VecDeque::new(),
            program,
            arena,
            sems: Vec::new(),
            next_thread_id: MAIN_THREAD_ID + 1,
            done: false,
        };
        proof {
            assert forall|f: int, j: int|
                0 <= f < rt.n_frames() && 0 <= j
                    < rt.arena.frames@[f].env@.len() implies value_wf(
                ((#[trigger] rt.arena.frames@[f].env@[j]).1)@,
                rt.n_frames(),
                rt.n_sems(),
            ) by {
                assert(value_wf((rt.arena.frames@[0].env@[j]).1@, 0, 0));
            }
        }
        rt
    }

    /// Create a new semaphore with the given initial count and return the
    /// handle that `Value::Semaphore` carries.
    pub fn new_semaphore(&mut self, count: u64) -> (s: usize)
        requires
            old(self).wf(),
        ensures
            final(self).wf(),
            s == old(self).sems@.len(),
            final(self).sems@ == old(self).sems@.push(count),
            final(self).current_thread == old(self).current_thread,
            final(self).ready_queue@ == old(self).ready_queue@,
            final(self).blocked_queue@ == old(self).blocked_queue@,
            final(self).program@ == old(self).program@,
            final(self).arena == old(self).arena,
            final(self).next_thread_id == old(self).next_thread_id,
            final(self).done == old(self).done,
    {
        let s = self.sems.len();
        self.sems.push(count);
        s
    }

    /// Read a semaphore's counter (the runtime serialises all access, so
    /// this is the value at rest).
    pub fn sem_count(&self, s: usize) -> (c: u64)
        requires
            s < self.sems@.len(),
        ensures
            c == self.sems@[s as int],
    {
        self.sems[s]
    }
}

/// Give the current thread a fresh environment frame, child of `parent`,
/// holding `syms` bound pairwise to `vals` (a symbol repeated later in the
/// lists wins, as repeated declaration would).
pub fn extend_environment(
    rt: Runtime,
    parent: usize,
    syms: Vec<&str>,
    vals: Vec<Value>,
) -> (res: Result<Runtime, VmError>)
    requires
        rt.wf(),
        (parent as int) < rt.n_frames(),
        forall|i: int| 0 <= i < vals@.len() ==> value_wf((#[trigger] vals@[i])@, rt.n_frames(), rt.n_sems()),
    ensures
        syms@.len() != vals@.len() ==> {
            &&& res matches Err(e)
            &&& (e matches VmError::InsufficientArguments { expected, got } && expected as int
                == syms@.len() && got as int == vals@.len())
        },
        syms@.len() == vals@.len() ==> {
            &&& res matches Ok(rt2)
            &&& rt2.wf()
            &&& rt2.arena.frames@.len() == rt.arena.frames@.len() + 1
            &&& forall|i: int|
                0 <= i < rt.arena.frames@.len() ==> rt2.arena.frames@[i] == rt.arena.frames@[i]
            &&& rt2.arena.frames@.last().parent == Some(parent)
            &&& forall|k: int|
                0 <= k < syms@.len() && (forall|k2: int|
                    k < k2 < syms@.len() ==> (#[trigger] syms@[k2])@ != syms@[k]@)
                    ==> opt_value_view(
                    crate::environment::assoc_lookup(rt2.arena.frames@.last().env@, syms@[k]@),
                ) == Some(vals@[k]@)
            &&& rt2.current_thread.env == rt.arena.frames@.len()
            &&& rt2.current_thread.thread_id == rt.current_thread.thread_id
            &&& rt2.current_thread.pc == rt.current_thread.pc
            &&& rt2.current_thread.operand_stack@ == rt.current_thread.operand_stack@
            &&& rt2.current_thread.runtime_stack@ == rt.current_thread.runtime_stack@
            &&& rt2.ready_queue@ == rt.ready_queue@
            &&& rt2.blocked_queue@ == rt.blocked_queue@
            &&& rt2.program@ == rt.program@
            &&& rt2.sems@ == rt.sems@
            &&& rt2.next_thread_id == rt.next_thread_id
            &&& rt2.done == rt.done
        },
{
    if syms.len() != vals.len() {
        return Err(VmError::InsufficientArguments { expected: syms.len(), got: vals.len() });
    }
    let mut rt = rt;
    let mut e = Environment::new();
    e.set_parent(parent);
    let n = syms.len();
    let mut j: usize = 0;
    while j < n
        invariant
            n == syms@.len(),
            n == vals@.len(),
            j <= n,
            forall|i: int|
                0 <= i < vals@.len() ==> value_wf((#[trigger] vals@[i])@, rt.n_frames(), rt.n_sems()),
            e.parent == Some(parent),
            e.keys_unique(),
            forall|k: int|
                0 <= k < j as int && (forall|k2: int|
                    k < k2 < j as int ==> (#[trigger] syms@[k2])@ != syms@[k]@)
                    ==> opt_value_view(crate::environment::assoc_lookup(e.env@, syms@[k]@))
                    == Some(vals@[k]@),
            forall|i: int|
                0 <= i < e.env@.len() ==> value_wf(((#[trigger] e.env@[i]).1)@, rt.n_frames(), rt.n_sems()),
        decreases n - j,
    {
        let ghost e0 = e;
        let dv = vals[j].dup();
        let ghost dvv = dv;
        e.set(syms[j], dv);
        proof {
            assert forall|i: int|
                0 <= i < e.env@.len() implies value_wf(
                ((#[trigger] e.env@[i]).1)@,
                rt.n_frames(),
                rt.n_sems(),
            ) by {
                if (e.env@[i]).1 != dvv {
                    let k = choose|k: int|
                        0 <= k < e0.env@.len() && e0.env@[k].1 == (e.env@[i]).1;
                    assert(value_wf(((e0.env@[k]).1)@, rt.n_frames(), rt.n_sems()));
                } else {
                    assert(dvv@ == vals@[j as int]@);
                }
            }
        }
        j += 1;
    }
    let fr = rt.arena.add_frame(e);
    rt.current_thread.env = fr;
    Ok(rt)
}

impl Default for Runtime {
    /// An empty machine: no program loaded, one main thread at address 0 in
    /// a fresh global environment.
    fn default() -> (rt: Runtime)
        ensures
            rt.wf(),
            rt.program@.len() == 0,
            !rt.done,
            rt.current_thread.thread_id == MAIN_THREAD_ID,
            rt.current_thread.pc == 0,
            rt.current_thread.operand_stack@.len() == 0,
            rt.current_thread.runtime_stack@.len() == 0,
            rt.current_thread.env == 0,
            rt.ready_queue@.len() == 0,
            rt.blocked_queue@.len() == 0,
            rt.sems@.len() == 0,
            rt.next_thread_id == MAIN_THREAD_ID + 1,
            rt.arena.frames@.len() == 1,
            is_global_frame(rt.arena.frames@[0]),
    {
        Runtime::load(Vec::new())
    }
}

} // verus!
