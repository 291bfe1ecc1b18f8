use vstd::prelude::*;

use crate::bytecode::ByteCode;
use crate::error::VmError;
use crate::micro_code::{
    call, call_post, ld, ld_post, ldc, pop, pop_post, ret, ret_post, same_rest,
    same_thread_but_operands, signal, signal_post, spawn, spawn_post, wait, wait_post,
};
use crate::runtime::Runtime;
use crate::thread::Thread;
use crate::value::{value_wf, Value, ValueV};

verus! {

/// The machine after the program counter moved past the current instruction
/// (handlers run with the counter already advanced, so a woken thread
/// resumes after its `WAIT`).
pub open spec fn advanced(rt: Runtime) -> Runtime {
    Runtime {
        current_thread: Thread {
            pc: (rt.current_thread.pc + 1) as usize,
            ..rt.current_thread
        },
        ..rt
    }
}

/// Everything the load-constant instruction does: push (a copy of) the
/// literal; nothing else moves.
pub open spec fn ldc_step_post(rt: Runtime, v: Value, res: Result<Runtime, VmError>) -> bool {
    &&& res matches Ok(rt2)
    &&& same_thread_but_operands(rt2.current_thread, rt.current_thread)
    &&& rt2.current_thread.operand_stack@.len() == rt.current_thread.operand_stack@.len() + 1
    &&& rt2.current_thread.operand_stack@.drop_last() == rt.current_thread.operand_stack@
    &&& (rt2.current_thread.operand_stack@.last())@ == v@
    &&& rt2.ready_queue@ == rt.ready_queue@
    &&& rt2.blocked_queue@ == rt.blocked_queue@
    &&& rt2.sems@ == rt.sems@
    &&& same_rest(rt, rt2)
}

/// Everything the halt instruction does: when no ready thread remains the
/// whole run completes (the machine is marked done); otherwise the halted
/// thread is discarded, exactly as a fully-drained one would be, and the
/// front of the ready queue becomes current.
pub open spec fn done_post(rt: Runtime, res: Result<Runtime, VmError>) -> bool {
    if rt.ready_queue@.len() == 0 {
        &&& res matches Ok(rt2)
        &&& rt2.done == true
        &&& rt2.current_thread == rt.current_thread
        &&& rt2.ready_queue@ == rt.ready_queue@
        &&& rt2.blocked_queue@ == rt.blocked_queue@
        &&& rt2.sems@ == rt.sems@
        &&& rt2.program@ == rt.program@
        &&& rt2.arena == rt.arena
        &&& rt2.next_thread_id == rt.next_thread_id
    } else {
        &&& res matches Ok(rt2)
        &&& rt2.current_thread == rt.ready_queue@[0]
        &&& rt2.ready_queue@ == rt.ready_queue@.drop_first()
        &&& rt2.blocked_queue@ == rt.blocked_queue@
        &&& rt2.sems@ == rt.sems@
        &&& same_rest(rt, rt2)
    }
}

/// One dispatch of the machine: a completed machine stays as it is; a
/// program counter outside the program is rejected; otherwise the counter
/// advances past the fetched instruction and that instruction's handler
/// (specified by its own postcondition) is applied.
pub open spec fn step_post(rt: Runtime, res: Result<Runtime, VmError>) -> bool {
    if rt.done {
        res matches Ok(rt2) && rt2 == rt
    } else if rt.current_thread.pc >= rt.program@.len() {
        res == Err::<Runtime, VmError>(VmError::PcOutOfBounds(rt.current_thread.pc))
    } else {
        let rta = advanced(rt);
        match rt.program@[rt.current_thread.pc as int] {
            ByteCode::LDC(v) => ldc_step_post(rta, v, res),
            ByteCode::LD(sym) => ld_post(rta, sym@, res),
            ByteCode::POP => pop_post(rta, res),
            ByteCode::DONE => done_post(rta, res),
            ByteCode::WAIT => wait_post(rta, res),
            ByteCode::SIGNAL => signal_post(rta, res),
            ByteCode::SPAWN(addr) => spawn_post(rta, addr, res),
            ByteCode::CALL(n) => call_post(rta, n, res),
            ByteCode::RET => ret_post(rta, res),
        }
    }
}

/// Execute one instruction: fetch at the current thread's program counter,
/// advance, dispatch. Errors abort the run; nothing is retried.
pub fn step(rt: Runtime) -> (res: Result<Runtime, VmError>)
    requires
        rt.wf(),
    ensures
        step_post(rt, res),
        res matches Ok(rt2) ==> rt2.wf(),
{
    if rt.done {
        return Ok(rt);
    }
    let pc = rt.current_thread.pc;
    if pc >= rt.program.len() {
        return Err(VmError::PcOutOfBounds(pc));
    }
    let ghost rt0 = rt;
    let mut rt = rt;
    let instr = rt.program[pc].dup();
    rt.current_thread.pc = pc + 1;
    proof {
        assert(rt == advanced(rt0));
        assert(crate::bytecode::bytecode_wf(rt0.program@[pc as int], rt0.n_frames(), rt0.n_sems()));
    }
    match instr {
        ByteCode::LDC(v) => {
            let ghost rta = rt;
            let rt2 = ldc(rt, v);
            proof {
                assert(rt2.current_thread.operand_stack@.drop_last()
                    =~= rta.current_thread.operand_stack@);
            }
            Ok(rt2)
        },
        ByteCode::LD(sym) => ld(rt, sym.as_str()),
        ByteCode::POP => pop(rt),
        ByteCode::DONE => {
            if rt.ready_queue.len() == 0 {
                rt.done = true;
                Ok(rt)
            } else {
                let Runtime {
                    current_thread: _halted,
                    mut ready_queue,
                    blocked_queue,
                    program,
                    arena,
                    sems,
                    next_thread_id,
                    done,
                } = rt;
                let next = match ready_queue.pop_front() {
                    Some(t) => t,
                    None => {
                        return Err(VmError::NoThreadsInReadyQueue);
                    },
                };
                Ok(Runtime {
                    current_thread: next,
                    ready_queue,
                    blocked_queue,
                    program,
                    arena,
                    sems,
                    next_thread_id,
                    done,
                })
            }
        },
        ByteCode::WAIT => wait(rt),
        ByteCode::SIGNAL => signal(rt),
        ByteCode::SPAWN(addr) => spawn(rt, addr),
        ByteCode::CALL(n) => call(rt, n),
        ByteCode::RET => ret(rt),
    }
}

/// `b` is reachable from `a` by exactly `n` dispatch steps.
pub open spec fn steps_to(a: Runtime, b: Runtime, n: nat) -> bool
    decreases n,
{
    if n == 0 {
        b == a
    } else {
        exists|mid: Runtime| #[trigger] step_post(a, Ok(mid)) && steps_to(mid, b, (n - 1) as nat)
    }
}

/// A step taken after a walk extends the walk by one.
proof fn lemma_steps_extend(a: Runtime, b: Runtime, c: Runtime, n: nat)
    requires
        steps_to(a, b, n),
        step_post(b, Ok(c)),
    ensures
        steps_to(a, c, n + 1),
    decreases n,
{
    if n == 0 {
        assert(step_post(a, Ok(c)) && steps_to(c, c, 0));
    } else {
        let mid = choose|mid: Runtime|
            #[trigger] step_post(a, Ok(mid)) && steps_to(mid, b, (n - 1) as nat);
        lemma_steps_extend(mid, b, c, (n - 1) as nat);
        assert(step_post(a, Ok(mid)) && steps_to(mid, c, n));
    }
}

/// What a completed run yields: the top of the final thread's operand stack,
/// or unit when every statement's result was popped.
pub open spec fn final_value_view(rt: Runtime) -> ValueV {
    if rt.current_thread.operand_stack@.len() == 0 {
        ValueV::Unit
    } else {
        (rt.current_thread.operand_stack@.last())@
    }
}

/// Drive the machine to completion, one instruction at a time, within a
/// step budget (the machine itself can run forever — a spawn loop — so the
/// caller bounds it): the final value of a machine that completes, `None`
/// when the budget ran out first, or the first error.
#[verifier::loop_isolation(false)]
pub fn run(rt: Runtime, max_steps: u64) -> (res: Result<Option<Value>, VmError>)
    requires
        rt.wf(),
    ensures
        res matches Ok(Some(v)) ==> exists|n: nat, rtf: Runtime|
            #![trigger steps_to(rt, rtf, n)]
            steps_to(rt, rtf, n) && rtf.done && v@ == final_value_view(rtf),
        res matches Err(e) ==> exists|n: nat, rtf: Runtime|
            #![trigger steps_to(rt, rtf, n)]
            steps_to(rt, rtf, n) && step_post(rtf, Err(e)),
        res matches Ok(None) ==> exists|rtf: Runtime|
            steps_to(rt, rtf, max_steps as nat) && !rtf.done,
{
    let ghost rt0 = rt;
    let mut cur = rt;
    let mut k: u64 = 0;
    let ghost mut n: nat = 0nat;
    while !cur.done && k < max_steps
        invariant
            cur.wf(),
            steps_to(rt0, cur, n),
            n == k as nat,
            k <= max_steps,
        decreases max_steps - k,
    {
        let ghost pre = cur;
        match step(cur) {
            Ok(next) => {
                proof {
                    lemma_steps_extend(rt0, pre, next, n);
                    n = n + 1;
                }
                cur = next;
                k = k + 1;
            },
            Err(e) => {
                proof {
                    assert(steps_to(rt0, pre, n) && step_post(pre, Err(e)));
                }
                return Err(e);
            },
        }
    }
    if cur.done {
        let ghost rtf = cur;
        let v = match cur.current_thread.operand_stack.pop() {
            Some(v) => v,
            None => Value::Unit,
        };
        proof {
            assert(v@ == final_value_view(rtf));
            assert(steps_to(rt0, rtf, n) && rtf.done);
        }
        Ok(Some(v))
    } else {
        Ok(None)
    }
}

} // verus!
