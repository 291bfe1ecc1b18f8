use vstd::prelude::*;

use crate::environment::{arena_lookup, lemma_arena_lookup_is_stored, Environment};
use crate::error::VmError;
use crate::runtime::Runtime;
use crate::thread::{StackFrame, Thread};
use crate::value::{bad_type_error, value_wf, FnType, Symbol, Value, ValueV};

verus! {

/// The operand the semaphore instructions pop: the top of the current
/// thread's operand stack.
pub open spec fn top_operand(rt: Runtime) -> Option<Value> {
    if rt.current_thread.operand_stack@.len() == 0 {
        None
    } else {
        Some(rt.current_thread.operand_stack@.last())
    }
}

/// `a` and `b` are the same thread at the same position, differing at most
/// in what sits on the operand stack.
pub open spec fn same_thread_but_operands(a: Thread, b: Thread) -> bool {
    &&& a.thread_id == b.thread_id
    &&& a.pc == b.pc
    &&& a.env == b.env
    &&& a.runtime_stack@ == b.runtime_stack@
}

/// The parts of the machine the scheduling instructions never touch.
pub open spec fn same_rest(a: Runtime, b: Runtime) -> bool {
    &&& a.program@ == b.program@
    &&& a.arena == b.arena
    &&& a.next_thread_id == b.next_thread_id
    &&& a.done == b.done
}

/// Index of the earliest (frontmost) blocked entry waiting on semaphore `s`,
/// or -1 when no blocked thread waits on it.
pub open spec fn first_waiter(bq: Seq<(Thread, usize)>, s: usize) -> int
    decreases bq.len(),
{
    if bq.len() == 0 {
        -1
    } else if bq[0].1 == s {
        0
    } else {
        let r = first_waiter(bq.drop_first(), s);
        if r < 0 {
            -1
        } else {
            r + 1
        }
    }
}

/// `first_waiter` finds exactly the earliest matching entry: when it is -1
/// nothing matches, and when it is an index, that entry matches and nothing
/// before it does.
pub proof fn lemma_first_waiter(bq: Seq<(Thread, usize)>, s: usize)
    ensures
        first_waiter(bq, s) == -1 ==> forall|j: int| 0 <= j < bq.len() ==> (#[trigger] bq[j]).1 != s,
        first_waiter(bq, s) != -1 ==> {
            let i = first_waiter(bq, s);
            &&& 0 <= i < bq.len()
            &&& (bq[i]).1 == s
            &&& forall|j: int| 0 <= j < i ==> (#[trigger] bq[j]).1 != s
        },
    decreases bq.len(),
{
    if bq.len() > 0 && bq[0].1 != s {
        lemma_first_waiter(bq.drop_first(), s);
        let r = first_waiter(bq.drop_first(), s);
        if r == -1 {
            assert forall|j: int| 0 <= j < bq.len() implies (#[trigger] bq[j]).1 != s by {
                if j > 0 {
                    assert(bq.drop_first()[j - 1].1 != s);
                }
            }
        } else {
            assert(bq[r + 1] == bq.drop_first()[r]);
            assert forall|j: int| 0 <= j < r + 1 implies (#[trigger] bq[j]).1 != s by {
                if j > 0 {
                    assert(bq.drop_first()[j - 1].1 != s);
                }
            }
        }
    }
}

/// Everything `wait` does, by case on the popped operand:
/// - an empty stack underflows;
/// - a non-semaphore is a type error;
/// - a positive counter is decremented by exactly one and the current thread
///   keeps running (only its popped operand is gone);
/// - an exhausted counter parks the current thread, paired with that
///   semaphore, at the back of the blocked queue and promotes the front of
///   the ready queue, or fails with the scheduling error when no ready
///   thread exists to take over.
pub open spec fn wait_post(rt: Runtime, res: Result<Runtime, VmError>) -> bool {
    match top_operand(rt) {
        None => res == Err::<Runtime, VmError>(VmError::OperandStackUnderflow),
        Some(top) => match top@ {
            ValueV::Semaphore(s) => {
                if rt.sems@[s as int] > 0 {
                    &&& res matches Ok(rt2)
                    &&& same_thread_but_operands(rt2.current_thread, rt.current_thread)
                    &&& rt2.current_thread.operand_stack@ == rt.current_thread.operand_stack@.drop_last()
                    &&& rt2.sems@ == rt.sems@.update(s as int, (rt.sems@[s as int] - 1) as u64)
                    &&& rt2.ready_queue@ == rt.ready_queue@
                    &&& rt2.blocked_queue@ == rt.blocked_queue@
                    &&& same_rest(rt, rt2)
                } else if rt.ready_queue@.len() == 0 {
                    res == Err::<Runtime, VmError>(VmError::NoThreadsInReadyQueue)
                } else {
                    &&& res matches Ok(rt2)
                    &&& rt2.current_thread == rt.ready_queue@[0]
                    &&& rt2.ready_queue@ == rt.ready_queue@.drop_first()
                    &&& rt2.blocked_queue@.len() == rt.blocked_queue@.len() + 1
                    &&& rt2.blocked_queue@.drop_last() == rt.blocked_queue@
                    &&& (rt2.blocked_queue@.last()).1 == s
                    &&& same_thread_but_operands((rt2.blocked_queue@.last()).0, rt.current_thread)
                    &&& (rt2.blocked_queue@.last()).0.operand_stack@
                        == rt.current_thread.operand_stack@.drop_last()
                    &&& rt2.sems@ == rt.sems@
                    &&& same_rest(rt, rt2)
                }
            },
            _ => res matches Err(e) && bad_type_error(e, "semaphore"@, top@),
        },
    }
}

/// Pop a semaphore off the operand stack; decrement it if it is positive,
/// otherwise block the current thread on it and promote the front of the
/// ready queue.
pub fn wait(rt: Runtime) -> (res: Result<Runtime, VmError>)
    requires
        rt.wf(),
    ensures
        wait_post(rt, res),
        res matches Ok(rt2) ==> rt2.wf(),
{
    let ghost rt0 = rt;
    let mut rt = rt;
    let top = match rt.current_thread.operand_stack.pop() {
        Some(v) => v,
        None => {
            return Err(VmError::OperandStackUnderflow);
        },
    };
    proof {
        let stk = rt0.current_thread.operand_stack@;
        assert(value_wf((stk[stk.len() - 1])@, rt0.n_frames(), rt0.n_sems()));
    }
    let s = match top.as_semaphore() {
        Ok(s) => s,
        Err(e) => {
            return Err(e);
        },
    };
    let c = rt.sems[s];
    if c > 0 {
        let slot = &mut rt.sems[s];
        *slot = c - 1;
        proof {
            lemma_same_values_wf(rt0, rt);
        }
        Ok(rt)
    } else {
        let Runtime {
            current_thread,
            mut ready_queue,
            mut blocked_queue,
            program,
            arena,
            sems,
            next_thread_id,
            done,
        } = rt;
        let next = match ready_queue.pop_front() {
            Some(t) => t,
            None => {
                return Err(VmError::NoThreadsInReadyQueue);
            },
        };
        blocked_queue.push_back((current_thread, s));
        let rt2 = Runtime {
            current_thread: next,
            ready_queue,
            blocked_queue,
            program,
            arena,
            sems,
            next_thread_id,
            done,
        };
        proof {
            assert(rt2.blocked_queue@.drop_last() =~= rt0.blocked_queue@);
            lemma_same_values_wf(rt0, rt2);
        }
        Ok(rt2)
    }
}

/// The two machines have the same capacities, and every value reachable in
/// the second was already well-formed in the first: a helper that carries
/// `wf` across queue and stack rearrangements.
proof fn lemma_same_values_wf(a: Runtime, b: Runtime)
    requires
        a.wf(),
        a.current_thread.operand_stack@.len() > 0,
        b.n_frames() == a.n_frames(),
        b.n_sems() == a.n_sems(),
        b.arena == a.arena,
        b.program@ == a.program@,
        same_thread_but_operands(b.current_thread, a.current_thread) && (b.current_thread.operand_stack@
            == a.current_thread.operand_stack@ || b.current_thread.operand_stack@
            == a.current_thread.operand_stack@.drop_last()) || a.ready_queue@.len() > 0
            && b.current_thread == a.ready_queue@[0],
        b.ready_queue@ == a.ready_queue@ || (a.ready_queue@.len() > 0 && b.ready_queue@ == a.ready_queue@.drop_first()),
        b.blocked_queue@ == a.blocked_queue@ || (b.blocked_queue@.len() == a.blocked_queue@.len()
            + 1 && b.blocked_queue@.drop_last() == a.blocked_queue@ && ((
        b.blocked_queue@.last()).1 as int) < a.n_sems() && same_thread_but_operands(
            (b.blocked_queue@.last()).0,
            a.current_thread,
        ) && ((b.blocked_queue@.last()).0.operand_stack@ == a.current_thread.operand_stack@
            || (b.blocked_queue@.last()).0.operand_stack@
            == a.current_thread.operand_stack@.drop_last())),
    ensures
        b.wf(),
{
    assert forall|k: int|
        0 <= k < b.program@.len() implies crate::bytecode::bytecode_wf(
        #[trigger] b.program@[k],
        b.n_frames(),
        b.n_sems(),
    ) by {
        assert(crate::bytecode::bytecode_wf(a.program@[k], a.n_frames(), a.n_sems()));
    }
    assert forall|i: int|
        0 <= i < b.current_thread.operand_stack@.len() implies value_wf(
        (#[trigger] b.current_thread.operand_stack@[i])@,
        b.n_frames(),
        b.n_sems(),
    ) by {
        if b.current_thread == a.ready_queue@[0] && a.ready_queue@.len() > 0 {
            assert(a.ready_queue@[0].wf(a.n_frames(), a.n_sems()));
        } else {
            assert(b.current_thread.operand_stack@[i] == a.current_thread.operand_stack@[i]);
            assert(value_wf((a.current_thread.operand_stack@[i])@, a.n_frames(), a.n_sems()));
        }
    }
    assert forall|i: int|
        0 <= i < b.current_thread.runtime_stack@.len() implies ((
    #[trigger] b.current_thread.runtime_stack@[i]).env as int) < b.n_frames() by {
        if b.current_thread == a.ready_queue@[0] && a.ready_queue@.len() > 0 {
            assert(a.ready_queue@[0].wf(a.n_frames(), a.n_sems()));
        } else {
            assert(((a.current_thread.runtime_stack@[i]).env as int) < a.n_frames());
        }
    }
    assert forall|i: int|
        0 <= i < b.ready_queue@.len() implies (#[trigger] b.ready_queue@[i]).wf(
        b.n_frames(),
        b.n_sems(),
    ) by {
        if b.ready_queue@ == a.ready_queue@ {
            assert(a.ready_queue@[i].wf(a.n_frames(), a.n_sems()));
        } else {
            assert(b.ready_queue@[i] == a.ready_queue@[i + 1]);
            assert(a.ready_queue@[i + 1].wf(a.n_frames(), a.n_sems()));
        }
    }
    assert forall|i: int|
        0 <= i < b.blocked_queue@.len() implies (#[trigger] b.blocked_queue@[i]).0.wf(
        b.n_frames(),
        b.n_sems(),
    ) && (((b.blocked_queue@[i]).1) as int) < b.n_sems() by {
        if b.blocked_queue@ == a.blocked_queue@ {
            assert((a.blocked_queue@[i]).0.wf(a.n_frames(), a.n_sems()));
            assert((((a.blocked_queue@[i]).1) as int) < a.n_sems());
        } else {
            if i < a.blocked_queue@.len() {
                assert(b.blocked_queue@[i] == a.blocked_queue@[i]);
                assert((a.blocked_queue@[i]).0.wf(a.n_frames(), a.n_sems()));
                assert((((a.blocked_queue@[i]).1) as int) < a.n_sems());
            } else {
                let bt = (b.blocked_queue@.last()).0;
                assert forall|k: int|
                    0 <= k < bt.operand_stack@.len() implies value_wf(
                    (#[trigger] bt.operand_stack@[k])@,
                    b.n_frames(),
                    b.n_sems(),
                ) by {
                    assert(bt.operand_stack@[k] == a.current_thread.operand_stack@[k]);
                    assert(value_wf((a.current_thread.operand_stack@[k])@, a.n_frames(), a.n_sems()));
                }
                assert forall|k: int|
                    0 <= k < bt.runtime_stack@.len() implies ((
                #[trigger] bt.runtime_stack@[k]).env as int) < b.n_frames() by {
                    assert(((a.current_thread.runtime_stack@[k]).env as int) < a.n_frames());
                }
            }
        }
    }
}

/// Everything `signal` does, by case on the popped operand: a non-semaphore
/// is a type error; with one or more blocked waiters on that semaphore the
/// earliest-blocked one is removed and appended to the back of the ready
/// queue and the counter is unchanged (the increment is handed straight to
/// the woken thread); with no waiter the counter goes up by exactly one and
/// no queue is touched. The current thread is never switched.
pub open spec fn signal_post(rt: Runtime, res: Result<Runtime, VmError>) -> bool {
    match top_operand(rt) {
        None => res == Err::<Runtime, VmError>(VmError::OperandStackUnderflow),
        Some(top) => match top@ {
            ValueV::Semaphore(s) => {
                let i = first_waiter(rt.blocked_queue@, s);
                if i != -1 {
                    &&& res matches Ok(rt2)
                    &&& rt2.blocked_queue@ == rt.blocked_queue@.remove(i)
                    &&& rt2.ready_queue@ == rt.ready_queue@.push((rt.blocked_queue@[i]).0)
                    &&& rt2.sems@ == rt.sems@
                    &&& same_thread_but_operands(rt2.current_thread, rt.current_thread)
                    &&& rt2.current_thread.operand_stack@ == rt.current_thread.operand_stack@.drop_last()
                    &&& same_rest(rt, rt2)
                } else if rt.sems@[s as int] == u64::MAX {
                    res matches Err(e) && e matches VmError::IllegalArgument(_)
                } else {
                    &&& res matches Ok(rt2)
                    &&& rt2.sems@ == rt.sems@.update(s as int, (rt.sems@[s as int] + 1) as u64)
                    &&& rt2.ready_queue@ == rt.ready_queue@
                    &&& rt2.blocked_queue@ == rt.blocked_queue@
                    &&& same_thread_but_operands(rt2.current_thread, rt.current_thread)
                    &&& rt2.current_thread.operand_stack@ == rt.current_thread.operand_stack@.drop_last()
                    &&& same_rest(rt, rt2)
                }
            },
            _ => res matches Err(e) && bad_type_error(e, "semaphore"@, top@),
        },
    }
}

/// Pop a semaphore off the operand stack; wake the earliest thread blocked
/// on it (hand-off: the counter never moves), or, when nothing waits,
/// increment the counter for a future `wait` to consume.
#[verifier::loop_isolation(false)]
pub fn signal(rt: Runtime) -> (res: Result<Runtime, VmError>)
    requires
        rt.wf(),
    ensures
        signal_post(rt, res),
        res matches Ok(rt2) ==> rt2.wf(),
{
    let ghost rt0 = rt;
    let mut rt = rt;
    let top = match rt.current_thread.operand_stack.pop() {
        Some(v) => v,
        None => {
            return Err(VmError::OperandStackUnderflow);
        },
    };
    proof {
        let stk = rt0.current_thread.operand_stack@;
        assert(value_wf((stk[stk.len() - 1])@, rt0.n_frames(), rt0.n_sems()));
    }
    let s = match top.as_semaphore() {
        Ok(s) => s,
        Err(e) => {
            return Err(e);
        },
    };
    let ghost rt1 = rt;
    let n = rt.blocked_queue.len();
    let mut i: usize = 0;
    while i < n
        invariant
            rt == rt1,
            rt0.wf(),
            same_thread_but_operands(rt1.current_thread, rt0.current_thread),
            rt1.current_thread.operand_stack@ == rt0.current_thread.operand_stack@.drop_last(),
            rt1.ready_queue@ == rt0.ready_queue@,
            rt1.blocked_queue@ == rt0.blocked_queue@,
            rt1.sems@ == rt0.sems@,
            same_rest(rt0, rt1),
            rt0.current_thread.operand_stack@.len() > 0,
            (rt0.current_thread.operand_stack@.last())@ == ValueV::Semaphore(s),
            (s as int) < rt0.n_sems(),
            n == rt.blocked_queue@.len(),
            i <= n,
            forall|j: int| 0 <= j < i as int ==> ((#[trigger] rt.blocked_queue@[j]).1) != s,
        decreases n - i,
    {
        if rt.blocked_queue[i].1 == s {
            proof {
                lemma_first_waiter(rt0.blocked_queue@, s);
                assert(first_waiter(rt0.blocked_queue@, s) == i as int);
            }
            let woken = match rt.blocked_queue.remove(i) {
                Some(pair) => pair,
                None => {
                    return Err(VmError::IllegalArgument(String::from_str(
                        "blocked queue changed during scan",
                    )));
                },
            };
            rt.ready_queue.push_back(woken.0);
            proof {
                lemma_signal_wake_wf(rt0, rt, i as int);
            }
            return Ok(rt);
        }
        i += 1;
    }
    proof {
        lemma_first_waiter(rt0.blocked_queue@, s);
        assert(first_waiter(rt0.blocked_queue@, s) == -1);
    }
    let c = rt.sems[s];
    if c == u64::MAX {
        return Err(VmError::IllegalArgument(String::from_str("semaphore counter overflow")));
    }
    let slot = &mut rt.sems[s];
    *slot = c + 1;
    proof {
        lemma_same_values_wf(rt0, rt);
    }
    Ok(rt)
}

/// Everything `spawn` does: a fresh environment frame is allocated as a
/// child of the spawning thread's current frame; a fresh thread (next id,
/// program counter at `addr`, empty stacks, that frame) joins the back of
/// the ready queue; the spawning thread stays current and receives the
/// child's id on its operand stack. When thread ids are exhausted the spawn
/// fails and means nothing.
pub open spec fn spawn_post(rt: Runtime, addr: usize, res: Result<Runtime, VmError>) -> bool {
    if rt.next_thread_id == i64::MAX {
        res matches Err(e) && e matches VmError::IllegalArgument(_)
    } else {
        &&& res matches Ok(rt2)
        &&& rt2.arena.frames@.len() == rt.arena.frames@.len() + 1
        &&& forall|i: int|
            0 <= i < rt.arena.frames@.len() ==> rt2.arena.frames@[i] == rt.arena.frames@[i]
        &&& (rt2.arena.frames@.last()).parent == Some(rt.current_thread.env)
        &&& (rt2.arena.frames@.last()).env@.len() == 0
        &&& rt2.ready_queue@.len() == rt.ready_queue@.len() + 1
        &&& rt2.ready_queue@.drop_last() == rt.ready_queue@
        &&& (rt2.ready_queue@.last()).thread_id == rt.next_thread_id
        &&& (rt2.ready_queue@.last()).pc == addr
        &&& (rt2.ready_queue@.last()).operand_stack@.len() == 0
        &&& (rt2.ready_queue@.last()).runtime_stack@.len() == 0
        &&& (rt2.ready_queue@.last()).env as int == rt.arena.frames@.len()
        &&& rt2.next_thread_id == rt.next_thread_id + 1
        &&& same_thread_but_operands(rt2.current_thread, rt.current_thread)
        &&& rt2.current_thread.operand_stack@ == rt.current_thread.operand_stack@.push(
            Value::Int(rt.next_thread_id),
        )
        &&& rt2.blocked_queue@ == rt.blocked_queue@
        &&& rt2.sems@ == rt.sems@
        &&& rt2.program@ == rt.program@
        &&& rt2.done == rt.done
    }
}

/// Create a new thread that starts at `addr` in a fresh child of the current
/// environment, and append it to the back of the ready queue. The spawning
/// thread keeps running and receives the child's thread id.
pub fn spawn(rt: Runtime, addr: usize) -> (res: Result<Runtime, VmError>)
    requires
        rt.wf(),
    ensures
        spawn_post(rt, addr, res),
        res matches Ok(rt2) ==> rt2.wf(),
{
    let ghost rt0 = rt;
    let mut rt = rt;
    if rt.next_thread_id == i64::MAX {
        return Err(VmError::IllegalArgument(String::from_str("thread ids exhausted")));
    }
    let child_env = rt.arena.add_frame(
        Environment { parent: Some(rt.current_thread.env), env: Vec::new() },
    );
    let child = Thread::new(rt.next_thread_id, addr, child_env);
    rt.ready_queue.push_back(child);
    rt.current_thread.operand_stack.push(Value::Int(rt.next_thread_id));
    rt.next_thread_id = rt.next_thread_id + 1;
    proof {
        assert(rt.ready_queue@.drop_last() =~= rt0.ready_queue@);
        let nf = rt.n_frames();
        let ns = rt.n_sems();
        assert forall|f: int, j: int|
            0 <= f < nf && 0 <= j < rt.arena.frames@[f].env@.len() implies value_wf(
            ((#[trigger] rt.arena.frames@[f].env@[j]).1)@,
            nf,
            ns,
        ) by {
            if f < rt0.n_frames() {
                assert(value_wf(((rt0.arena.frames@[f].env@[j]).1)@, rt0.n_frames(), rt0.n_sems()));
            }
        }
        assert forall|i: int|
            0 <= i < rt.current_thread.operand_stack@.len() implies value_wf(
            (#[trigger] rt.current_thread.operand_stack@[i])@,
            nf,
            ns,
        ) by {
            if i < rt0.current_thread.operand_stack@.len() {
                assert(value_wf(
                    (rt0.current_thread.operand_stack@[i])@,
                    rt0.n_frames(),
                    rt0.n_sems(),
                ));
            }
        }
        assert forall|i: int|
            0 <= i < rt.current_thread.runtime_stack@.len() implies ((
        #[trigger] rt.current_thread.runtime_stack@[i]).env as int) < nf by {
            assert(((rt0.current_thread.runtime_stack@[i]).env as int) < rt0.n_frames());
        }
        assert forall|i: int|
            0 <= i < rt.ready_queue@.len() implies (#[trigger] rt.ready_queue@[i]).wf(nf, ns) by {
            if i < rt0.ready_queue@.len() {
                assert(rt0.ready_queue@[i].wf(rt0.n_frames(), rt0.n_sems()));
                lemma_thread_wf_grow(rt0.ready_queue@[i], rt0.n_frames(), rt0.n_sems(), nf, ns);
            }
        }
        assert forall|i: int|
            0 <= i < rt.blocked_queue@.len() implies (#[trigger] rt.blocked_queue@[i]).0.wf(nf, ns)
            && (((rt.blocked_queue@[i]).1) as int) < ns by {
            assert((rt0.blocked_queue@[i]).0.wf(rt0.n_frames(), rt0.n_sems()));
            lemma_thread_wf_grow((rt0.blocked_queue@[i]).0, rt0.n_frames(), rt0.n_sems(), nf, ns);
            assert((((rt0.blocked_queue@[i]).1) as int) < rt0.n_sems());
        }
        assert forall|i: int|
            0 <= i < rt.program@.len() implies crate::bytecode::bytecode_wf(
            #[trigger] rt.program@[i],
            nf,
            ns,
        ) by {
            assert(crate::bytecode::bytecode_wf(rt0.program@[i], rt0.n_frames(), rt0.n_sems()));
        }
    }
    Ok(rt)
}

/// A well-formed thread stays well-formed when the machine grows.
proof fn lemma_thread_wf_grow(t: Thread, nf1: int, ns1: int, nf2: int, ns2: int)
    requires
        t.wf(nf1, ns1),
        nf1 <= nf2,
        ns1 <= ns2,
    ensures
        t.wf(nf2, ns2),
{
    assert forall|i: int|
        0 <= i < t.operand_stack@.len() implies value_wf(
        (#[trigger] t.operand_stack@[i])@,
        nf2,
        ns2,
    ) by {
        assert(value_wf((t.operand_stack@[i])@, nf1, ns1));
    }
}

/// Everything `ld` does: resolve the symbol through the current thread's
/// environment chain; push (a copy of) the first binding found, or fail with
/// the unbound-name error naming the symbol. Nothing else moves.
pub open spec fn ld_post(rt: Runtime, sym: Seq<char>, res: Result<Runtime, VmError>) -> bool {
    match arena_lookup(rt.arena.frames@, rt.current_thread.env as int, sym) {
        None => res matches Err(e) && (e matches VmError::UnboundedName(n) && n@ == sym),
        Some(v) => {
            &&& res matches Ok(rt2)
            &&& same_thread_but_operands(rt2.current_thread, rt.current_thread)
            &&& rt2.current_thread.operand_stack@.len() == rt.current_thread.operand_stack@.len()
                + 1
            &&& rt2.current_thread.operand_stack@.drop_last()
                == rt.current_thread.operand_stack@
            &&& (rt2.current_thread.operand_stack@.last())@ == v@
            &&& rt2.ready_queue@ == rt.ready_queue@
            &&& rt2.blocked_queue@ == rt.blocked_queue@
            &&& rt2.sems@ == rt.sems@
            &&& same_rest(rt, rt2)
        },
    }
}

/// Resolve `sym` through the current environment and push the value found.
pub fn ld(rt: Runtime, sym: &str) -> (res: Result<Runtime, VmError>)
    requires
        rt.wf(),
    ensures
        ld_post(rt, sym@, res),
        res matches Ok(rt2) ==> rt2.wf(),
{
    let ghost rt0 = rt;
    let mut rt = rt;
    let looked = rt.arena.get(rt.current_thread.env, sym);
    match looked {
        Some(v) => {
            proof {
                lemma_arena_lookup_is_stored(
                    rt0.arena.frames@,
                    rt0.current_thread.env as int,
                    sym@,
                );
                match arena_lookup(rt0.arena.frames@, rt0.current_thread.env as int, sym@) {
                    Some(w) => {
                        let (f, k) = choose|f: int, k: int|
                            0 <= f < rt0.arena.frames@.len() && 0 <= k
                                < rt0.arena.frames@[f].env@.len() && (
                            #[trigger] rt0.arena.frames@[f].env@[k]).1 == w;
                        assert(value_wf(
                            ((rt0.arena.frames@[f].env@[k]).1)@,
                            rt0.n_frames(),
                            rt0.n_sems(),
                        ));
                    },
                    None => {},
                }
            }
            rt.current_thread.operand_stack.push(v);
            proof {
                assert(rt.current_thread.operand_stack@.drop_last()
                    =~= rt0.current_thread.operand_stack@);
                assert forall|i: int|
                    0 <= i < rt.current_thread.operand_stack@.len() implies value_wf(
                    (#[trigger] rt.current_thread.operand_stack@[i])@,
                    rt.n_frames(),
                    rt.n_sems(),
                ) by {
                    if i < rt0.current_thread.operand_stack@.len() {
                        assert(value_wf(
                            (rt0.current_thread.operand_stack@[i])@,
                            rt0.n_frames(),
                            rt0.n_sems(),
                        ));
                    }
                }
            }
            Ok(rt)
        },
        None => Err(VmError::UnboundedName(String::from_str(sym))),
    }
}

/// Everything `ldc` does: push the literal; nothing else moves.
pub open spec fn ldc_post(rt: Runtime, val: Value, rt2: Runtime) -> bool {
    &&& same_thread_but_operands(rt2.current_thread, rt.current_thread)
    &&& rt2.current_thread.operand_stack@ == rt.current_thread.operand_stack@.push(val)
    &&& rt2.ready_queue@ == rt.ready_queue@
    &&& rt2.blocked_queue@ == rt.blocked_queue@
    &&& rt2.sems@ == rt.sems@
    &&& same_rest(rt, rt2)
}

/// Push a literal value onto the current thread's operand stack.
pub fn ldc(rt: Runtime, val: Value) -> (rt2: Runtime)
    requires
        rt.wf(),
        value_wf(val@, rt.n_frames(), rt.n_sems()),
    ensures
        ldc_post(rt, val, rt2),
        rt2.wf(),
{
    let ghost rt0 = rt;
    let mut rt = rt;
    rt.current_thread.operand_stack.push(val);
    proof {
        assert forall|i: int|
            0 <= i < rt.current_thread.operand_stack@.len() implies value_wf(
            (#[trigger] rt.current_thread.operand_stack@[i])@,
            rt.n_frames(),
            rt.n_sems(),
        ) by {
            if i < rt0.current_thread.operand_stack@.len() {
                assert(value_wf(
                    (rt0.current_thread.operand_stack@[i])@,
                    rt0.n_frames(),
                    rt0.n_sems(),
                ));
            }
        }
    }
    rt
}

/// Everything `pop` does: discard the top operand (the result of a
/// statement), or underflow on an empty stack. Nothing else moves.
pub open spec fn pop_post(rt: Runtime, res: Result<Runtime, VmError>) -> bool {
    match top_operand(rt) {
        None => res == Err::<Runtime, VmError>(VmError::OperandStackUnderflow),
        Some(_) => {
            &&& res matches Ok(rt2)
            &&& same_thread_but_operands(rt2.current_thread, rt.current_thread)
            &&& rt2.current_thread.operand_stack@ == rt.current_thread.operand_stack@.drop_last()
            &&& rt2.ready_queue@ == rt.ready_queue@
            &&& rt2.blocked_queue@ == rt.blocked_queue@
            &&& rt2.sems@ == rt.sems@
            &&& same_rest(rt, rt2)
        },
    }
}

/// Discard the top operand of the current thread.
pub fn pop(rt: Runtime) -> (res: Result<Runtime, VmError>)
    requires
        rt.wf(),
    ensures
        pop_post(rt, res),
        res matches Ok(rt2) ==> rt2.wf(),
{
    let ghost rt0 = rt;
    let mut rt = rt;
    match rt.current_thread.operand_stack.pop() {
        Some(_v) => {
            proof {
                lemma_same_values_wf(rt0, rt);
            }
            Ok(rt)
        },
        None => Err(VmError::OperandStackUnderflow),
    }
}

/// Everything a call does, with `n` the arity the instruction carries and
/// `native_tan` the collaborator's tangent text when the caller holds one.
/// The operand stack must hold the `n` arguments on top of the callee; too
/// few operands is an insufficient-arguments error, a non-closure callee a
/// type error, and an argument count differing from the declared parameter
/// list an arity mismatch. A builtin callee is dispatched by symbol: the
/// machine itself computes the pure comparisons (`min`, `max`, on
/// integers); `tan` wraps the handed-in native text when there is one (its
/// operand must be a float); every other builtin symbol — `tan` included,
/// without a collaborator — is unknown at call time (float work stays
/// outside the machine). A user callee runs in a fresh frame, child of its
/// captured environment, with the parameters bound pairwise to the
/// arguments; an activation record (return address and caller's frame) is
/// pushed and execution jumps to the callee's address. A user closure whose
/// captured environment is gone is an environment-lifetime error.
pub open spec fn call_native_post(
    rt: Runtime,
    n: usize,
    native_tan: Option<Seq<char>>,
    res: Result<Runtime, VmError>,
) -> bool {
    let stk = rt.current_thread.operand_stack@;
    if stk.len() <= n {
        res matches Err(e) && (e matches VmError::InsufficientArguments { expected, got }
            && expected == n && got as int == stk.len())
    } else {
        let callee = stk[stk.len() - n - 1];
        let args = stk.subrange(stk.len() - n, stk.len() as int);
        match callee@ {
            ValueV::Closure { fn_type, sym, prms, addr, env } => {
                if n as int != prms.len() {
                    res matches Err(e) && (e matches VmError::ArityParamsMismatch { arity, params }
                        && arity as int == prms.len() && params == n)
                } else if fn_type == crate::value::FnType::Builtin {
                    if sym == "tan"@ && native_tan is Some {
                        let txt = native_tan.unwrap();
                        if n != 1 {
                            res matches Err(e) && (e matches VmError::ArityParamsMismatch {
                                arity,
                                params,
                            } && arity == 1usize && params == n)
                        } else {
                            match args[0]@ {
                                ValueV::Float(_) => {
                                    &&& res matches Ok(rt2)
                                    &&& same_thread_but_operands(
                                        rt2.current_thread,
                                        rt.current_thread,
                                    )
                                    &&& rt2.current_thread.operand_stack@.len() == stk.len() - 1
                                    &&& rt2.current_thread.operand_stack@.drop_last()
                                        == stk.subrange(0, stk.len() - 2)
                                    &&& (rt2.current_thread.operand_stack@.last())@
                                        == ValueV::Float(txt)
                                    &&& rt2.ready_queue@ == rt.ready_queue@
                                    &&& rt2.blocked_queue@ == rt.blocked_queue@
                                    &&& rt2.sems@ == rt.sems@
                                    &&& same_rest(rt, rt2)
                                },
                                other => res matches Err(e) && bad_type_error(e, "float"@, other),
                            }
                        }
                    } else if sym == "min"@ || sym == "max"@ {
                        if n != 2 {
                            res matches Err(e) && (e matches VmError::ArityParamsMismatch {
                                arity,
                                params,
                            } && arity == 2usize && params == n)
                        } else {
                            match (args[0]@, args[1]@) {
                                (ValueV::Int(a), ValueV::Int(b)) => {
                                    &&& res matches Ok(rt2)
                                    &&& same_thread_but_operands(
                                        rt2.current_thread,
                                        rt.current_thread,
                                    )
                                    &&& rt2.current_thread.operand_stack@ == stk.subrange(
                                        0,
                                        stk.len() - 3,
                                    ).push(
                                        Value::Int(
                                            if sym == "min"@ {
                                                if a <= b {
                                                    a
                                                } else {
                                                    b
                                                }
                                            } else {
                                                if a >= b {
                                                    a
                                                } else {
                                                    b
                                                }
                                            },
                                        ),
                                    )
                                    &&& rt2.ready_queue@ == rt.ready_queue@
                                    &&& rt2.blocked_queue@ == rt.blocked_queue@
                                    &&& rt2.sems@ == rt.sems@
                                    &&& same_rest(rt, rt2)
                                },
                                (ValueV::Int(_), other) => res matches Err(e) && bad_type_error(
                                    e,
                                    "int"@,
                                    other,
                                ),
                                (other, _) => res matches Err(e) && bad_type_error(
                                    e,
                                    "int"@,
                                    other,
                                ),
                            }
                        }
                    } else {
                        res matches Err(e) && (e matches VmError::UnknownBuiltin { sym: s } && s@
                            == sym)
                    }
                } else {
                    match env {
                        None => res == Err::<Runtime, VmError>(VmError::EnvironmentDroppedError),
                        Some(penv) => {
                            &&& res matches Ok(rt2)
                            &&& rt2.arena.frames@.len() == rt.arena.frames@.len() + 1
                            &&& forall|i: int|
                                0 <= i < rt.arena.frames@.len() ==> rt2.arena.frames@[i]
                                    == rt.arena.frames@[i]
                            &&& (rt2.arena.frames@.last()).parent == Some(penv)
                            &&& forall|k: int|
                                0 <= k < prms.len() && (forall|k2: int|
                                    k < k2 < prms.len() ==> #[trigger] prms[k2] != prms[k])
                                    ==> crate::environment::opt_value_view(
                                    crate::environment::assoc_lookup(
                                        (rt2.arena.frames@.last()).env@,
                                        #[trigger] prms[k],
                                    ),
                                ) == Some(args[k]@)
                            &&& rt2.current_thread.thread_id == rt.current_thread.thread_id
                            &&& rt2.current_thread.pc == addr
                            &&& rt2.current_thread.env as int == rt.arena.frames@.len()
                            &&& rt2.current_thread.operand_stack@ == stk.subrange(
                                0,
                                stk.len() - n - 1,
                            )
                            &&& rt2.current_thread.runtime_stack@
                                == rt.current_thread.runtime_stack@.push(
                                StackFrame {
                                    address: rt.current_thread.pc,
                                    env: rt.current_thread.env,
                                },
                            )
                            &&& rt2.ready_queue@ == rt.ready_queue@
                            &&& rt2.blocked_queue@ == rt.blocked_queue@
                            &&& rt2.sems@ == rt.sems@
                            &&& rt2.program@ == rt.program@
                            &&& rt2.next_thread_id == rt.next_thread_id
                            &&& rt2.done == rt.done
                        },
                    }
                }
            },
            _ => res matches Err(e) && bad_type_error(e, "closure"@, callee@),
        }
    }
}

/// What a call without a collaborator's native result does.
pub open spec fn call_post(rt: Runtime, n: usize, res: Result<Runtime, VmError>) -> bool {
    call_native_post(rt, n, None, res)
}

/// Invoke the closure beneath the top `n` operands: validate the argument
/// count against the declared parameters, then either dispatch a builtin by
/// its symbol or push an activation record and jump into the user closure
/// (the program counter has already advanced past the call, so it is the
/// return address).
pub fn call(rt: Runtime, n: usize) -> (res: Result<Runtime, VmError>)
    requires
        rt.wf(),
    ensures
        call_post(rt, n, res),
        res matches Ok(rt2) ==> rt2.wf(),
{
    call_impl(rt, n, None)
}

/// `call`, for a driver that holds the native collaborator's tangent of the
/// top operand's text: the `tan` builtin then completes instead of being
/// unknown. This is how an embedder runs the float builtins the machine
/// itself cannot compute.
pub fn call_with_native(rt: Runtime, n: usize, native_tan: &str) -> (res: Result<
    Runtime,
    VmError,
>)
    requires
        rt.wf(),
    ensures
        call_native_post(rt, n, Some(native_tan@), res),
        res matches Ok(rt2) ==> rt2.wf(),
{
    call_impl(rt, n, Some(native_tan))
}

fn call_impl(rt: Runtime, n: usize, native_tan: Option<&str>) -> (res: Result<Runtime, VmError>)
    requires
        rt.wf(),
    ensures
        call_native_post(
            rt,
            n,
            (match native_tan {
                Some(t) => Some(t@),
                None => None::<Seq<char>>,
            }),
            res,
        ),
        res matches Ok(rt2) ==> rt2.wf(),
{
    let ghost rt0 = rt;
    let mut rt = rt;
    let stack_len = rt.current_thread.operand_stack.len();
    if stack_len <= n {
        return Err(VmError::InsufficientArguments { expected: n, got: stack_len });
    }
    let args = rt.current_thread.operand_stack.split_off(stack_len - n);
    let callee = match rt.current_thread.operand_stack.pop() {
        Some(v) => v,
        None => {
            return Err(VmError::OperandStackUnderflow);
        },
    };
    proof {
        let stk = rt0.current_thread.operand_stack@;
        assert(callee == stk[stk.len() - n - 1]);
        assert(value_wf(callee@, rt0.n_frames(), rt0.n_sems()));
        assert(args@ == stk.subrange(stk.len() - n, stk.len() as int));
        assert forall|k: int|
            0 <= k < args@.len() implies value_wf(
            (#[trigger] args@[k])@,
            rt0.n_frames(),
            rt0.n_sems(),
        ) by {
            assert(args@[k] == stk[stk.len() - n + k]);
            assert(value_wf((stk[stk.len() - n + k])@, rt0.n_frames(), rt0.n_sems()));
        }
        assert(rt.current_thread.operand_stack@ =~= stk.subrange(0, stk.len() - n - 1));
    }
    match callee {
        Value::Closure { fn_type, sym, prms, addr, env } => {
            if args.len() != prms.len() {
                return Err(VmError::ArityParamsMismatch { arity: prms.len(), params: n });
            }
            match fn_type {
                FnType::Builtin => {
                    let tan_sym = String::from_str("tan");
                    let min_sym = String::from_str("min");
                    let max_sym = String::from_str("max");
                    proof {
                        reveal_strlit("tan");
                        reveal_strlit("min");
                        reveal_strlit("max");
                        assert("min"@[1] != "max"@[1]);
                        assert("tan"@[0] != "min"@[0] && "tan"@[0] != "max"@[0]);
                    }
                    if sym == tan_sym && native_tan.is_some() {
                        let txt = match native_tan {
                            Some(t) => t,
                            None => "",
                        };
                        if args.len() != 1 {
                            return Err(VmError::ArityParamsMismatch { arity: 1, params: n });
                        }
                        let r = match crate::builtin::tan_impl(&args[0], txt) {
                            Ok(v) => v,
                            Err(e) => {
                                return Err(e);
                            },
                        };
                        rt.current_thread.operand_stack.push(r);
                        proof {
                            let stk0 = rt0.current_thread.operand_stack@;
                            assert(rt.current_thread.operand_stack@.drop_last() =~= stk0.subrange(
                                0,
                                stk0.len() - 2,
                            ));
                            assert forall|i: int|
                                0 <= i < rt.current_thread.operand_stack@.len() implies value_wf(
                                (#[trigger] rt.current_thread.operand_stack@[i])@,
                                rt.n_frames(),
                                rt.n_sems(),
                            ) by {
                                if i < stk0.len() - 2 {
                                    assert(rt.current_thread.operand_stack@[i] == stk0[i]);
                                    assert(value_wf((stk0[i])@, rt0.n_frames(), rt0.n_sems()));
                                }
                            }
                        }
                        return Ok(rt);
                    }
                    let is_min = sym == min_sym;
                    if is_min || sym == max_sym {
                        if args.len() != 2 {
                            return Err(VmError::ArityParamsMismatch { arity: 2, params: n });
                        }
                        let a = match &args[0] {
                            Value::Int(a) => *a,
                            other => {
                                return Err(VmError::BadType {
                                    expected: String::from_str("int"),
                                    found: String::from_str(other.kind_name()),
                                });
                            },
                        };
                        let b = match &args[1] {
                            Value::Int(b) => *b,
                            other => {
                                return Err(VmError::BadType {
                                    expected: String::from_str("int"),
                                    found: String::from_str(other.kind_name()),
                                });
                            },
                        };
                        let r = if is_min {
                            if a <= b {
                                a
                            } else {
                                b
                            }
                        } else {
                            if a >= b {
                                a
                            } else {
                                b
                            }
                        };
                        rt.current_thread.operand_stack.push(Value::Int(r));
                        proof {
                            let stk0 = rt0.current_thread.operand_stack@;
                            assert(rt.current_thread.operand_stack@ =~= stk0.subrange(
                                0,
                                stk0.len() - 3,
                            ).push(Value::Int(r)));
                            assert forall|i: int|
                                0 <= i < rt.current_thread.operand_stack@.len() implies value_wf(
                                (#[trigger] rt.current_thread.operand_stack@[i])@,
                                rt.n_frames(),
                                rt.n_sems(),
                            ) by {
                                if i < stk0.len() - 3 {
                                    assert(rt.current_thread.operand_stack@[i] == stk0[i]);
                                    assert(value_wf((stk0[i])@, rt0.n_frames(), rt0.n_sems()));
                                }
                            }
                        }
                        Ok(rt)
                    } else {
                        Err(VmError::UnknownBuiltin { sym })
                    }
                },
                FnType::User => {
                    match env {
                        None => Err(VmError::EnvironmentDroppedError),
                        Some(penv) => {
                            let mut e = Environment::new();
                            e.set_parent(penv);
                            let m = prms.len();
                            let mut j: usize = 0;
                            while j < m
                                invariant
                                    m == prms@.len(),
                                    m == args@.len(),
                                    j <= m,
                                    forall|i: int|
                                        0 <= i < args@.len() ==> value_wf(
                                            (#[trigger] args@[i])@,
                                            rt.n_frames(),
                                            rt.n_sems(),
                                        ),
                                    e.parent == Some(penv),
                                    e.keys_unique(),
                                    forall|k: int|
                                        0 <= k < j as int && (forall|k2: int|
                                            k < k2 < j as int ==> (#[trigger] prms@[k2])@
                                                != prms@[k]@) ==> crate::environment::opt_value_view(
                                            crate::environment::assoc_lookup(e.env@, prms@[k]@),
                                        ) == Some(args@[k]@),
                                    forall|i: int|
                                        0 <= i < e.env@.len() ==> value_wf(
                                            ((#[trigger] e.env@[i]).1)@,
                                            rt.n_frames(),
                                            rt.n_sems(),
                                        ),
                                decreases m - j,
                            {
                                let ghost e0 = e;
                                let dv = args[j].dup();
                                let ghost dvv = dv;
                                e.set(prms[j].as_str(), dv);
                                proof {
                                    assert forall|i: int|
                                        0 <= i < e.env@.len() implies value_wf(
                                        ((#[trigger] e.env@[i]).1)@,
                                        rt.n_frames(),
                                        rt.n_sems(),
                                    ) by {
                                        if (e.env@[i]).1 != dvv {
                                            let k = choose|k: int|
                                                0 <= k < e0.env@.len() && e0.env@[k].1 == (
                                                e.env@[i]).1;
                                            assert(value_wf(
                                                ((e0.env@[k]).1)@,
                                                rt.n_frames(),
                                                rt.n_sems(),
                                            ));
                                        } else {
                                            assert(dvv@ == args@[j as int]@);
                                        }
                                    }
                                }
                                j += 1;
                            }
                            let ghost rt_pre = rt;
                            let ghost eg = e;
                            let fr = rt.arena.add_frame(e);
                            rt.current_thread.runtime_stack.push(
                                StackFrame { address: rt.current_thread.pc, env: rt.current_thread.env },
                            );
                            rt.current_thread.env = fr;
                            rt.current_thread.pc = addr;
                            proof {
                                assert(rt.arena.frames@.last() == eg);
                                assert(rt.current_thread.runtime_stack@
                                    =~= rt0.current_thread.runtime_stack@.push(
                                    StackFrame {
                                        address: rt0.current_thread.pc,
                                        env: rt0.current_thread.env,
                                    },
                                ));
                                assert(rt.current_thread.runtime_stack@.drop_last()
                                    =~= rt0.current_thread.runtime_stack@);
                                lemma_call_frame_wf(rt0, rt_pre, rt, n as int);
                                let prms_v = prms@.map_values(|p: Symbol| p@);
                                let stk = rt0.current_thread.operand_stack@;
                                let args_v = stk.subrange(stk.len() - n, stk.len() as int);
                                assert forall|k: int|
                                    0 <= k < prms_v.len() && (forall|k2: int|
                                        k < k2 < prms_v.len() ==> #[trigger] prms_v[k2]
                                            != prms_v[k]) implies crate::environment::opt_value_view(
                                    crate::environment::assoc_lookup(eg.env@, #[trigger] prms_v[k]),
                                ) == Some((args_v[k])@) by {
                                    assert(prms_v[k] == prms@[k]@);
                                    assert forall|k2: int|
                                        k < k2 < prms@.len() implies (#[trigger] prms@[k2])@
                                        != prms@[k]@ by {
                                        assert(prms_v[k2] != prms_v[k]);
                                    }
                                    assert(args_v[k] == args@[k]);
                                }
                            }
                            Ok(rt)
                        },
                    }
                },
            }
        },
        other => Err(VmError::BadType {
            expected: String::from_str("closure"),
            found: String::from_str(other.kind_name()),
        }),
    }
}

/// `wf` carries across entering a user closure: `b` is `a2` (which is `a`
/// with its top `n + 1` operands consumed) with one well-formed frame added,
/// an activation record pushed, and the thread repositioned into the new
/// frame.
proof fn lemma_call_frame_wf(a: Runtime, a2: Runtime, b: Runtime, n: int)
    requires
        a.wf(),
        0 <= n < a.current_thread.operand_stack@.len(),
        a2.current_thread.operand_stack@ == a.current_thread.operand_stack@.subrange(
            0,
            a.current_thread.operand_stack@.len() - n - 1,
        ),
        a2.current_thread.runtime_stack@ == a.current_thread.runtime_stack@,
        a2.current_thread.env == a.current_thread.env,
        a2.ready_queue@ == a.ready_queue@,
        a2.blocked_queue@ == a.blocked_queue@,
        a2.program@ == a.program@,
        a2.sems@ == a.sems@,
        a2.arena == a.arena,
        b.arena.frames@.len() == a2.arena.frames@.len() + 1,
        forall|i: int| 0 <= i < a2.arena.frames@.len() ==> b.arena.frames@[i] == a2.arena.frames@[i],
        b.arena.wf(),
        forall|i: int|
            0 <= i < (b.arena.frames@.last()).env@.len() ==> value_wf(
                (((b.arena.frames@.last()).env@[i]).1)@,
                a.n_frames(),
                a.n_sems(),
            ),
        b.current_thread.operand_stack@ == a2.current_thread.operand_stack@,
        b.current_thread.runtime_stack@.len() == a2.current_thread.runtime_stack@.len() + 1,
        b.current_thread.runtime_stack@.drop_last() == a2.current_thread.runtime_stack@,
        ((b.current_thread.runtime_stack@.last()).env as int) < a.n_frames(),
        (b.current_thread.env as int) < b.n_frames(),
        b.ready_queue@ == a2.ready_queue@,
        b.blocked_queue@ == a2.blocked_queue@,
        b.program@ == a2.program@,
        b.sems@ == a2.sems@,
    ensures
        b.wf(),
{
    let nf = b.n_frames();
    let ns = b.n_sems();
    assert forall|f: int, j: int|
        0 <= f < nf && 0 <= j < b.arena.frames@[f].env@.len() implies value_wf(
        ((#[trigger] b.arena.frames@[f].env@[j]).1)@,
        nf,
        ns,
    ) by {
        if f < a.n_frames() {
            assert(value_wf(((a.arena.frames@[f].env@[j]).1)@, a.n_frames(), a.n_sems()));
        } else {
            assert(b.arena.frames@[f] == b.arena.frames@.last());
            assert(value_wf(((b.arena.frames@.last()).env@[j]).1@, a.n_frames(), a.n_sems()));
        }
    }
    assert forall|i: int|
        0 <= i < b.current_thread.operand_stack@.len() implies value_wf(
        (#[trigger] b.current_thread.operand_stack@[i])@,
        nf,
        ns,
    ) by {
        assert(b.current_thread.operand_stack@[i] == a.current_thread.operand_stack@[i]);
        assert(value_wf((a.current_thread.operand_stack@[i])@, a.n_frames(), a.n_sems()));
    }
    assert forall|i: int|
        0 <= i < b.current_thread.runtime_stack@.len() implies ((
    #[trigger] b.current_thread.runtime_stack@[i]).env as int) < nf by {
        if i < a.current_thread.runtime_stack@.len() {
            assert(b.current_thread.runtime_stack@[i] == a.current_thread.runtime_stack@[i]);
            assert(((a.current_thread.runtime_stack@[i]).env as int) < a.n_frames());
        }
    }
    assert forall|i: int|
        0 <= i < b.ready_queue@.len() implies (#[trigger] b.ready_queue@[i]).wf(nf, ns) by {
        assert(a.ready_queue@[i].wf(a.n_frames(), a.n_sems()));
        lemma_thread_wf_grow(a.ready_queue@[i], a.n_frames(), a.n_sems(), nf, ns);
    }
    assert forall|i: int|
        0 <= i < b.blocked_queue@.len() implies (#[trigger] b.blocked_queue@[i]).0.wf(nf, ns) && ((
    (b.blocked_queue@[i]).1) as int) < ns by {
        assert((a.blocked_queue@[i]).0.wf(a.n_frames(), a.n_sems()));
        lemma_thread_wf_grow((a.blocked_queue@[i]).0, a.n_frames(), a.n_sems(), nf, ns);
        assert((((a.blocked_queue@[i]).1) as int) < a.n_sems());
    }
    assert forall|i: int|
        0 <= i < b.program@.len() implies crate::bytecode::bytecode_wf(
        #[trigger] b.program@[i],
        nf,
        ns,
    ) by {
        assert(crate::bytecode::bytecode_wf(a.program@[i], a.n_frames(), a.n_sems()));
    }
}

/// Everything `ret` does: pop the top activation record (an empty runtime
/// stack underflows), restore the caller's environment, and jump back to the
/// saved address; the callee's result stays on the operand stack.
pub open spec fn ret_post(rt: Runtime, res: Result<Runtime, VmError>) -> bool {
    if rt.current_thread.runtime_stack@.len() == 0 {
        res == Err::<Runtime, VmError>(VmError::RuntimeStackUnderflow)
    } else {
        let fr = rt.current_thread.runtime_stack@.last();
        &&& res matches Ok(rt2)
        &&& rt2.current_thread.thread_id == rt.current_thread.thread_id
        &&& rt2.current_thread.pc == fr.address
        &&& rt2.current_thread.env == fr.env
        &&& rt2.current_thread.operand_stack@ == rt.current_thread.operand_stack@
        &&& rt2.current_thread.runtime_stack@ == rt.current_thread.runtime_stack@.drop_last()
        &&& rt2.ready_queue@ == rt.ready_queue@
        &&& rt2.blocked_queue@ == rt.blocked_queue@
        &&& rt2.sems@ == rt.sems@
        &&& same_rest(rt, rt2)
    }
}

/// Pop one activation record and return to it.
pub fn ret(rt: Runtime) -> (res: Result<Runtime, VmError>)
    requires
        rt.wf(),
    ensures
        ret_post(rt, res),
        res matches Ok(rt2) ==> rt2.wf(),
{
    let ghost rt0 = rt;
    let mut rt = rt;
    match rt.current_thread.runtime_stack.pop() {
        None => Err(VmError::RuntimeStackUnderflow),
        Some(fr) => {
            proof {
                let rs = rt0.current_thread.runtime_stack@;
                assert(((rs[rs.len() - 1]).env as int) < rt0.n_frames());
            }
            rt.current_thread.pc = fr.address;
            rt.current_thread.env = fr.env;
            proof {
                assert forall|i: int|
                    0 <= i < rt.current_thread.runtime_stack@.len() implies ((
                #[trigger] rt.current_thread.runtime_stack@[i]).env as int) < rt.n_frames() by {
                    assert(rt.current_thread.runtime_stack@[i]
                        == rt0.current_thread.runtime_stack@[i]);
                    assert(((rt0.current_thread.runtime_stack@[i]).env as int) < rt0.n_frames());
                }
            }
            Ok(rt)
        },
    }
}

/// On a semaphore whose counter is positive, `wait` decrements it by exactly
/// one — every other counter is untouched — and never changes which thread
/// is current, nor either queue.
pub proof fn lemma_wait_decrements_current_unchanged(rt: Runtime, rt2: Runtime, s: usize)
    requires
        rt.wf(),
        top_operand(rt) matches Some(top) && top@ == ValueV::Semaphore(s),
        rt.sems@[s as int] > 0,
        wait_post(rt, Ok(rt2)),
    ensures
        rt2.current_thread.thread_id == rt.current_thread.thread_id,
        rt2.sems@[s as int] == rt.sems@[s as int] - 1,
        forall|t: int| 0 <= t < rt.sems@.len() && t != s as int ==> rt2.sems@[t] == rt.sems@[t],
        rt2.ready_queue@ == rt.ready_queue@,
        rt2.blocked_queue@ == rt.blocked_queue@,
{
}

/// On an exhausted semaphore, `wait` parks the current thread at the back of
/// the blocked queue paired with exactly that semaphore and promotes the
/// front of the ready queue to current; with an empty ready queue it fails
/// with the scheduling error.
pub proof fn lemma_wait_blocks_fifo(rt: Runtime, res: Result<Runtime, VmError>, s: usize)
    requires
        rt.wf(),
        top_operand(rt) matches Some(top) && top@ == ValueV::Semaphore(s),
        rt.sems@[s as int] == 0,
        wait_post(rt, res),
    ensures
        rt.ready_queue@.len() == 0 ==> res == Err::<Runtime, VmError>(
            VmError::NoThreadsInReadyQueue,
        ),
        rt.ready_queue@.len() > 0 ==> (res matches Ok(rt2) && {
            &&& (rt2.blocked_queue@.last()).0.thread_id == rt.current_thread.thread_id
            &&& (rt2.blocked_queue@.last()).1 == s
            &&& rt2.blocked_queue@.drop_last() == rt.blocked_queue@
            &&& rt2.current_thread == rt.ready_queue@[0]
            &&& rt2.sems@ == rt.sems@
        }),
{
}

/// `signal` with at least one blocked waiter on the semaphore wakes exactly
/// the earliest-blocked matching waiter — it moves to the back of the ready
/// queue, everyone else stays put — and the counter's net change is zero;
/// with no waiter it increments the counter by exactly one and mutates no
/// queue. The current thread stays current either way.
pub proof fn lemma_signal_wakes_earliest(rt: Runtime, rt2: Runtime, s: usize)
    requires
        rt.wf(),
        top_operand(rt) matches Some(top) && top@ == ValueV::Semaphore(s),
        rt.sems@[s as int] < u64::MAX,
        signal_post(rt, Ok(rt2)),
    ensures
        rt2.current_thread.thread_id == rt.current_thread.thread_id,
        (exists|j: int| 0 <= j < rt.blocked_queue@.len() && (#[trigger] rt.blocked_queue@[j]).1 == s)
            ==> {
            let i = first_waiter(rt.blocked_queue@, s);
            &&& 0 <= i < rt.blocked_queue@.len()
            &&& (rt.blocked_queue@[i]).1 == s
            &&& forall|j: int| 0 <= j < i ==> (#[trigger] rt.blocked_queue@[j]).1 != s
            &&& rt2.blocked_queue@ == rt.blocked_queue@.remove(i)
            &&& rt2.ready_queue@ == rt.ready_queue@.push((rt.blocked_queue@[i]).0)
            &&& rt2.sems@ == rt.sems@
        },
        (forall|j: int| 0 <= j < rt.blocked_queue@.len() ==> (#[trigger] rt.blocked_queue@[j]).1 != s)
            ==> {
            &&& rt2.sems@[s as int] == rt.sems@[s as int] + 1
            &&& forall|t: int| 0 <= t < rt.sems@.len() && t != s as int ==> rt2.sems@[t] == rt.sems@[t]
            &&& rt2.ready_queue@ == rt.ready_queue@
            &&& rt2.blocked_queue@ == rt.blocked_queue@
        },
{
    lemma_first_waiter(rt.blocked_queue@, s);
    if exists|j: int| 0 <= j < rt.blocked_queue@.len() && (#[trigger] rt.blocked_queue@[j]).1
        == s {
        let j = choose|j: int|
            0 <= j < rt.blocked_queue@.len() && (#[trigger] rt.blocked_queue@[j]).1 == s;
        assert(first_waiter(rt.blocked_queue@, s) != -1);
    }
}

/// `wf` carries across a wake: the machine `b` is `a` with the blocked entry
/// at `i` moved to the back of the ready queue and the current thread's
/// operand popped.
proof fn lemma_signal_wake_wf(a: Runtime, b: Runtime, i: int)
    requires
        a.wf(),
        a.current_thread.operand_stack@.len() > 0,
        b.n_frames() == a.n_frames(),
        b.n_sems() == a.n_sems(),
        b.arena == a.arena,
        b.program@ == a.program@,
        b.sems@ == a.sems@,
        same_thread_but_operands(b.current_thread, a.current_thread),
        b.current_thread.operand_stack@ == a.current_thread.operand_stack@.drop_last(),
        0 <= i < a.blocked_queue@.len(),
        b.blocked_queue@ == a.blocked_queue@.remove(i),
        b.ready_queue@ == a.ready_queue@.push((a.blocked_queue@[i]).0),
    ensures
        b.wf(),
{
    assert forall|k: int|
        0 <= k < b.program@.len() implies crate::bytecode::bytecode_wf(
        #[trigger] b.program@[k],
        b.n_frames(),
        b.n_sems(),
    ) by {
        assert(crate::bytecode::bytecode_wf(a.program@[k], a.n_frames(), a.n_sems()));
    }
    assert forall|k: int|
        0 <= k < b.current_thread.operand_stack@.len() implies value_wf(
        (#[trigger] b.current_thread.operand_stack@[k])@,
        b.n_frames(),
        b.n_sems(),
    ) by {
        assert(value_wf((a.current_thread.operand_stack@[k])@, a.n_frames(), a.n_sems()));
    }
    assert forall|k: int|
        0 <= k < b.current_thread.runtime_stack@.len() implies ((
    #[trigger] b.current_thread.runtime_stack@[k]).env as int) < b.n_frames() by {
        assert(((a.current_thread.runtime_stack@[k]).env as int) < a.n_frames());
    }
    assert forall|k: int|
        0 <= k < b.ready_queue@.len() implies (#[trigger] b.ready_queue@[k]).wf(
        b.n_frames(),
        b.n_sems(),
    ) by {
        if k < a.ready_queue@.len() {
            assert(a.ready_queue@[k].wf(a.n_frames(), a.n_sems()));
        } else {
            assert(b.ready_queue@[k] == (a.blocked_queue@[i]).0);
            assert((a.blocked_queue@[i]).0.wf(a.n_frames(), a.n_sems()));
        }
    }
    assert forall|k: int|
        0 <= k < b.blocked_queue@.len() implies (#[trigger] b.blocked_queue@[k]).0.wf(
        b.n_frames(),
        b.n_sems(),
    ) && (((b.blocked_queue@[k]).1) as int) < b.n_sems() by {
        if k < i {
            assert(b.blocked_queue@[k] == a.blocked_queue@[k]);
            assert((a.blocked_queue@[k]).0.wf(a.n_frames(), a.n_sems()));
            assert((((a.blocked_queue@[k]).1) as int) < a.n_sems());
        } else {
            assert(b.blocked_queue@[k] == a.blocked_queue@[k + 1]);
            assert((a.blocked_queue@[k + 1]).0.wf(a.n_frames(), a.n_sems()));
            assert((((a.blocked_queue@[k + 1]).1) as int) < a.n_sems());
        }
    }
}

} // verus!
