use ignite::bytecode::ByteCode;
use ignite::error::VmError;
use ignite::machine::step;
use ignite::micro_code::{ld, signal, spawn, wait};
use ignite::runtime::{extend_environment, Runtime};
use ignite::thread::MAIN_THREAD_ID;
use ignite::value::Value;

#[test]
fn test_wait_01() {
    let mut rt = Runtime::default();
    let sem = rt.new_semaphore(1);
    let current_env = rt.current_thread.env;
    rt = extend_environment(rt, current_env, vec!["sem"], vec![Value::Semaphore(sem)]).unwrap();
    rt = spawn(rt, 0).unwrap(); // spawn a child thread to populate ready queue
    rt = ld(rt, "sem").unwrap();
    rt = wait(rt).unwrap();

    assert_eq!(rt.sem_count(sem), 0);
    // Since the semaphore greater than 0, the semaphore should be decremented and the current thread should continue.
    assert_eq!(rt.current_thread.thread_id, MAIN_THREAD_ID);
}

#[test]
fn test_wait_02() {
    let mut rt = Runtime::default();
    let sem = rt.new_semaphore(0);
    let current_env = rt.current_thread.env;
    rt = extend_environment(rt, current_env, vec!["sem"], vec![Value::Semaphore(sem)]).unwrap();
    rt = spawn(rt, 0).unwrap(); // spawn a child thread to populate ready queue
    rt = ld(rt, "sem").unwrap();
    rt = wait(rt).unwrap();

    let child_thread_id = MAIN_THREAD_ID + 1;
    assert_eq!(rt.sem_count(sem), 0);
    // Since the semaphore is 0, the current thread should be blocked.
    assert_eq!(rt.blocked_queue.pop_front().unwrap().0.thread_id, MAIN_THREAD_ID);
    // The child thread should be the current thread.
    assert_eq!(rt.current_thread.thread_id, child_thread_id);
}

#[test]
fn test_wait_underflow_and_bad_type() {
    let rt = Runtime::default();
    match wait(rt) {
        Err(VmError::OperandStackUnderflow) => {}
        other => panic!("expected an operand stack underflow: {:?}", other),
    }
    let mut rt = Runtime::default();
    rt.current_thread.operand_stack.push(Value::Int(3));
    match wait(rt) {
        Err(VmError::BadType { expected, found }) => {
            assert_eq!(expected, "semaphore");
            assert_eq!(found, "int");
        }
        other => panic!("expected a type error: {:?}", other),
    }
}

#[test]
fn test_wait_deadlock_is_an_error() {
    let mut rt = Runtime::default();
    let sem = rt.new_semaphore(0);
    rt.current_thread.operand_stack.push(Value::Semaphore(sem));
    // no ready thread can take over: the wait is a scheduling error
    match wait(rt) {
        Err(VmError::NoThreadsInReadyQueue) => {}
        other => panic!("expected the scheduling error: {:?}", other),
    }
}

#[test]
fn test_signal_with_no_waiter_increments() {
    let mut rt = Runtime::default();
    let sem = rt.new_semaphore(0);
    rt.current_thread.operand_stack.push(Value::Semaphore(sem));
    let rt = signal(rt).unwrap();
    assert_eq!(rt.sem_count(sem), 1);
    assert_eq!(rt.ready_queue.len(), 0);
    assert_eq!(rt.blocked_queue.len(), 0);
    assert_eq!(rt.current_thread.thread_id, MAIN_THREAD_ID);
}

#[test]
fn test_signal_wakes_earliest_waiter_only() {
    // semaphore at 0; A (main) waits and blocks; B becomes current and
    // signals: A must move from blocked to the back of ready, B keeps
    // running, and the counter's net change is zero.
    let mut rt = Runtime::default();
    let sem = rt.new_semaphore(0);
    let current_env = rt.current_thread.env;
    rt = extend_environment(rt, current_env, vec!["sem"], vec![Value::Semaphore(sem)]).unwrap();
    rt = spawn(rt, 0).unwrap(); // B
    let b_id = MAIN_THREAD_ID + 1;
    rt = ld(rt, "sem").unwrap();
    rt = wait(rt).unwrap(); // A blocks; B current
    assert_eq!(rt.current_thread.thread_id, b_id);
    assert_eq!(rt.blocked_queue.len(), 1);

    rt = ld(rt, "sem").unwrap();
    rt = signal(rt).unwrap(); // wakes A
    assert_eq!(rt.current_thread.thread_id, b_id, "signal must not switch threads");
    assert_eq!(rt.blocked_queue.len(), 0);
    assert_eq!(rt.ready_queue.len(), 1);
    assert_eq!(rt.ready_queue[0].thread_id, MAIN_THREAD_ID);
    assert_eq!(rt.sem_count(sem), 0, "a hand-off wake leaves the counter unchanged");
}

#[test]
fn test_two_spawned_threads_wait_first_proceeds_second_blocks() {
    // a parent with a semaphore initialized to 1 spawns two threads; both
    // wait on it: the first to execute proceeds immediately, the second
    // blocks until a signal.
    let mut rt = Runtime::load(vec![ByteCode::DONE]);
    let sem = rt.new_semaphore(1);
    let current_env = rt.current_thread.env;
    rt = extend_environment(rt, current_env, vec!["sem"], vec![Value::Semaphore(sem)]).unwrap();
    rt = spawn(rt, 0).unwrap(); // first child
    rt = spawn(rt, 0).unwrap(); // second child
    rt = spawn(rt, 0).unwrap(); // bystander keeping the ready queue non-empty
    let first = MAIN_THREAD_ID + 1;
    let second = MAIN_THREAD_ID + 2;

    // the parent halts; the first child becomes current
    rt = step(rt).unwrap();
    assert_eq!(rt.current_thread.thread_id, first);

    // the first waiter proceeds immediately (counter 1 -> 0)
    rt = ld(rt, "sem").unwrap();
    rt = wait(rt).unwrap();
    assert_eq!(rt.current_thread.thread_id, first);
    assert_eq!(rt.sem_count(sem), 0);

    // the first child halts; the second becomes current and blocks
    rt = step(rt).unwrap();
    assert_eq!(rt.current_thread.thread_id, second);
    rt = ld(rt, "sem").unwrap();
    rt = wait(rt).unwrap();
    assert_eq!(rt.blocked_queue.len(), 1);
    assert_eq!(rt.blocked_queue[0].0.thread_id, second);
    assert_ne!(rt.current_thread.thread_id, second);

    // a signal releases it: back of the ready queue, counter untouched
    rt = ld(rt, "sem").unwrap();
    rt = signal(rt).unwrap();
    assert_eq!(rt.blocked_queue.len(), 0);
    assert_eq!(rt.ready_queue[rt.ready_queue.len() - 1].thread_id, second);
    assert_eq!(rt.sem_count(sem), 0);
}

#[test]
fn test_spawn_env_and_handle() {
    let mut rt = Runtime::default();
    let current_env = rt.current_thread.env;
    rt = extend_environment(rt, current_env, vec!["x"], vec![Value::Int(9)]).unwrap();
    rt = spawn(rt, 7).unwrap();
    // the parent receives the child's id on its operand stack
    assert_eq!(
        rt.current_thread.operand_stack.last(),
        Some(&Value::Int(MAIN_THREAD_ID + 1))
    );
    let child = rt.ready_queue[0].thread_id;
    assert_eq!(child, MAIN_THREAD_ID + 1);
    assert_eq!(rt.ready_queue[0].pc, 7);
    // the child's environment chains to the parent's bindings at spawn time
    let child_env = rt.ready_queue[0].env;
    assert_eq!(rt.arena.get(child_env, "x"), Some(Value::Int(9)));
}
