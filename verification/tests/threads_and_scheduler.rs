use heineos::coroutine::coroutine::Coroutine;
use heineos::shell::commands::threads::current_tid;
use heineos::thread::scheduler::{yield_cpu_if_initialized, Scheduler, ThreadState};
use heineos::thread::thread::{next_id, prepare_context, Thread, STACK_SIZE};

fn scheduler_with(ids: &[usize]) -> Scheduler {
    let mut counter = 0usize;
    let mut s = Scheduler::new(Thread::new(&mut counter, 0x100));
    for id in ids {
        counter = *id;
        s.ready(Thread::new(&mut counter, 0x200));
    }
    s
}

fn snapshot(s: &Scheduler) -> Vec<(usize, ThreadState)> {
    s.thread_snapshot().iter().map(|t| (t.id, t.state)).collect()
}

#[test]
fn ids_count_up() {
    let mut counter = 0usize;
    assert_eq!(next_id(&mut counter), 0);
    assert_eq!(next_id(&mut counter), 1);
    assert_eq!(counter, 2);
    let mut last = usize::MAX;
    assert_eq!(next_id(&mut last), usize::MAX);
    assert_eq!(last, 0);
}

#[test]
fn new_thread_has_zeroed_stack() {
    let mut ids = 7usize;
    let t = Thread::new(&mut ids, 0xabc);
    assert_eq!(t.id(), 7);
    assert_eq!(ids, 8);
    assert_eq!(t.entry(), 0xabc);
    assert_eq!(t.stack().len(), STACK_SIZE / 8);
    assert!(t.stack().iter().all(|w| *w == 0));
}

#[test]
fn prepared_stack_layout() {
    let mut stack = vec![0u64; 32];
    let sp = prepare_context(&mut stack, 0xdead, 0xbeef, 0x1000);
    // slot 30 lies at 0x1000 + 240, which is 16-byte aligned
    assert_eq!(stack[30], 0xdead);
    assert_eq!(stack[30 - 14], 0xbeef);
    assert_eq!(stack[30 - 16], 0x2);
    assert_eq!(sp, 0x1000 + (30 - 16) * 8);
    let mut stack = vec![0u64; 32];
    let sp = prepare_context(&mut stack, 1, 2, 0x1008);
    assert_eq!(stack[29], 1);
    assert_eq!(sp, 0x1008 + (29 - 16) * 8);
}

#[test]
fn round_robin_yield() {
    let mut s = scheduler_with(&[1, 2]);
    assert_eq!(s.get_active_tid(), 0);
    assert!(!s.yield_cpu(false, false));
    s.schedule();
    assert!(s.yield_cpu(false, false));
    assert_eq!(current_tid(&s), 1);
    assert_eq!(snapshot(&s), vec![(1, ThreadState::Running), (2, ThreadState::Ready), (0, ThreadState::Ready)]);
    assert!(!s.yield_cpu(true, false));
    assert!(!s.yield_cpu(false, true));
    assert_eq!(current_tid(&s), 1);
    assert!(s.yield_cpu(false, false));
    assert!(s.yield_cpu(false, false));
    assert_eq!(current_tid(&s), 0);
}

#[test]
fn kill_removes_a_ready_thread() {
    let mut s = scheduler_with(&[1, 2, 3]);
    s.kill(2);
    assert_eq!(snapshot(&s), vec![(0, ThreadState::Running), (1, ThreadState::Ready), (3, ThreadState::Ready)]);
    s.kill(0);
    assert_eq!(s.get_active_tid(), 0);
}

#[test]
fn exit_switches_and_cleanup_frees() {
    let mut s = scheduler_with(&[1]);
    s.schedule();
    s.exit();
    assert_eq!(s.get_active_tid(), 1);
    s.cleanup_terminated_threads();
    assert_eq!(snapshot(&s), vec![(1, ThreadState::Running)]);
}

#[test]
fn yield_only_with_interrupts_and_scheduler() {
    let mut none: Option<Scheduler> = None;
    assert!(!yield_cpu_if_initialized(&mut none, true, false, false));
    let mut some = Some(scheduler_with(&[5]));
    some.as_mut().unwrap().schedule();
    assert!(!yield_cpu_if_initialized(&mut some, false, false, false));
    assert!(yield_cpu_if_initialized(&mut some, true, false, false));
    assert_eq!(some.as_ref().unwrap().get_active_tid(), 5);
}

#[test]
fn thread_state_names() {
    assert_eq!(ThreadState::Running.as_str(), "running");
    assert_eq!(ThreadState::Ready.as_str(), "ready");
}

#[test]
fn coroutines_chain() {
    let mut ids = 3usize;
    let mut c = Coroutine::new(&mut ids, 0x400);
    assert_eq!(c.id(), 3);
    assert_eq!(Coroutine::new(&mut ids, 0x500).id(), 4);
    assert_eq!(c.next(), None);
    c.set_next(0x9000);
    assert_eq!(c.next(), Some(0x9000));
    c.prepare_stack(0x11, 0x22, 0x2000);
    let top = STACK_SIZE / 8 - 2;
    assert_eq!(c.stack_ptr(), 0x2000 + (top - 16) * 8);
    assert_eq!(c.entry(), 0x400);
}

#[test]
fn threads_are_named_by_id() {
    let mut ids = 42usize;
    assert_eq!(Thread::new(&mut ids, 0).describe(), "T42");
    assert_eq!(Thread::new(&mut ids, 0).describe(), "T43");
    let mut first = 0usize;
    assert_eq!(Thread::new(&mut first, 0).describe(), "T0");
}
