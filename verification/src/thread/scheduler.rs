//! A round-robin scheduler for cooperative threads, without priorities.
//!
//! The scheduler keeps the active thread, the ready queue and the threads that
//! terminated and wait for cleanup, and decides which thread runs next. The
//! context switch itself is performed by the caller after a decision.
use vstd::prelude::*;
use std::collections::VecDeque;
use crate::thread::thread::Thread;

verus! {

/// Upper limit for the number of threads reported by `Scheduler::thread_snapshot`.
pub const MAX_SNAPSHOT_THREADS: usize = 64;

/// The state of a thread as far as the scheduler can tell: the one thread that
/// owns the CPU, or a thread waiting in the ready queue.
#[derive(Copy, Clone, PartialEq, Eq, Structural, Debug)]
pub enum ThreadState {
    /// The thread is currently running on the CPU.
    Running,
    /// The thread is waiting in the ready queue.
    Ready,
}

/// The name of a thread state for display purposes.
pub open spec fn state_name(state: ThreadState) -> Seq<char> {
    match state {
        ThreadState::Running => "running"@,
        ThreadState::Ready => "ready"@,
    }
}

impl ThreadState {
    /// The name of the state for display purposes.
    pub fn as_str(&self) -> (r: &'static str)
        ensures
            r@ == state_name(*self),
    {
        match self {
            ThreadState::Running => "running",
            ThreadState::Ready => "ready",
        }
    }
}

/// Read-only information about a single thread.
#[derive(Copy, Clone, Debug, PartialEq, Eq, Structural)]
pub struct ThreadInfo {
    /// The ID of the thread.
    pub id: usize,
    /// The state of the thread when the snapshot was taken.
    pub state: ThreadState,
}

/// The IDs of a queue of threads, front first.
pub open spec fn ids(q: Seq<Box<Thread>>) -> Seq<usize> {
    q.map_values(|t: Box<Thread>| t.id_spec())
}

/// The snapshot of a scheduler whose active thread has ID `active` and whose
/// ready queue holds `ready`: the active thread, then the ready threads, at most
/// `MAX_SNAPSHOT_THREADS` entries.
pub open spec fn snapshot_of(active: usize, ready: Seq<usize>) -> Seq<ThreadInfo> {
    let n = if ready.len() + 1 > MAX_SNAPSHOT_THREADS { MAX_SNAPSHOT_THREADS - 1 } else { ready.len() as int };
    seq![ThreadInfo { id: active, state: ThreadState::Running }] + Seq::new(
        n as nat,
        |i: int| ThreadInfo { id: ready[i], state: ThreadState::Ready },
    )
}

/// The threads of a queue, front first.
pub open spec fn threads_of(q: Seq<Box<Thread>>) -> Seq<Thread> {
    q.map_values(|t: Box<Thread>| *t)
}

/// The predicate "the thread's ID differs from `id`".
pub open spec fn thread_other_than(id: usize) -> spec_fn(Thread) -> bool {
    |t: Thread| t.id_spec() != id
}

/// The predicate "the ID differs from `id`".
pub open spec fn other_than(id: usize) -> spec_fn(usize) -> bool {
    |x: usize| x != id
}

/// The snapshot entries of ready threads with the IDs `ready`, in order.
pub open spec fn ready_infos(ready: Seq<usize>) -> Seq<ThreadInfo> {
    ready.map_values(|id: usize| ThreadInfo { id, state: ThreadState::Ready })
}

/// The predicate "the snapshot entry survives killing `id`": the running
/// thread, and every thread with another ID.
pub open spec fn survives_kill(id: usize) -> spec_fn(ThreadInfo) -> bool {
    |t: ThreadInfo| t.state == ThreadState::Running || t.id != id
}

proof fn lemma_ready_infos_filter(ready: Seq<usize>, id: usize)
    ensures
        ready_infos(ready.filter(other_than(id))) == ready_infos(ready).filter(survives_kill(id)),
    decreases ready.len(),
{
    reveal(Seq::filter);
    if ready.len() > 0 {
        let r0 = ready.drop_last();
        lemma_ready_infos_filter(r0, id);
        assert(ready_infos(ready).drop_last() =~= ready_infos(r0));
        let f0 = r0.filter(other_than(id));
        if ready.last() != id {
            assert(ready_infos(f0.push(ready.last())) =~= ready_infos(f0).push(
                ThreadInfo { id: ready.last(), state: ThreadState::Ready },
            ));
        }
    }
}

/// With fewer threads than `MAX_SNAPSHOT_THREADS`, killing `id` removes
/// exactly the ready threads with that ID from the snapshot: the running
/// thread stays, and an unknown ID changes nothing.
pub proof fn lemma_kill_snapshot(active: usize, ready: Seq<usize>, id: usize)
    requires
        ready.len() + 1 <= MAX_SNAPSHOT_THREADS,
    ensures
        snapshot_of(active, ready.filter(other_than(id))) == snapshot_of(active, ready).filter(survives_kill(id)),
{
    reveal(Seq::filter);
    let f = ready.filter(other_than(id));
    ready.lemma_filter_len(other_than(id));
    let head = seq![ThreadInfo { id: active, state: ThreadState::Running }];
    assert(snapshot_of(active, ready) =~= head + ready_infos(ready));
    assert(snapshot_of(active, f) =~= head + ready_infos(f));
    lemma_ready_infos_filter(ready, id);
    Seq::filter_distributes_over_add(head, ready_infos(ready), survives_kill(id));
    assert(head.filter(survives_kill(id)) =~= head) by {
        assert(head.drop_last() =~= Seq::<ThreadInfo>::empty());
    }
}

/// The round-robin scheduler.
pub struct Scheduler {
    initialized: bool,
    active_thread: Option<Box<Thread>>,
    ready_queue: VecDeque<Box<Thread>>,
    terminated_threads: VecDeque<Box<Thread>>,
}

impl Scheduler {
    /// Whether `schedule` has started the scheduler.
    pub closed spec fn initialized_spec(&self) -> bool {
        self.initialized
    }

    /// The ID of the active thread.
    pub closed spec fn active_id(&self) -> usize {
        self.active_thread->0.id_spec()
    }

    /// The IDs of the ready threads, front first.
    pub closed spec fn ready_ids(&self) -> Seq<usize> {
        ids(self.ready_queue@)
    }

    /// The IDs of the terminated threads waiting for cleanup, oldest first.
    pub closed spec fn terminated_ids(&self) -> Seq<usize> {
        ids(self.terminated_threads@)
    }

    /// The ready threads, front first.
    pub closed spec fn ready_threads(&self) -> Seq<Thread> {
        threads_of(self.ready_queue@)
    }

    /// The terminated threads waiting for cleanup, oldest first.
    pub closed spec fn terminated_threads_spec(&self) -> Seq<Thread> {
        threads_of(self.terminated_threads@)
    }

    /// The active thread.
    pub closed spec fn active(&self) -> Thread {
        *self.active_thread->0
    }

    /// There is always an active thread (at least the idle thread).
    #[verifier::type_invariant]
    closed spec fn inv(&self) -> bool {
        self.active_thread is Some
    }

    /// Create a scheduler with an empty ready queue and the given idle thread as
    /// the active thread.
    pub fn new(idle: Box<Thread>) -> (r: Scheduler)
        ensures
            !r.initialized_spec(),
            r.active_id() == idle.id_spec(),
            r.active() == *idle,
            r.ready_ids() == Seq::<usize>::empty(),
            r.terminated_ids() == Seq::<usize>::empty(),
            r.ready_threads() == Seq::<Thread>::empty(),
            r.terminated_threads_spec() == Seq::<Thread>::empty(),
    {
        let r = Scheduler {
            initialized: false,
            active_thread: Some(idle),
            ready_queue: VecDeque::new(),
            terminated_threads: VecDeque::new(),
        };
        assert(r.ready_ids() =~= Seq::<usize>::empty());
        assert(r.terminated_ids() =~= Seq::<usize>::empty());
        assert(r.ready_threads() =~= Seq::<Thread>::empty());
        assert(r.terminated_threads_spec() =~= Seq::<Thread>::empty());
        r
    }

    /// The ID of the currently active thread.
    pub fn get_active_tid(&self) -> (r: usize)
        ensures
            r == self.active_id(),
    {
        proof {
            use_type_invariant(self);
        }
        match &self.active_thread {
            Some(t) => t.id(),
            None => 0,
        }
    }

    /// The active thread, to be started or switched to by the caller.
    pub fn active_thread(&self) -> (r: &Thread)
        ensures
            *r == self.active(),
    {
        proof {
            use_type_invariant(self);
        }
        self.active_thread.as_ref().unwrap()
    }

    /// A read-only snapshot of the threads: the active thread followed by the
    /// threads in the ready queue, at most `MAX_SNAPSHOT_THREADS` entries.
    pub fn thread_snapshot(&self) -> (r: Vec<ThreadInfo>)
        ensures
            r@ == snapshot_of(self.active_id(), self.ready_ids()),
    {
        let mut threads: Vec<ThreadInfo> = Vec::with_capacity(MAX_SNAPSHOT_THREADS);
        let active = self.get_active_tid();
        threads.push(ThreadInfo { id: active, state: ThreadState::Running });
        let ghost ready = self.ready_ids();
        let mut i: usize = 0;
        while i < self.ready_queue.len()
            invariant
                ready == ids(self.ready_queue@),
                i <= self.ready_queue@.len(),
                threads@.len() == i + 1,
                threads@.len() <= MAX_SNAPSHOT_THREADS,
                threads@ == (seq![ThreadInfo { id: active, state: ThreadState::Running }] + Seq::new(
                    i as nat,
                    |k: int| ThreadInfo { id: ready[k], state: ThreadState::Ready },
                )),
            ensures
                i == self.ready_queue@.len() || i + 1 == MAX_SNAPSHOT_THREADS,
                i <= self.ready_queue@.len(),
                threads@ == (seq![ThreadInfo { id: active, state: ThreadState::Running }] + Seq::new(
                    i as nat,
                    |k: int| ThreadInfo { id: ready[k], state: ThreadState::Ready },
                )),
            decreases self.ready_queue@.len() - i,
        {
            if threads.len() >= MAX_SNAPSHOT_THREADS {
                break;
            }
            let id = self.ready_queue[i].id();
            threads.push(ThreadInfo { id, state: ThreadState::Ready });
            i = i + 1;
            proof {
                assert(threads@ =~= seq![ThreadInfo { id: active, state: ThreadState::Running }] + Seq::new(
                    i as nat,
                    |k: int| ThreadInfo { id: ready[k], state: ThreadState::Ready },
                ));
            }
        }
        proof {
            assert(threads@ =~= snapshot_of(self.active_id(), self.ready_ids()));
        }
        threads
    }

    /// Start the scheduler; the caller then starts the active thread. Called once.
    pub fn schedule(&mut self)
        ensures
            final(self).initialized_spec(),
            final(self).active() == old(self).active(),
            final(self).active_id() == old(self).active_id(),
            final(self).ready_ids() == old(self).ready_ids(),
            final(self).terminated_ids() == old(self).terminated_ids(),
            final(self).ready_threads() == old(self).ready_threads(),
            final(self).terminated_threads_spec() == old(self).terminated_threads_spec(),
    {
        proof {
            use_type_invariant(&*self);
        }
        self.initialized = true;
    }

    /// Register a new thread at the end of the ready queue.
    pub fn ready(&mut self, thread: Box<Thread>)
        ensures
            final(self).initialized_spec() == old(self).initialized_spec(),
            final(self).active_id() == old(self).active_id(),
            final(self).ready_ids() == old(self).ready_ids().push(thread.id_spec()),
            final(self).terminated_ids() == old(self).terminated_ids(),
            final(self).active() == old(self).active(),
            final(self).ready_threads() == old(self).ready_threads().push(*thread),
            final(self).terminated_threads_spec() == old(self).terminated_threads_spec(),
    {
        proof {
            use_type_invariant(&*self);
        }
        let ghost before = self.ready_queue@;
        let mut queue: VecDeque<Box<Thread>> = VecDeque::new();
        std::mem::swap(&mut queue, &mut self.ready_queue);
        queue.push_back(thread);
        self.ready_queue = queue;
        assert(ids(self.ready_queue@) =~= ids(before).push(thread.id_spec()));
        assert(threads_of(self.ready_queue@) =~= threads_of(before).push(*thread));
    }

    /// Terminate the active thread: it joins the terminated threads and the first
    /// ready thread becomes active. The caller then switches to the new active
    /// thread. The idle thread never exits, so the ready queue is not empty here.
    pub fn exit(&mut self)
        requires
            old(self).ready_ids().len() > 0,
        ensures
            final(self).initialized_spec() == old(self).initialized_spec(),
            final(self).active_id() == old(self).ready_ids()[0],
            final(self).ready_ids() == old(self).ready_ids().drop_first(),
            final(self).terminated_ids() == old(self).terminated_ids().push(old(self).active_id()),
            final(self).active() == old(self).ready_threads()[0],
            final(self).ready_threads() == old(self).ready_threads().drop_first(),
            final(self).terminated_threads_spec() == old(self).terminated_threads_spec().push(old(self).active()),
    {
        proof {
            use_type_invariant(&*self);
        }
        let ghost ready = self.ready_queue@;
        let ghost term = self.terminated_threads@;
        let mut queue: VecDeque<Box<Thread>> = VecDeque::new();
        std::mem::swap(&mut queue, &mut self.ready_queue);
        let next = match queue.pop_front() {
            Some(t) => t,
            None => {
                proof {
                    assert(false);
                }
                self.ready_queue = queue;
                return;
            },
        };
        self.ready_queue = queue;
        let mut current: Option<Box<Thread>> = Some(next);
        std::mem::swap(&mut current, &mut self.active_thread);
        let mut terminated: VecDeque<Box<Thread>> = VecDeque::new();
        std::mem::swap(&mut terminated, &mut self.terminated_threads);
        match current {
            Some(c) => {
                terminated.push_back(c);
            },
            None => {},
        }
        self.terminated_threads = terminated;
        proof {
            assert(ids(self.ready_queue@) =~= ids(ready).drop_first());
            assert(ids(self.terminated_threads@) =~= ids(term).push(old(self).active_id()));
            assert(threads_of(self.ready_queue@) =~= threads_of(ready).drop_first());
            assert(threads_of(self.terminated_threads@) =~= threads_of(term).push(old(self).active()));
        }
    }

    /// Free the resources of all terminated threads.
    pub fn cleanup_terminated_threads(&mut self)
        ensures
            final(self).initialized_spec() == old(self).initialized_spec(),
            final(self).active_id() == old(self).active_id(),
            final(self).ready_ids() == old(self).ready_ids(),
            final(self).terminated_ids() == Seq::<usize>::empty(),
            final(self).active() == old(self).active(),
            final(self).ready_threads() == old(self).ready_threads(),
            final(self).terminated_threads_spec() == Seq::<Thread>::empty(),
    {
        proof {
            use_type_invariant(&*self);
        }
        let mut terminated: VecDeque<Box<Thread>> = VecDeque::new();
        std::mem::swap(&mut terminated, &mut self.terminated_threads);
        while terminated.len() > 0
            decreases terminated@.len(),
        {
            let _terminated = terminated.pop_front();
        }
        assert(self.terminated_ids() =~= Seq::<usize>::empty());
        assert(self.terminated_threads_spec() =~= Seq::<Thread>::empty());
    }

    /// Decide a switch to the next ready thread. Nothing happens while scheduling
    /// is suspended, while the heap allocator is locked (the thread holding it
    /// could not be scheduled again), before `schedule`, or with an empty ready
    /// queue; otherwise the active thread goes to the end of the ready queue and
    /// the first ready thread becomes active. Returns whether the caller has to
    /// switch from the last ready thread to the new active one.
    pub fn yield_cpu(&mut self, scheduling_suspended: bool, allocator_locked: bool) -> (r: bool)
        ensures
            final(self).initialized_spec() == old(self).initialized_spec(),
            final(self).terminated_ids() == old(self).terminated_ids(),
            r == (!scheduling_suspended && !allocator_locked && old(self).initialized_spec()
                && old(self).ready_ids().len() > 0),
            r ==> final(self).active_id() == old(self).ready_ids()[0] && final(self).ready_ids()
                == old(self).ready_ids().drop_first().push(old(self).active_id()),
            !r ==> final(self).active_id() == old(self).active_id() && final(self).ready_ids()
                == old(self).ready_ids(),
            final(self).terminated_threads_spec() == old(self).terminated_threads_spec(),
            r ==> final(self).active() == old(self).ready_threads()[0] && final(self).ready_threads()
                == old(self).ready_threads().drop_first().push(old(self).active()),
            !r ==> final(self).active() == old(self).active() && final(self).ready_threads()
                == old(self).ready_threads(),
    {
        proof {
            use_type_invariant(&*self);
        }
        if scheduling_suspended || allocator_locked || !self.initialized {
            return false;
        }
        let ghost ready = self.ready_queue@;
        let mut queue: VecDeque<Box<Thread>> = VecDeque::new();
        std::mem::swap(&mut queue, &mut self.ready_queue);
        let next = match queue.pop_front() {
            Some(t) => t,
            None => {
                self.ready_queue = queue;
                return false;
            },
        };
        let mut current: Option<Box<Thread>> = Some(next);
        std::mem::swap(&mut current, &mut self.active_thread);
        match current {
            Some(c) => {
                queue.push_back(c);
            },
            None => {},
        }
        self.ready_queue = queue;
        proof {
            assert(ids(self.ready_queue@) =~= ids(ready).drop_first().push(old(self).active_id()));
            assert(threads_of(self.ready_queue@) =~= threads_of(ready).drop_first().push(old(self).active()));
        }
        true
    }

    /// Kill the thread with the given ID by removing it from the ready queue.
    pub fn kill(&mut self, to_kill_id: usize)
        ensures
            final(self).initialized_spec() == old(self).initialized_spec(),
            final(self).active_id() == old(self).active_id(),
            final(self).ready_ids() == old(self).ready_ids().filter(other_than(to_kill_id)),
            final(self).terminated_ids() == old(self).terminated_ids(),
            final(self).active() == old(self).active(),
            final(self).ready_threads() == old(self).ready_threads().filter(thread_other_than(to_kill_id)),
            final(self).terminated_threads_spec() == old(self).terminated_threads_spec(),
    {
        proof {
            use_type_invariant(&*self);
        }
        let ghost ready = ids(self.ready_queue@);
        let mut kept: VecDeque<Box<Thread>> = VecDeque::new();
        let mut remaining: VecDeque<Box<Thread>> = VecDeque::new();
        std::mem::swap(&mut remaining, &mut self.ready_queue);
        let ghost all = remaining@;
        proof {
            reveal(Seq::filter);
            assert(ids(kept@) =~= ids(all).subrange(0, 0).filter(other_than(to_kill_id)));
            assert(threads_of(kept@) =~= threads_of(all).subrange(0, 0).filter(thread_other_than(to_kill_id)));
        }
        while remaining.len() > 0
            invariant
                ids(all) == ready,
                remaining@.len() <= all.len(),
                remaining@ == all.subrange(all.len() - remaining@.len(), all.len() as int),
                ids(kept@) == ids(all).subrange(0, all.len() - remaining@.len()).filter(other_than(to_kill_id)),
                threads_of(kept@) == threads_of(all).subrange(0, all.len() - remaining@.len()).filter(
                    thread_other_than(to_kill_id),
                ),
            decreases remaining@.len(),
        {
            let ghost done = all.len() - remaining@.len();
            let ghost before = kept@;
            let t = remaining.pop_front().unwrap();
            proof {
                assert(t == all[done]);
                let pre = ids(all).subrange(0, done);
                assert(ids(all).subrange(0, done + 1) =~= pre.push(t.id_spec()));
                pre.lemma_filter_push(t.id_spec(), other_than(to_kill_id));
                let tpre = threads_of(all).subrange(0, done);
                assert(threads_of(all).subrange(0, done + 1) =~= tpre.push(*t));
                tpre.lemma_filter_push(*t, thread_other_than(to_kill_id));
                assert(remaining@ =~= all.subrange(done + 1, all.len() as int));
            }
            if t.id() != to_kill_id {
                kept.push_back(t);
                proof {
                    assert(ids(kept@) =~= ids(before).push(t.id_spec()));
                    assert(threads_of(kept@) =~= threads_of(before).push(*t));
                }
            }
        }
        proof {
            assert(ids(all).subrange(0, all.len() as int) =~= ids(all));
            assert(threads_of(all).subrange(0, all.len() as int) =~= threads_of(all));
        }
        self.ready_queue = kept;
    }
}

/// Yield the CPU if a scheduler exists and interrupts are enabled; low-level
/// code such as a spinlock uses this so that it never creates the scheduler.
/// Returns whether the caller has to switch threads.
pub fn yield_cpu_if_initialized(
    scheduler: &mut Option<Scheduler>,
    interrupts_enabled: bool,
    scheduling_suspended: bool,
    allocator_locked: bool,
) -> (r: bool)
    ensures
        !interrupts_enabled || (*old(scheduler)) is None ==> !r && *final(scheduler) == *old(scheduler),
        interrupts_enabled && (*old(scheduler)) is Some ==> ({
            let before = (*old(scheduler))->Some_0;
            let after = (*final(scheduler))->Some_0;
            &&& (*final(scheduler)) is Some
            &&& r == (!scheduling_suspended && !allocator_locked && before.initialized_spec()
                && before.ready_ids().len() > 0)
            &&& r ==> after.active_id() == before.ready_ids()[0] && after.ready_ids()
                == before.ready_ids().drop_first().push(before.active_id())
            &&& !r ==> after.active_id() == before.active_id() && after.ready_ids() == before.ready_ids()
        }),
{
    if !interrupts_enabled {
        return false;
    }
    match scheduler {
        Some(s) => s.yield_cpu(scheduling_suspended, allocator_locked),
        None => false,
    }
}

/// Switching threads moves the active thread to the end of the ready queue
/// and runs the first ready one: the same threads remain, none is lost or
/// duplicated.
pub proof fn lemma_yield_keeps_threads(active: usize, ready: Seq<usize>)
    requires
        ready.len() > 0,
    ensures
        (seq![ready[0]] + ready.drop_first().push(active)).to_multiset() == (seq![active] + ready).to_multiset(),
{
    broadcast use vstd::seq_lib::group_to_multiset_ensures;
    let a = seq![ready[0]] + ready.drop_first().push(active);
    let b = seq![active] + ready;
    assert(a =~= ready.push(active));
    assert(b =~= seq![active].add(ready));
    vstd::seq_lib::lemma_multiset_commutative(seq![active], ready);
    assert(ready.push(active) =~= ready.add(seq![active]));
}

} // verus!
