//! Threads: an ID, a stack, and the saved stack pointer of the thread's context.
use vstd::prelude::*;
use crate::text::{decimal, push_char, push_decimal};

verus! {

/// Size of a thread stack in bytes.
pub const STACK_SIZE: usize = 0x10000;

/// Number of saved context words below the return address: the 15 general
/// purpose registers restored by the context switch, and the flags.
pub const CONTEXT_WORDS: usize = 16;

/// The saved flags of a new thread: interrupts disabled (IE = 0), reserved bit 1 set.
pub const INITIAL_RFLAGS: u64 = 0x2;

/// A thread: its ID, the memory of its stack, the saved stack pointer and the
/// address of its entry function.
pub struct Thread {
    id: usize,
    stack: Vec<u64>,
    stack_ptr: usize,
    entry: usize,
}

/// The stack of a new thread after preparation: the return address into
/// `kickoff` at slot `top`, the 15 saved registers below it (all zero, except
/// `rdi`, which holds the thread's address as the argument of `kickoff`), and
/// the saved flags at slot `top - 16`.
pub open spec fn prepared_stack(old_stack: Seq<u64>, top: int, kickoff: u64, thread_address: u64) -> Seq<u64> {
    Seq::new(
        old_stack.len(),
        |i: int|
            if i == top {
                kickoff
            } else if i == top - 14 {
                thread_address
            } else if i == top - 16 {
                INITIAL_RFLAGS
            } else if top - 16 < i < top {
                0u64
            } else {
                old_stack[i]
            },
    )
}

/// The slot for the return address into `kickoff`: the second-highest slot if
/// its address is 16-byte aligned, otherwise the one below it, so that `kickoff`
/// is entered with the stack alignment the x86-64 ABI requires.
pub open spec fn return_slot(len: int, stack_base: int) -> int {
    if (stack_base + (len - 2) * 8) % 16 == 0 {
        len - 2
    } else {
        len - 3
    }
}

impl Thread {
    pub closed spec fn id_spec(&self) -> usize {
        self.id
    }

    pub closed spec fn stack_spec(&self) -> Seq<u64> {
        self.stack@
    }

    pub closed spec fn stack_ptr_spec(&self) -> usize {
        self.stack_ptr
    }

    pub closed spec fn entry_spec(&self) -> usize {
        self.entry
    }

    /// Create a thread with the given entry function address. Its ID is taken
    /// from the thread ID counter `ids` by `next_id`, so successive threads get
    /// successive IDs. The stack of `STACK_SIZE` bytes is zeroed; its context is
    /// set up by `prepare_stack` once the thread has its final address.
    pub fn new(ids: &mut usize, entry: usize) -> (r: Box<Thread>)
        ensures
            r.id_spec() == *old(ids),
            *final(ids) == (*old(ids)).wrapping_add(1),
            r.entry_spec() == entry,
            r.stack_spec() == Seq::new((STACK_SIZE / 8) as nat, |i: int| 0u64),
            r.stack_ptr_spec() == 0,
    {
        let mut stack: Vec<u64> = Vec::new();
        let words = STACK_SIZE / 8;
        while stack.len() < words
            invariant
                words == STACK_SIZE / 8,
                stack@.len() <= words,
                forall|i: int| 0 <= i < stack@.len() ==> stack@[i] == 0u64,
            decreases words - stack@.len(),
        {
            stack.push(0);
        }
        assert(stack@ =~= Seq::new((STACK_SIZE / 8) as nat, |i: int| 0u64));
        let id = next_id(ids);
        Box::new(Thread { id, stack, stack_ptr: 0, entry })
    }

    /// The ID of the thread.
    pub fn id(&self) -> (r: usize)
        ensures
            r == self.id_spec(),
    {
        self.id
    }

    /// The name of the thread for display: `T` followed by its ID.
    pub fn describe(&self) -> (r: String)
        ensures
            r@ == seq!['T'] + decimal(self.id_spec() as nat),
    {
        let mut s = String::new();
        push_char(&mut s, 'T');
        push_decimal(&mut s, self.id);
        s
    }

    /// The address of the thread's entry function.
    pub fn entry(&self) -> (r: usize)
        ensures
            r == self.entry_spec(),
    {
        self.entry
    }

    /// The saved stack pointer of the thread's context.
    pub fn stack_ptr(&self) -> (r: usize)
        ensures
            r == self.stack_ptr_spec(),
    {
        self.stack_ptr
    }

    /// The memory of the thread's stack.
    pub fn stack(&self) -> (r: &[u64])
        ensures
            r@ == self.stack_spec(),
    {
        self.stack.as_slice()
    }

    /// Index of the stack slot that holds the return address into `kickoff`,
    /// for a stack whose first slot lies at address `stack_base`.
    pub fn aligned_return_slot(&self, stack_base: usize) -> (r: usize)
        requires
            self.stack_spec().len() >= CONTEXT_WORDS + 3,
            stack_base + self.stack_spec().len() * 8 <= usize::MAX,
        ensures
            r == return_slot(self.stack_spec().len() as int, stack_base as int),
    {
        let slot = self.stack.len() - 2;
        let address = stack_base + slot * 8;
        if address % 16 == 0 {
            slot
        } else {
            slot - 1
        }
    }

    /// Prepare the stack of a new thread so that the context switch starts it in
    /// `kickoff` with the thread itself as argument: the return address, the
    /// saved registers and flags are written, and the stack pointer is set to the
    /// saved flags. `thread_address` is the address of this thread and
    /// `stack_base` the address of the first stack slot.
    pub fn prepare_stack(&mut self, kickoff: u64, thread_address: u64, stack_base: usize)
        requires
            old(self).stack_spec().len() >= CONTEXT_WORDS + 3,
            stack_base + old(self).stack_spec().len() * 8 <= usize::MAX,
        ensures
            final(self).id_spec() == old(self).id_spec(),
            final(self).entry_spec() == old(self).entry_spec(),
            ({
                let top = return_slot(old(self).stack_spec().len() as int, stack_base as int);
                &&& final(self).stack_spec() == prepared_stack(old(self).stack_spec(), top, kickoff, thread_address)
                &&& final(self).stack_ptr_spec() == stack_base + (top - 16) * 8
            }),
    {
        let mut stack: Vec<u64> = Vec::new();
        std::mem::swap(&mut stack, &mut self.stack);
        self.stack_ptr = prepare_context(&mut stack, kickoff, thread_address, stack_base);
        self.stack = stack;
    }
}

/// The counter after `n` IDs were taken from it, starting at `start`: each
/// `next_id` (and so each `Thread::new` or `Coroutine::new`) advances it by
/// one, wrapping around.
pub open spec fn counter_after(start: usize, n: nat) -> usize
    decreases n,
{
    if n == 0 {
        start
    } else {
        counter_after(start, (n - 1) as nat).wrapping_add(1)
    }
}

/// IDs taken one after another from a counter that does not wrap around are
/// all different, and each is greater than every ID taken before it: the
/// `k`-th one is `start + k`.
pub proof fn lemma_ids_increase(start: usize, n: nat)
    requires
        start + n <= usize::MAX,
    ensures
        forall|k: nat| k <= n ==> #[trigger] counter_after(start, k) == start + k,
        forall|i: nat, j: nat| i < j <= n ==> #[trigger] counter_after(start, i) < #[trigger] counter_after(start, j),
    decreases n,
{
    if n > 0 {
        lemma_ids_increase(start, (n - 1) as nat);
        let p = counter_after(start, (n - 1) as nat);
        assert(p == start + n - 1);
        assert(p.wrapping_add(1) == p + 1);
        assert(counter_after(start, n) == start + n);
    }
}

/// Take the next ID from `counter` and advance it, wrapping around at the end
/// of `usize`.
pub fn next_id(counter: &mut usize) -> (id: usize)
    ensures
        id == *old(counter),
        *final(counter) == (*old(counter)).wrapping_add(1),
{
    let id = *counter;
    *counter = id.wrapping_add(1);
    id
}

/// Prepare a stack so that a context switch starts `kickoff` with `argument`
/// as its first parameter: the return address at the aligned return slot, the
/// saved registers below it (zero, except `rdi`, which holds `argument`), and
/// the saved flags. Returns the stack pointer, the address of the saved flags,
/// for a stack whose first slot lies at address `stack_base`.
pub fn prepare_context(stack: &mut Vec<u64>, kickoff: u64, argument: u64, stack_base: usize) -> (stack_ptr: usize)
    requires
        old(stack)@.len() >= CONTEXT_WORDS + 3,
        stack_base + old(stack)@.len() * 8 <= usize::MAX,
    ensures
        ({
            let top = return_slot(old(stack)@.len() as int, stack_base as int);
            &&& final(stack)@ == prepared_stack(old(stack)@, top, kickoff, argument)
            &&& stack_ptr == stack_base + (top - 16) * 8
        }),
{
    let slot = stack.len() - 2;
    let top = if (stack_base + slot * 8) % 16 == 0 { slot } else { slot - 1 };
    let ghost old_stack = stack@;
    stack.set(top, kickoff);
    let mut k: usize = 1;
    while k <= 16
        invariant
            top == return_slot(old_stack.len() as int, stack_base as int),
            old_stack.len() >= CONTEXT_WORDS + 3,
            stack@.len() == old_stack.len(),
            1 <= k <= 17,
            forall|i: int| 0 <= i < old_stack.len() ==> #[trigger] stack@[i] == if i == top {
                kickoff
            } else if top - k < i < top {
                0u64
            } else {
                old_stack[i]
            },
        decreases 17 - k,
    {
        stack.set(top - k, 0);
        k = k + 1;
    }
    stack.set(top - 14, argument);
    stack.set(top - 16, INITIAL_RFLAGS);
    assert(stack@ =~= prepared_stack(old_stack, top as int, kickoff, argument));
    stack_base + (top - 16) * 8
}

/// The return address into `kickoff` lies in a 16-byte aligned slot, so
/// `kickoff` starts with `rsp % 16 == 8` as the x86-64 ABI requires, given a
/// stack whose slots are 8-byte aligned (as the heap guarantees).
pub proof fn lemma_return_slot_aligned(len: int, stack_base: int)
    requires
        len >= 3,
        stack_base >= 0,
        stack_base % 8 == 0,
    ensures
        (stack_base + return_slot(len, stack_base) * 8) % 16 == 0,
        len - 3 <= return_slot(len, stack_base) <= len - 2,
{
    let q = stack_base / 8;
    let m = q + len - 2;
    assert(stack_base == 8 * q);
    let a = stack_base + (len - 2) * 8;
    assert(a == 8 * m);
    if m % 2 == 0 {
        assert(a == 16 * (m / 2));
    } else {
        assert(a - 8 == 16 * ((m - 1) / 2));
        assert(a % 16 != 0);
    }
}

} // verus!
