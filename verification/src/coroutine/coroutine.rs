//! Coroutines: an ID, a stack with a prepared start context, and the
//! successor they switch to. Coroutines are chained into a ring with
//! `set_next`; a coroutine without a successor cannot be started.
use vstd::prelude::*;
use crate::thread::thread::{next_id, prepare_context, prepared_stack, return_slot, CONTEXT_WORDS, STACK_SIZE};

verus! {

/// A coroutine: its ID, the memory of its stack, the saved stack pointer,
/// the address of its entry function, and the address of its successor.
pub struct Coroutine {
    id: usize,
    stack: Vec<u64>,
    stack_ptr: usize,
    entry: usize,
    next: Option<usize>,
}

impl Coroutine {
    pub closed spec fn id_spec(&self) -> usize {
        self.id
    }

    pub closed spec fn stack_spec(&self) -> Seq<u64> {
        self.stack@
    }

    pub closed spec fn stack_ptr_spec(&self) -> usize {
        self.stack_ptr
    }

    pub closed spec fn entry_spec(&self) -> usize {
        self.entry
    }

    pub closed spec fn next_spec(&self) -> Option<usize> {
        self.next
    }

    /// Create a coroutine with the given entry function address, with a zeroed
    /// stack of `STACK_SIZE` bytes and no successor. Its ID is taken from the
    /// coroutine ID counter `ids`, so successive coroutines get successive IDs.
    pub fn new(ids: &mut usize, entry: usize) -> (r: Box<Coroutine>)
        ensures
            r.id_spec() == *old(ids),
            *final(ids) == (*old(ids)).wrapping_add(1),
            r.entry_spec() == entry,
            r.stack_spec() == Seq::new((STACK_SIZE / 8) as nat, |i: int| 0u64),
            r.stack_ptr_spec() == 0,
            r.next_spec() is None,
    {
        let mut stack: Vec<u64> = Vec::new();
        let words = STACK_SIZE / 8;
        while stack.len() < words
            invariant
                words == STACK_SIZE / 8,
                stack@.len() <= words,
                forall|i: int| 0 <= i < stack@.len() ==> stack@[i] == 0u64,
            decreases words - stack@.len(),
        {
            stack.push(0);
        }
        assert(stack@ =~= Seq::new((STACK_SIZE / 8) as nat, |i: int| 0u64));
        let id = next_id(ids);
        Box::new(Coroutine { id, stack, stack_ptr: 0, entry, next: None })
    }

    /// The ID of the coroutine.
    pub fn id(&self) -> (r: usize)
        ensures
            r == self.id_spec(),
    {
        self.id
    }

    /// Make the coroutine at `next` the successor of this one.
    pub fn set_next(&mut self, next: usize)
        ensures
            final(self).next_spec() == Some(next),
            final(self).id_spec() == old(self).id_spec(),
            final(self).entry_spec() == old(self).entry_spec(),
            final(self).stack_spec() == old(self).stack_spec(),
            final(self).stack_ptr_spec() == old(self).stack_ptr_spec(),
    {
        self.next = Some(next);
    }

    /// The address of the successor, if one was set. Starting or switching
    /// away from a coroutine needs one.
    pub fn next(&self) -> (r: Option<usize>)
        ensures
            r == self.next_spec(),
    {
        self.next
    }

    /// The saved stack pointer of the coroutine's context.
    pub fn stack_ptr(&self) -> (r: usize)
        ensures
            r == self.stack_ptr_spec(),
    {
        self.stack_ptr
    }

    /// The address of the coroutine's entry function.
    pub fn entry(&self) -> (r: usize)
        ensures
            r == self.entry_spec(),
    {
        self.entry
    }

    /// Prepare the stack of a new coroutine so that starting or switching to it
    /// enters `kickoff` with the coroutine itself (at `coroutine_address`) as
    /// argument; `stack_base` is the address of the first stack slot.
    pub fn prepare_stack(&mut self, kickoff: u64, coroutine_address: u64, stack_base: usize)
        requires
            old(self).stack_spec().len() >= CONTEXT_WORDS + 3,
            stack_base + old(self).stack_spec().len() * 8 <= usize::MAX,
        ensures
            final(self).id_spec() == old(self).id_spec(),
            final(self).entry_spec() == old(self).entry_spec(),
            final(self).next_spec() == old(self).next_spec(),
            ({
                let top = return_slot(old(self).stack_spec().len() as int, stack_base as int);
                &&& final(self).stack_spec() == prepared_stack(old(self).stack_spec(), top, kickoff, coroutine_address)
                &&& final(self).stack_ptr_spec() == stack_base + (top - 16) * 8
            }),
    {
        let mut stack: Vec<u64> = Vec::new();
        std::mem::swap(&mut stack, &mut self.stack);
        self.stack_ptr = prepare_context(&mut stack, kickoff, coroutine_address, stack_base);
        self.stack = stack;
    }
}

} // verus!
