//! The scheduler commands.
use vstd::prelude::*;
use crate::thread::scheduler::{state_name, Scheduler, ThreadInfo};
use crate::text::{decimal, padded, push_char, push_decimal, push_padded, push_str};

verus! {

/// The ID of the thread the scheduler runs at the moment: the shell's own.
pub fn current_tid(scheduler: &Scheduler) -> (r: usize)
    ensures
        r == scheduler.active_id(),
{
    scheduler.get_active_tid()
}

/// The line `ps` prints for a thread: its ID left-aligned in five columns,
/// then its state.
pub fn ps_line(thread: &ThreadInfo) -> (r: String)
    ensures
        r@ == seq![' ', ' '] + padded(decimal(thread.id as nat), 5) + seq![' '] + state_name(thread.state),
{
    let mut id = String::new();
    push_decimal(&mut id, thread.id);
    let mut line = String::new();
    push_char(&mut line, ' ');
    push_char(&mut line, ' ');
    push_padded(&mut line, id.as_str(), 5);
    push_char(&mut line, ' ');
    push_str(&mut line, thread.state.as_str());
    proof {
        assert(id@ =~= decimal(thread.id as nat));
        assert(line@ =~= seq![' ', ' '] + padded(decimal(thread.id as nat), 5) + seq![' '] + state_name(thread.state));
    }
    line
}

} // verus!
