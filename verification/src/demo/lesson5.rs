//! The decisions of the counter threads of the preemptive thread demo: each
//! counts up to a limit, shows its count on a row of its own, yields now and
//! then, and stops early when the demo ends.
use vstd::prelude::*;
use crate::text::{decimal, left_padded, push_decimal_right, push_str};

verus! {

/// The count at which a counter thread stops.
pub const COUNTER_LIMIT: usize = 10000;
/// A counter thread yields the CPU whenever its count reaches a multiple of this.
pub const YIELD_INTERVAL: usize = 10;
/// The terminal row of the first counter thread; the others follow below it.
pub const FIRST_COUNTER_ROW: usize = 7;

/// What a counter thread does after showing its count.
#[derive(Clone, Copy, Debug, PartialEq, Eq, Structural)]
pub enum CounterStep {
    /// The demo has ended: leave without finishing the count.
    Exit,
    /// The limit is reached: show the time it took and leave.
    ReportAndExit,
    /// Count on to `next`, and yield the CPU first if `yield_now`.
    Continue { next: usize, yield_now: bool },
}

/// One step of a counter thread with the count `counter`, while the demo is
/// `running` or not.
pub fn counter_step(running: bool, counter: usize) -> (r: CounterStep)
    ensures
        !running ==> r is Exit,
        running && counter == COUNTER_LIMIT ==> r is ReportAndExit,
        running && counter != COUNTER_LIMIT ==> r == (CounterStep::Continue {
            next: counter.wrapping_add(1),
            yield_now: counter.wrapping_add(1) % YIELD_INTERVAL == 0,
        }),
{
    if !running {
        CounterStep::Exit
    } else if counter == COUNTER_LIMIT {
        CounterStep::ReportAndExit
    } else {
        let next = counter.wrapping_add(1);
        CounterStep::Continue { next, yield_now: next % YIELD_INTERVAL == 0 }
    }
}

/// The row of the counter thread that started as number `index` (from zero).
pub fn counter_row(index: usize) -> (r: usize)
    requires
        index + FIRST_COUNTER_ROW <= usize::MAX,
    ensures
        r == index + FIRST_COUNTER_ROW,
{
    index + FIRST_COUNTER_ROW
}

/// The text of a counter line: `Thread [id]: ` and the count right-aligned in
/// twelve columns.
pub open spec fn counter_text(id: usize, counter: usize) -> Seq<char> {
    "Thread ["@ + decimal(id as nat) + "]: "@ + left_padded(decimal(counter as nat), 12)
}

/// The line a counter thread shows while counting.
pub fn counter_line(id: usize, counter: usize) -> (r: String)
    ensures
        r@ == counter_text(id, counter),
{
    let mut s = String::new();
    push_str(&mut s, "Thread [");
    push_decimal_right(&mut s, id, 0);
    push_str(&mut s, "]: ");
    push_decimal_right(&mut s, counter, 12);
    proof {
        assert(left_padded(decimal(id as nat), 0) == decimal(id as nat));
    }
    s
}

/// The line a counter thread shows when it reached the limit: the counter
/// line, followed by the elapsed milliseconds right-aligned in six columns and
/// in parentheses.
pub fn finished_line(id: usize, counter: usize, elapsed_ms: usize) -> (r: String)
    ensures
        r@ == counter_text(id, counter) + " ("@ + left_padded(decimal(elapsed_ms as nat), 6) + " ms)"@,
{
    let mut s = counter_line(id, counter);
    push_str(&mut s, " (");
    push_decimal_right(&mut s, elapsed_ms, 6);
    push_str(&mut s, " ms)");
    s
}

} // verus!
