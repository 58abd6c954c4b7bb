//! The programmable interval timer: the counter that sets its interrupt rate,
//! what each timer interrupt decides, and the time display it draws in the
//! upper-right corner of the screen.
use vstd::prelude::*;
use crate::device::terminal::{DrawOp, BLUE, CHAR_WIDTH, WHITE, YELLOW};
use crate::text::digit_char;

verus! {

/// Frequency of the timer in Hz.
pub const TIMER_FREQUENCY: usize = 1193182;
/// Nanoseconds that pass per timer tick.
pub const NANOSECONDS_PER_TICK: usize = 1_000_000_000 / TIMER_FREQUENCY;
/// The interval at which the timer generates interrupts, in milliseconds.
pub const TIMER_INTERRUPT_INTERVAL_MS: usize = 1;
/// The time display is redrawn every this many milliseconds.
pub const SPINNER_INTERVAL_MS: usize = 250;
/// The scheduler is asked to switch threads every this many milliseconds.
pub const SCHEDULER_INTERVAL_MS: usize = 10;
/// Number of digits of the displayed time.
pub const TIME_DIGITS: usize = 10;
/// Number of characters of the time display.
pub const STATUS_CHARS: usize = 21;
/// I/O port of the timer's control register.
pub const CONTROL_PORT: u16 = 0x43;
/// I/O port of the data register of counter 0.
pub const DATA_PORT: u16 = 0x40;
/// Control byte: counter 0, low byte followed by high byte, mode 3, binary counter.
pub const COUNTER0_MODE3: u8 = 0x36;

/// The timer's I/O ports.
pub struct Timer {
    control_port: u16,
    data_port0: u16,
}

/// A byte to write to an I/O port.
#[derive(Clone, Copy, Debug, PartialEq, Eq, Structural)]
pub struct PortWrite {
    pub port: u16,
    pub value: u8,
}

/// The counter value for interrupts every `interval_ms` milliseconds: the
/// number of timer ticks in the interval, clamped to `1..=u16::MAX`.
pub open spec fn interval_counter(interval_ms: nat) -> int {
    let ticks = (interval_ms * 1_000_000) / (NANOSECONDS_PER_TICK as nat);
    if ticks < 1 {
        1
    } else if ticks > 0xffff {
        0xffff
    } else {
        ticks as int
    }
}

/// The writes that program counter 0 with `counter` in mode 3: the mode byte
/// to the control port, then the counter's low and high byte to the data port.
pub open spec fn program_counter(control: u16, data: u16, counter: int) -> Seq<PortWrite> {
    seq![port_write(control, COUNTER0_MODE3 as int), port_write(data, counter % 256), port_write(data, counter / 256)]
}

/// Writing `value` to `port`.
pub open spec fn port_write(port: u16, value: int) -> PortWrite {
    PortWrite { port: port, value: value as u8 }
}

impl Timer {
    /// The timer at its standard ports.
    pub fn new() -> (r: Timer)
        ensures
            r.control_port_spec() == CONTROL_PORT,
            r.data_port_spec() == DATA_PORT,
    {
        Timer { control_port: CONTROL_PORT, data_port0: DATA_PORT }
    }

    pub closed spec fn control_port_spec(&self) -> u16 {
        self.control_port
    }

    pub closed spec fn data_port_spec(&self) -> u16 {
        self.data_port0
    }

    /// The port writes that program counter 0 to interrupt every `interval_ms`
    /// milliseconds: the mode byte, then the counter's low and high byte.
    pub fn set_interrupt_interval(&mut self, interval_ms: usize) -> (r: Vec<PortWrite>)
        requires
            interval_ms * 1_000_000 <= usize::MAX,
        ensures
            final(self).control_port_spec() == old(self).control_port_spec(),
            final(self).data_port_spec() == old(self).data_port_spec(),
            r@ == program_counter(old(self).control_port_spec(), old(self).data_port_spec(), interval_counter(interval_ms as nat)),
    {
        let ticks = (interval_ms * 1_000_000) / NANOSECONDS_PER_TICK;
        let counter: u16 = if ticks < 1 {
            1
        } else if ticks > 0xffff {
            0xffff
        } else {
            ticks as u16
        };
        let mut r: Vec<PortWrite> = Vec::new();
        r.push(PortWrite { port: self.control_port, value: COUNTER0_MODE3 });
        r.push(PortWrite { port: self.data_port0, value: (counter % 256) as u8 });
        r.push(PortWrite { port: self.data_port0, value: (counter / 256) as u8 });
        proof {
            assert(r@ =~= program_counter(old(self).control_port_spec(), old(self).data_port_spec(), interval_counter(interval_ms as nat)));
        }
        r
    }
}

/// Whether a wait of `ms` milliseconds that started at `start` is over at
/// `now`; the clock may have wrapped around in between.
pub fn wait_elapsed(start: usize, now: usize, ms: usize) -> (r: bool)
    ensures
        r == (now.wrapping_sub(start) >= ms),
{
    now.wrapping_sub(start) >= ms
}

/// What a timer interrupt decides: the new system time, whether the time
/// display is redrawn, and whether the scheduler switches threads.
#[derive(Clone, Copy, Debug, PartialEq, Eq, Structural)]
pub struct TimerTick {
    pub time: usize,
    pub redraw: bool,
    pub reschedule: bool,
}

/// Advance the system time by one interrupt interval. The display is redrawn
/// every `SPINNER_INTERVAL_MS` and threads are switched every
/// `SCHEDULER_INTERVAL_MS` milliseconds of the new time.
pub fn tick(system_time: usize, interval_ms: usize) -> (r: TimerTick)
    ensures
        r.time == system_time.wrapping_add(interval_ms),
        r.redraw == (r.time % SPINNER_INTERVAL_MS == 0),
        r.reschedule == (r.time % SCHEDULER_INTERVAL_MS == 0),
{
    let time = system_time.wrapping_add(interval_ms);
    TimerTick { time, redraw: time % SPINNER_INTERVAL_MS == 0, reschedule: time % SCHEDULER_INTERVAL_MS == 0 }
}

/// `10^k`.
pub open spec fn pow10(k: nat) -> nat
    decreases k,
{
    if k == 0 {
        1
    } else {
        10 * pow10((k - 1) as nat)
    }
}

/// Powers of ten are positive.
proof fn lemma_pow10_positive(k: nat)
    ensures
        pow10(k) >= 1,
    decreases k,
{
    if k > 0 {
        lemma_pow10_positive((k - 1) as nat);
    }
}

/// The spinner character for step `i` of its animation.
pub open spec fn spinner_char(i: int) -> char {
    if i % 4 == 0 {
        '|'
    } else if i % 4 == 1 {
        '/'
    } else if i % 4 == 2 {
        '-'
    } else {
        '\\'
    }
}

/// The text of the time display: `Time: `, the time in milliseconds as ten
/// digits, ` ms `, and the spinner, which advances every `SPINNER_INTERVAL_MS`.
pub open spec fn status_text(system_time: nat) -> Seq<char> {
    seq!['T', 'i', 'm', 'e', ':', ' '] + Seq::new(
        10,
        |i: int| digit_char(((system_time / pow10((9 - i) as nat)) % 10) as int),
    ) + seq![' ', 'm', 's', ' '] + seq![spinner_char(system_time / 250 - 1)]
}

/// The drawing of the time display: one character per cell along the top
/// row, ending at the right edge of a framebuffer `width` pixels wide; white
/// on blue, the spinner yellow on blue.
pub open spec fn status_ops(system_time: nat, width: nat) -> Seq<DrawOp> {
    let text = status_text(system_time);
    let x0 = width - STATUS_CHARS * CHAR_WIDTH;
    Seq::new(STATUS_CHARS as nat, |i: int| status_op(text[i], x0 + i * CHAR_WIDTH, i == STATUS_CHARS - 1))
}

/// Drawing character `c` of the time display at pixel column `x` of the top
/// row: white on blue, or yellow on blue for the spinner.
pub open spec fn status_op(c: char, x: int, spinner: bool) -> DrawOp {
    DrawOp::Char { c: c, x: x as usize, y: 0, fg: if spinner { YELLOW } else { WHITE }, bg: BLUE }
}

/// The spinner character for step `i`.
fn spinner(i: usize) -> (c: char)
    ensures
        c == spinner_char(i as int),
{
    let k = i % 4;
    if k == 0 {
        '|'
    } else if k == 1 {
        '/'
    } else if k == 2 {
        '-'
    } else {
        '\\'
    }
}

/// What to draw for the time display at `system_time` on a framebuffer
/// `width` pixels wide; nothing if the display does not fit.
pub fn time_display(system_time: usize, width: usize) -> (r: Vec<DrawOp>)
    requires
        system_time >= SPINNER_INTERVAL_MS,
    ensures
        STATUS_CHARS * CHAR_WIDTH > width ==> r@.len() == 0,
        STATUS_CHARS * CHAR_WIDTH <= width ==> r@ == status_ops(system_time as nat, width as nat),
{
    let mut r: Vec<DrawOp> = Vec::new();
    let status_width = STATUS_CHARS * CHAR_WIDTH;
    if status_width > width {
        return r;
    }
    let x0 = width - status_width;
    let ghost text = status_text(system_time as nat);
    let mut text_chars: Vec<char> = Vec::new();
    text_chars.push('T');
    text_chars.push('i');
    text_chars.push('m');
    text_chars.push('e');
    text_chars.push(':');
    text_chars.push(' ');
    let mut divisor: usize = 1_000_000_000;
    let mut i: usize = 0;
    proof {
        lemma_pow10_positive(9);
        reveal_with_fuel(pow10, 10);
        assert(pow10(9) == 1_000_000_000);
    }
    while i < TIME_DIGITS
        invariant
            i <= TIME_DIGITS,
            text_chars@.len() == 6 + i,
            divisor == pow10((9 - i) as nat) || i == TIME_DIGITS,
            i < TIME_DIGITS ==> divisor == pow10((9 - i) as nat) && divisor > 0,
            forall|j: int| 0 <= j < 6 + i ==> text_chars@[j] == text[j],
            text == status_text(system_time as nat),
        decreases TIME_DIGITS - i,
    {
        proof {
            assert(text[6 + i] == digit_char((((system_time as nat) / pow10((9 - i) as nat)) % 10) as int));
        }
        text_chars.push(crate::text::digit((system_time / divisor) % 10));
        proof {
            if i < 9 {
                assert(pow10((9 - i) as nat) == 10 * pow10((8 - i) as nat));
                lemma_pow10_positive((8 - i) as nat);
            }
        }
        divisor = divisor / 10;
        i = i + 1;
    }
    text_chars.push(' ');
    text_chars.push('m');
    text_chars.push('s');
    text_chars.push(' ');
    text_chars.push(spinner(system_time / SPINNER_INTERVAL_MS - 1));
    assert(text_chars@ =~= text);
    let mut k: usize = 0;
    while k < STATUS_CHARS
        invariant
            k <= STATUS_CHARS,
            text_chars@ == text,
            text == status_text(system_time as nat),
            x0 == width - STATUS_CHARS * CHAR_WIDTH,
            STATUS_CHARS * CHAR_WIDTH <= width,
            r@ == status_ops(system_time as nat, width as nat).take(k as int),
        decreases STATUS_CHARS - k,
    {
        let fg = if k == STATUS_CHARS - 1 { YELLOW } else { WHITE };
        let op = DrawOp::Char { c: text_chars[k], x: x0 + k * CHAR_WIDTH, y: 0, fg, bg: BLUE };
        proof {
            assert(status_ops(system_time as nat, width as nat)[k as int] == op);
        }
        r.push(op);
        proof {
            assert(r@ =~= status_ops(system_time as nat, width as nat).take(k + 1));
        }
        k = k + 1;
    }
    assert(r@ =~= status_ops(system_time as nat, width as nat));
    r
}

} // verus!
