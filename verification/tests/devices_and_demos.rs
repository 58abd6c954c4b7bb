use heineos::demo::lesson5::{counter_line, counter_row, counter_step, finished_line, CounterStep, COUNTER_LIMIT};
use heineos::demo::lesson6::bitmap_demo;
use heineos::demo::menu::{entry_background, entry_y, image_position, is_escape, launch, menu_text, read_menu_key, Demo, MenuKey};
use heineos::demo::peanut_gb::{gb_error, gb_init_error, GbError, GbInitError, joypad_button, line_origin, palette_color, reuse_cart_ram, update_joypad, BUTTON_A, BUTTON_START};
use heineos::device::key::{KeyEvent, Scancode, ALT_LEFT, CTRL_LEFT};
use heineos::device::pit::{tick, time_display, wait_elapsed, PortWrite, Timer, TimerTick, NANOSECONDS_PER_TICK};
use heineos::device::terminal::{DrawOp, BLACK, BLUE, GRAY, GREEN, WHITE, YELLOW};
use heineos::library::input::{is_ctrl, is_ctrl_c};
use heineos::machine::{reboot, shutdown, PortWriteWord};

fn press(scancode: Scancode, modifiers: u8) -> KeyEvent {
    KeyEvent { scancode: Some(scancode), ascii: None, pressed: true, modifiers }
}

#[test]
fn ctrl_combinations() {
    assert!(is_ctrl_c(&press(Scancode::C, CTRL_LEFT)));
    assert!(!is_ctrl_c(&press(Scancode::C, 0)));
    assert!(!is_ctrl_c(&press(Scancode::C, ALT_LEFT)));
    assert!(is_ctrl(&press(Scancode::L, CTRL_LEFT), Scancode::L));
    let released = KeyEvent { pressed: false, ..press(Scancode::C, CTRL_LEFT) };
    assert!(!is_ctrl_c(&released));
}

#[test]
fn timer_counter_for_one_millisecond() {
    assert_eq!(NANOSECONDS_PER_TICK, 838);
    let mut timer = Timer::new();
    let writes = timer.set_interrupt_interval(1);
    // 1_000_000 / 838 = 1193 = 0x04a9
    assert_eq!(
        writes,
        vec![
            PortWrite { port: 0x43, value: 0x36 },
            PortWrite { port: 0x40, value: 0xa9 },
            PortWrite { port: 0x40, value: 0x04 },
        ]
    );
    let long = timer.set_interrupt_interval(1000);
    assert_eq!(long[1], PortWrite { port: 0x40, value: 0xff });
    assert_eq!(long[2], PortWrite { port: 0x40, value: 0xff });
    let none = timer.set_interrupt_interval(0);
    assert_eq!(none[1], PortWrite { port: 0x40, value: 1 });
}

#[test]
fn waiting_survives_wraparound() {
    assert!(!wait_elapsed(100, 149, 50));
    assert!(wait_elapsed(100, 150, 50));
    assert!(wait_elapsed(usize::MAX - 10, 40, 50));
    assert!(!wait_elapsed(usize::MAX - 10, 30, 50));
}

#[test]
fn timer_ticks() {
    assert_eq!(tick(249, 1), TimerTick { time: 250, redraw: true, reschedule: true });
    assert_eq!(tick(9, 1), TimerTick { time: 10, redraw: false, reschedule: true });
    assert_eq!(tick(10, 1), TimerTick { time: 11, redraw: false, reschedule: false });
    assert_eq!(tick(usize::MAX, 1), TimerTick { time: 0, redraw: true, reschedule: true });
}

#[test]
fn time_display_text() {
    let ops = time_display(1500, 640);
    let text: String = ops
        .iter()
        .map(|op| match op {
            DrawOp::Char { c, .. } => *c,
            _ => '?',
        })
        .collect();
    assert_eq!(text, "Time: 0000001500 ms /");
    assert_eq!(ops[0], DrawOp::Char { c: 'T', x: 640 - 168, y: 0, fg: WHITE, bg: BLUE });
    assert_eq!(ops[20], DrawOp::Char { c: '/', x: 640 - 8, y: 0, fg: YELLOW, bg: BLUE });
    assert!(time_display(250, 100).is_empty());
    let first = time_display(250, 640);
    assert_eq!(first[20], DrawOp::Char { c: '|', x: 632, y: 0, fg: YELLOW, bg: BLUE });
}

#[test]
fn menu_navigation_wraps() {
    assert_eq!(read_menu_key(0, &press(Scancode::Up, 0)), MenuKey::Select(11));
    assert_eq!(read_menu_key(11, &press(Scancode::Down, 0)), MenuKey::Select(0));
    assert_eq!(read_menu_key(3, &press(Scancode::Down, 0)), MenuKey::Select(4));
    assert_eq!(read_menu_key(3, &press(Scancode::Enter, 0)), MenuKey::Launch);
    assert_eq!(read_menu_key(3, &press(Scancode::C, CTRL_LEFT)), MenuKey::Exit);
    assert_eq!(read_menu_key(3, &press(Scancode::C, 0)), MenuKey::Ignore);
    let released = KeyEvent { pressed: false, ..press(Scancode::Down, 0) };
    assert_eq!(read_menu_key(3, &released), MenuKey::Ignore);
    assert!(is_escape(&press(Scancode::Escape, 0)));
    assert!(!is_escape(&press(Scancode::Enter, 0)));
}

#[test]
fn menu_entries_and_layout() {
    assert_eq!(launch(0), (Demo::Text, true));
    assert_eq!(launch(8), (Demo::Bitmap, true));
    assert_eq!(launch(9), (Demo::PeanutGb, false));
    assert_eq!(launch(11), (Demo::Rtl8139, false));
    assert_eq!(entry_background(2, 2), GRAY);
    assert_eq!(entry_background(1, 2), BLACK);
    assert_eq!(entry_y(0), 80);
    assert_eq!(image_position(800, 600, 200, 100), (300, 288));
    assert_eq!(image_position(800, 1000, 200, 100), (300, 450));
    assert_eq!(image_position(100, 100, 200, 200), (0, 288));
}

#[test]
fn bitmap_demo_positions() {
    assert_eq!(bitmap_demo(800, 600, 200, 100), ((700, 550), (300, 250)));
    assert_eq!(bitmap_demo(50, 40, 200, 100), ((0, 0), (0, 0)));
}

#[test]
fn game_boy_keys_and_screen() {
    assert_eq!(joypad_button(Scancode::X), Some(BUTTON_A));
    assert_eq!(joypad_button(Scancode::Enter), Some(BUTTON_START));
    assert_eq!(joypad_button(Scancode::Q), None);
    let pressed = update_joypad(0xff, &press(Scancode::X, 0));
    assert_eq!(pressed, 0xfe);
    let released = update_joypad(pressed, &KeyEvent { pressed: false, ..press(Scancode::X, 0) });
    assert_eq!(released, 0xff);
    assert_eq!(update_joypad(0x0f, &press(Scancode::Q, 0)), 0x0f);
    assert_eq!(palette_color(0xfc), 0xe0f8d0);
    assert_eq!(palette_color(3), 0x081820);
    assert_eq!(line_origin(640, 480, 0), Some((160, 96)));
    assert_eq!(line_origin(640, 480, 143), Some((160, 96 + 286)));
    assert_eq!(line_origin(640, 480, 144), None);
    assert_eq!(line_origin(300, 480, 0), None);
    assert!(reuse_cart_ram(true, 8, 8));
    assert!(!reuse_cart_ram(false, 8, 8));
    assert!(!reuse_cart_ram(true, 4, 8));
}

#[test]
fn emulator_error_codes() {
    assert_eq!(gb_error(1), Some(GbError::InvalidOpcode));
    assert_eq!(gb_error(3), Some(GbError::InvalidWrite));
    assert_eq!(gb_error(4), None);
    assert_eq!(gb_error(-1), None);
    assert_eq!(gb_init_error(0), Some(GbInitError::NoError));
    assert_eq!(gb_init_error(2), Some(GbInitError::InvalidChecksum));
    assert_eq!(gb_init_error(9), None);
}

#[test]
fn menu_text_highlights_the_selection() {
    let ops = menu_text(2);
    let title: String = ops[..10].iter().map(|op| match op { DrawOp::Char { c, .. } => *c, _ => '?' }).collect();
    assert_eq!(title, "Demo Menu:");
    assert_eq!(ops[10], DrawOp::Char { c: 'U', x: 0, y: 16, fg: GREEN, bg: BLACK });
    let entries_start = 10 + 22 + 25 + 28;
    assert_eq!(ops.len(), entries_start + 12 * 26);
    assert_eq!(ops[entries_start], DrawOp::Char { c: 'T', x: 0, y: 80, fg: GREEN, bg: BLACK });
    let third = entries_start + 2 * 26;
    assert_eq!(ops[third], DrawOp::Char { c: 'H', x: 0, y: 112, fg: GREEN, bg: GRAY });
    assert_eq!(ops[third + 1], DrawOp::Char { c: 'e', x: 8, y: 112, fg: GREEN, bg: GRAY });
}

#[test]
fn power_off_and_reset_requests() {
    let writes = shutdown();
    assert_eq!(
        writes,
        vec![
            PortWriteWord { port: 0x604, value: 0x2000 },
            PortWriteWord { port: 0xb004, value: 0x2000 },
            PortWriteWord { port: 0x4004, value: 0x2000 },
        ]
    );
    assert_eq!(reboot(), PortWrite { port: 0xcf9, value: 0x0e });
}

#[test]
fn counter_threads_count_yield_and_stop() {
    assert_eq!(counter_step(false, 5), CounterStep::Exit);
    assert_eq!(counter_step(true, COUNTER_LIMIT), CounterStep::ReportAndExit);
    assert_eq!(counter_step(true, 8), CounterStep::Continue { next: 9, yield_now: false });
    assert_eq!(counter_step(true, 9), CounterStep::Continue { next: 10, yield_now: true });
    assert_eq!(counter_row(0), 7);
    assert_eq!(counter_row(2), 9);
    assert_eq!(counter_line(3, 42), "Thread [3]:           42");
    assert_eq!(finished_line(3, 10000, 1234), "Thread [3]:        10000 (  1234 ms)");
}
