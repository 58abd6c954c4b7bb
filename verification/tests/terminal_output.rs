use heineos::device::terminal::{DrawOp, Framebuffer, Terminal, BLACK, CHAR_HEIGHT, GREEN};
use heineos::shell::commands::general::clear;
use heineos::shell::commands::system::{framebuffer_info, FramebufferInfo};

fn terminal(width: usize, height: usize) -> Terminal {
    let mut t = Terminal::new(Framebuffer { width, height });
    assert_eq!(t.take_output(), vec![DrawOp::Clear]);
    t
}

fn blank(col: usize, row: usize) -> DrawOp {
    DrawOp::Char { c: ' ', x: col * 8, y: row * 16, fg: BLACK, bg: BLACK }
}

fn cursor(col: usize, row: usize) -> DrawOp {
    DrawOp::Char { c: ' ', x: col * 8, y: row * 16, fg: GREEN, bg: GREEN }
}

#[test]
fn size_follows_framebuffer() {
    let t = terminal(640, 480);
    assert_eq!(t.size(), (80, 30));
    assert_eq!(t.pos(), (0, 0));
    assert_eq!(framebuffer_info(&t), FramebufferInfo { width: 640, height: 480, columns: 80, rows: 30 });
    let odd = terminal(645, 490);
    assert_eq!(odd.size(), (80, 30));
}

#[test]
fn put_char_draws_and_advances() {
    let mut t = terminal(640, 480);
    t.put_char('a');
    assert_eq!(
        t.take_output(),
        vec![blank(0, 0), DrawOp::Char { c: 'a', x: 0, y: 0, fg: GREEN, bg: BLACK }, cursor(1, 0)]
    );
    assert_eq!(t.pos(), (1, 0));
    t.put_char('\n');
    assert_eq!(t.pos(), (0, 1));
    assert_eq!(t.take_output(), vec![blank(1, 0), cursor(0, 1)]);
    t.put_char_colored('z', 7, 9);
    assert_eq!(t.take_output()[1], DrawOp::Char { c: 'z', x: 0, y: 16, fg: 7, bg: 9 });
}

#[test]
fn lines_wrap_and_scroll() {
    let mut t = terminal(16, 32);
    t.write_str("abc");
    assert_eq!(t.pos(), (1, 1));
    t.write_str("d\ne");
    assert_eq!(t.pos(), (1, 1));
    let output = t.take_output();
    assert!(output.contains(&DrawOp::ScrollUp { pixels: CHAR_HEIGHT }));
}

#[test]
fn backspace_and_erase_move_back() {
    let mut t = terminal(32, 32);
    t.write_str("abcde");
    assert_eq!(t.pos(), (1, 1));
    t.backspace();
    assert_eq!(t.pos(), (0, 1));
    t.erase(2);
    assert_eq!(t.pos(), (2, 0));
    t.erase(10);
    assert_eq!(t.pos(), (0, 0));
    t.take_output();
    t.erase(0);
    assert!(t.take_output().is_empty());
}

#[test]
fn clear_resets_the_cursor() {
    let mut t = terminal(640, 480);
    t.write_str("hello\nworld");
    clear(&mut t);
    assert_eq!(t.pos(), (0, 0));
    assert!(t.take_output().contains(&DrawOp::Clear));
    t.set_pos(3, 2);
    assert_eq!(t.pos(), (3, 2));
}

#[test]
fn scrollback_view_snaps_to_bottom_on_output() {
    let mut t = terminal(64, 32);
    t.enable_scrollback();
    t.write_str("a\nb\nc");
    t.take_output();
    t.scroll_view_down(1);
    assert!(t.take_output().is_empty());
    t.scroll_view_up(5);
    assert_eq!(t.take_output().len(), 16);
    t.scroll_view_up(1);
    assert!(t.take_output().is_empty());
    t.put_char('d');
    assert!(t.take_output().len() > 16);
    t.scroll_view_down(1);
    assert!(t.take_output().is_empty());
}

#[test]
fn without_scrollback_the_view_does_not_move() {
    let mut t = terminal(64, 32);
    t.write_str("a\nb\nc");
    t.take_output();
    t.scroll_view_up(3);
    assert!(t.take_output().is_empty());
}
