//! The terminal: text output on a framebuffer, with a cursor, scrolling, and a
//! scrollback of the lines that scrolled off the top.
//!
//! The terminal keeps the text state and decides what has to be drawn. Every
//! operation appends the framebuffer operations it needs to the pending output,
//! which the caller takes with `take_output` and performs on the framebuffer.
use vstd::prelude::*;
use vstd::string::StrSliceExecFns;

verus! {

/// Width of a character cell in pixels.
pub const CHAR_WIDTH: usize = 8;
/// Height of a character cell in pixels.
pub const CHAR_HEIGHT: usize = 16;
/// The color black (ARGB).
pub const BLACK: u32 = 0x0000_0000;
/// The color green (ARGB).
pub const GREEN: u32 = 0x0000_ff00;
/// The color white (ARGB).
pub const WHITE: u32 = 0x00ff_ffff;
/// The color blue (ARGB).
pub const BLUE: u32 = 0x0000_00ff;
/// The color yellow (ARGB).
pub const YELLOW: u32 = 0x00ff_ff00;
/// The color gray (ARGB).
pub const GRAY: u32 = 0x0080_8080;
/// Default text foreground color.
pub const DEFAULT_FG_COLOR: u32 = GREEN;
/// Default text background color.
pub const DEFAULT_BG_COLOR: u32 = BLACK;
/// Number of lines kept after they scrolled off the top of the screen.
pub const SCROLLBACK_LINES: usize = 256;

/// The size of the framebuffer the terminal draws on, in pixels.
#[derive(Clone, Copy, Debug, PartialEq, Eq, Structural)]
pub struct Framebuffer {
    pub width: usize,
    pub height: usize,
}

/// A framebuffer operation requested by the terminal.
#[derive(Clone, Copy, Debug, PartialEq, Eq, Structural)]
pub enum DrawOp {
    /// Draw character `c` with its top-left corner at pixel (`x`, `y`).
    Char { c: char, x: usize, y: usize, fg: u32, bg: u32 },
    /// Move the whole framebuffer content up by the given number of pixel rows.
    ScrollUp { pixels: usize },
    /// Clear the whole framebuffer.
    Clear,
}

/// The stored text: the lines that scrolled off the top (oldest first), then the
/// lines of the screen. `history` lines have scrolled off; the viewport is moved
/// up from the newest output by `offset` lines.
pub struct ScrollbackView {
    pub lines: Seq<Seq<char>>,
    pub history: usize,
    pub offset: usize,
}

/// The observable state of a terminal.
pub struct TerminalView {
    pub framebuffer: Framebuffer,
    pub cols: usize,
    pub rows: usize,
    pub pos: (usize, usize),
    pub scrollback: Option<ScrollbackView>,
    pub output: Seq<DrawOp>,
}

/// `a` reduced into `0..n` for `a < 2n`.
pub open spec fn wrap(a: int, n: int) -> int {
    if a >= n {
        a - n
    } else {
        a
    }
}

/// A line of `cols` spaces.
pub open spec fn blank(cols: nat) -> Seq<char> {
    Seq::new(cols, |i: int| ' ')
}

/// The scrollback after character `c` was written at screen position `pos`.
pub open spec fn sb_write(s: ScrollbackView, pos: (usize, usize), c: char) -> ScrollbackView {
    let i = wrap(s.history + pos.1, s.lines.len() as int);
    if pos.0 < s.lines[i].len() {
        ScrollbackView { lines: s.lines.update(i, s.lines[i].update(pos.0 as int, c)), ..s }
    } else {
        s
    }
}

/// The scrollback after the screen scrolled up by one line: the top screen line
/// joins the history (the oldest one is dropped when the history is full) and a
/// blank line appears at the bottom.
pub open spec fn sb_scroll_up(s: ScrollbackView, rows: usize, cols: nat) -> ScrollbackView {
    if s.history < SCROLLBACK_LINES {
        ScrollbackView {
            lines: s.lines.update(s.history + rows, blank(cols)),
            history: (s.history + 1) as usize,
            offset: s.offset,
        }
    } else {
        ScrollbackView { lines: s.lines.drop_first().push(blank(cols)), ..s }
    }
}

/// The scrollback after `clear`: no history, the newest position, a blank screen.
pub open spec fn sb_clear(s: ScrollbackView, rows: usize, cols: nat) -> ScrollbackView {
    ScrollbackView {
        lines: Seq::new(s.lines.len(), |i: int| if i < rows { blank(cols) } else { s.lines[i] }),
        history: 0,
        offset: 0,
    }
}

/// The lines shown in the screen rows for the current viewport.
pub open spec fn visible_rows(s: ScrollbackView, rows: usize) -> Seq<Seq<char>> {
    Seq::new(rows as nat, |r: int| s.lines[s.history + r - s.offset])
}

/// Drawing one stored line into screen row `row`.
pub open spec fn row_ops(line: Seq<char>, row: int) -> Seq<DrawOp> {
    Seq::new(line.len(), |col: int| cell_op(line[col], col, row))
}

/// Drawing character `ch` in the default colors into cell (`col`, `row`).
pub open spec fn cell_op(ch: char, col: int, row: int) -> DrawOp {
    DrawOp::Char {
        c: ch,
        x: (col * CHAR_WIDTH) as usize,
        y: (row * CHAR_HEIGHT) as usize,
        fg: DEFAULT_FG_COLOR,
        bg: DEFAULT_BG_COLOR,
    }
}

/// Drawing the given lines into the screen rows from the top.
pub open spec fn render_rows(rs: Seq<Seq<char>>) -> Seq<DrawOp>
    decreases rs.len(),
{
    if rs.len() == 0 {
        Seq::empty()
    } else {
        render_rows(rs.drop_last()) + row_ops(rs.last(), rs.len() - 1)
    }
}

/// Drawing the cursor: a space in the foreground color.
pub open spec fn cursor_op(pos: (usize, usize)) -> DrawOp {
    DrawOp::Char {
        c: ' ',
        x: (pos.0 * CHAR_WIDTH) as usize,
        y: (pos.1 * CHAR_HEIGHT) as usize,
        fg: DEFAULT_FG_COLOR,
        bg: DEFAULT_FG_COLOR,
    }
}

/// Removing the cursor or a character: a space in the background color.
pub open spec fn blank_op(pos: (usize, usize)) -> DrawOp {
    DrawOp::Char {
        c: ' ',
        x: (pos.0 * CHAR_WIDTH) as usize,
        y: (pos.1 * CHAR_HEIGHT) as usize,
        fg: DEFAULT_BG_COLOR,
        bg: DEFAULT_BG_COLOR,
    }
}

/// The terminal with its viewport returned to the newest output: if the user had
/// scrolled up, the viewport is reset and redrawn.
pub open spec fn snap(v: TerminalView) -> TerminalView {
    match v.scrollback {
        Some(s) => if s.offset != 0 {
            let s0 = ScrollbackView { offset: 0, ..s };
            TerminalView {
                scrollback: Some(s0),
                output: v.output + render_rows(visible_rows(s0, v.rows)),
                ..v
            }
        } else {
            v
        },
        None => v,
    }
}

/// The terminal after drawing character `c` in the given colors and advancing the
/// cursor; a newline moves to the next line, and leaving the last line scrolls.
pub open spec fn put_char_model(v: TerminalView, c: char, fg: u32, bg: u32) -> TerminalView {
    let v1 = snap(v);
    let pos = v1.pos;
    let out1 = v1.output.push(blank_op(pos));
    let (pos2, out2, sb2) = if c == '\n' {
        ((0usize, (pos.1 + 1) as usize), out1, v1.scrollback)
    } else {
        let drawn = out1.push(
            DrawOp::Char {
                c: c,
                x: (pos.0 * CHAR_WIDTH) as usize,
                y: (pos.1 * CHAR_HEIGHT) as usize,
                fg: fg,
                bg: bg,
            },
        );
        let sb = match v1.scrollback {
            Some(s) => Some(sb_write(s, pos, c)),
            None => None,
        };
        if pos.0 + 1 >= v1.cols {
            ((0usize, (pos.1 + 1) as usize), drawn, sb)
        } else {
            (((pos.0 + 1) as usize, pos.1), drawn, sb)
        }
    };
    let (pos3, out3, sb3) = if pos2.1 >= v1.rows {
        (
            (pos2.0, if v1.rows >= 1 { (v1.rows - 1) as usize } else { 0usize }),
            out2.push(DrawOp::ScrollUp { pixels: CHAR_HEIGHT }),
            match sb2 {
                Some(s) => Some(sb_scroll_up(s, v1.rows, v1.cols as nat)),
                None => None,
            },
        )
    } else {
        (pos2, out2, sb2)
    };
    TerminalView { pos: pos3, scrollback: sb3, output: out3.push(cursor_op(pos3)), ..v1 }
}

/// The cursor position one character back: the previous column, the end of the
/// previous line, or unchanged at the top-left corner.
pub open spec fn previous_pos(pos: (usize, usize), cols: usize) -> (usize, usize) {
    if pos.0 > 0 {
        ((pos.0 - 1) as usize, pos.1)
    } else if pos.1 > 0 {
        (if cols >= 1 { (cols - 1) as usize } else { 0usize }, (pos.1 - 1) as usize)
    } else {
        pos
    }
}

/// One step of erasing: move back, blank the cell if the cursor moved, and
/// blank the cell in the scrollback.
pub open spec fn erase_step(v: TerminalView) -> TerminalView {
    let moved = v.pos.0 > 0 || v.pos.1 > 0;
    let p = previous_pos(v.pos, v.cols);
    TerminalView {
        pos: p,
        output: if moved { v.output.push(blank_op(p)) } else { v.output },
        scrollback: match v.scrollback {
            Some(s) => Some(sb_write(s, p, ' ')),
            None => None,
        },
        ..v
    }
}

/// `n` steps of erasing.
pub open spec fn erase_steps(v: TerminalView, n: nat) -> TerminalView
    decreases n,
{
    if n == 0 {
        v
    } else {
        erase_steps(erase_step(v), (n - 1) as nat)
    }
}

/// The terminal after erasing `count` characters before the cursor.
pub open spec fn erase_model(v: TerminalView, count: usize) -> TerminalView {
    if count == 0 {
        v
    } else {
        let v1 = snap(v);
        let v2 = TerminalView { output: v1.output.push(blank_op(v1.pos)), ..v1 };
        let v3 = erase_steps(v2, count as nat);
        TerminalView { output: v3.output.push(cursor_op(v3.pos)), ..v3 }
    }
}

/// The terminal after showing the viewport at `offset`: nothing changes if the
/// offset is already shown; otherwise the viewport is redrawn, with the cursor
/// only at the newest position.
pub open spec fn view_offset_model(v: TerminalView, offset: usize) -> TerminalView {
    match v.scrollback {
        Some(s) => if s.offset == offset {
            v
        } else {
            let s1 = ScrollbackView { offset: offset, ..s };
            let out = v.output + render_rows(visible_rows(s1, v.rows));
            TerminalView {
                scrollback: Some(s1),
                output: if offset == 0 { out.push(cursor_op(v.pos)) } else { out },
                ..v
            }
        },
        None => v,
    }
}

/// The stored text of a terminal: a ring of lines, the visible screen plus the
/// lines that scrolled off the top.
pub struct Scrollback {
    /// Ring buffer of stored lines, `SCROLLBACK_LINES + rows` long.
    lines: Vec<Vec<char>>,
    /// Index of the oldest stored line inside `lines`.
    start: usize,
    /// Number of lines that have already scrolled off the top of the screen.
    history_lines: usize,
    /// Number of lines visible on the screen.
    rows: usize,
    /// How many lines the viewport is scrolled up from the newest output.
    view_offset: usize,
}

impl Scrollback {
    /// The stored lines in order, oldest first.
    pub closed spec fn lines_view(&self) -> Seq<Seq<char>> {
        Seq::new(
            self.lines@.len(),
            |i: int| self.lines@[wrap(self.start + i, self.lines@.len() as int)]@,
        )
    }

    pub closed spec fn view(&self) -> ScrollbackView {
        ScrollbackView {
            lines: self.lines_view(),
            history: self.history_lines,
            offset: self.view_offset,
        }
    }

    pub closed spec fn rows_spec(&self) -> usize {
        self.rows
    }

    /// The ring holds the screen plus the history, every line `cols` long, and
    /// the history and viewport offset are in range.
    /// The length of the stored lines.
    pub closed spec fn cols_spec(&self) -> nat {
        self.lines@[0]@.len()
    }

    pub closed spec fn wf(&self) -> bool {
        &&& self.lines@.len() == SCROLLBACK_LINES + self.rows
        &&& self.start < self.lines@.len()
        &&& self.history_lines <= SCROLLBACK_LINES
        &&& self.view_offset <= self.history_lines
        &&& forall|i: int| 0 <= i < self.lines@.len() ==> (#[trigger] self.lines@[i])@.len() == self.lines@[0]@.len()
    }

    /// Create an empty scrollback for a terminal of the given size.
    pub fn new(cols: usize, rows: usize) -> (r: Scrollback)
        requires
            rows <= usize::MAX / 4,
        ensures
            r.wf(),
            r.cols_spec() == cols,
            r.rows_spec() == rows,
            r@.history == 0,
            r@.offset == 0,
            r@.lines == Seq::new((SCROLLBACK_LINES + rows) as nat, |i: int| blank(cols as nat)),
    {
        let total = SCROLLBACK_LINES + rows;
        let mut lines: Vec<Vec<char>> = Vec::new();
        while lines.len() < total
            invariant
                total == SCROLLBACK_LINES + rows,
                lines@.len() <= total,
                forall|i: int| 0 <= i < lines@.len() ==> (#[trigger] lines@[i])@ == blank(cols as nat),
            decreases total - lines@.len(),
        {
            let mut line: Vec<char> = Vec::new();
            while line.len() < cols
                invariant
                    line@.len() <= cols,
                    forall|i: int| 0 <= i < line@.len() ==> line@[i] == ' ',
                decreases cols - line@.len(),
            {
                line.push(' ');
            }
            assert(line@ =~= blank(cols as nat));
            lines.push(line);
        }
        let r = Scrollback { lines, start: 0, history_lines: 0, rows, view_offset: 0 };
        assert(r@.lines =~= Seq::new((SCROLLBACK_LINES + rows) as nat, |i: int| blank(cols as nat)));
        r
    }

    /// Map a line number, counted from the oldest stored line, to a ring index.
    fn ring_index(&self, line: usize) -> (r: usize)
        requires
            self.start < self.lines@.len(),
            line <= self.lines@.len(),
            self.lines@.len() <= usize::MAX / 2,
        ensures
            r == wrap(self.start + wrap(line as int, self.lines@.len() as int), self.lines@.len() as int),
            r < self.lines@.len(),
    {
        let n = self.lines.len();
        let s = self.start + line;
        if s >= n {
            s - n
        } else {
            s
        }
    }

    /// Remember a character drawn at screen position `pos`.
    fn write(&mut self, pos: (usize, usize), c: char)
        requires
            old(self).wf(),
            old(self).history_lines + pos.1 <= old(self).lines@.len(),
            old(self).lines@.len() <= usize::MAX / 2,
        ensures
            final(self).wf(),
            final(self).rows == old(self).rows,
            final(self).cols_spec() == old(self).cols_spec(),
            final(self)@ == sb_write(old(self)@, pos, c),
    {
        let index = self.ring_index(self.history_lines + pos.1);
        if pos.0 < self.lines[index].len() {
            let mut line: Vec<char> = Vec::new();
            std::mem::swap(&mut line, &mut self.lines[index]);
            line.set(pos.0, c);
            self.lines.set(index, line);
        }
        proof {
            let n = self.lines@.len() as int;
            let i = wrap(old(self).history_lines + pos.1, n);
            assert forall|j: int| 0 <= j < n && j != i implies #[trigger] wrap(self.start + j, n) != index by {}
            assert(self@.lines =~= sb_write(old(self)@, pos, c).lines);
        }
    }

    /// Record that the screen scrolled up by one line. No line is allocated or
    /// freed: once the history is full, the oldest line becomes the new bottom line.
    fn scroll_up(&mut self)
        requires
            old(self).wf(),
            old(self).lines@.len() <= usize::MAX / 2,
        ensures
            final(self).wf(),
            final(self).rows == old(self).rows,
            final(self).cols_spec() == old(self).cols_spec(),
            final(self)@ == sb_scroll_up(old(self)@, old(self).rows, old(self).cols_spec()),
    {
        let ghost cols = self.cols_spec();
        let ghost old_view = self.lines_view();
        if self.history_lines < SCROLLBACK_LINES {
            self.history_lines = self.history_lines + 1;
        } else {
            self.start = self.ring_index(1);
        }
        let ghost mid_view = self.lines_view();
        proof {
            let n = self.lines@.len() as int;
            if old(self).history_lines < SCROLLBACK_LINES {
                assert(mid_view =~= old_view);
            } else {
                assert forall|j: int| 0 <= j < n - 1 implies #[trigger] mid_view[j] == old_view[j + 1] by {}
            }
        }
        let bottom = self.ring_index(self.history_lines + self.rows - 1);
        let width = self.lines[bottom].len();
        let line = blank_line(width);
        self.lines.set(bottom, line);
        proof {
            let n = self.lines@.len() as int;
            let b = self.history_lines + self.rows - 1;
            assert(self.lines@[0]@.len() == cols);
            assert forall|j: int| 0 <= j < n && j != b implies #[trigger] wrap(self.start + j, n) != bottom by {}
            if old(self).history_lines < SCROLLBACK_LINES {
                assert(self.lines_view() =~= old_view.update(old(self).history_lines + old(self).rows, blank(cols)));
            } else {
                assert(self.lines_view() =~= old_view.drop_first().push(blank(cols)));
            }
        }
    }

    /// Forget all stored text and return to the newest position.
    fn clear(&mut self)
        requires
            old(self).wf(),
            old(self).lines@.len() <= usize::MAX / 2,
        ensures
            final(self).wf(),
            final(self).rows == old(self).rows,
            final(self).cols_spec() == old(self).cols_spec(),
            final(self)@ == sb_clear(old(self)@, old(self).rows, old(self).cols_spec()),
    {
        let ghost cols = self.cols_spec();
        let ghost old_view = self.lines_view();
        self.history_lines = 0;
        self.view_offset = 0;
        let mut row: usize = 0;
        while row < self.rows
            invariant
                self.wf(),
                self.lines@.len() <= usize::MAX / 2,
                self.rows == old(self).rows,
                self.start == old(self).start,
                self.lines@.len() == old(self).lines@.len(),
                self.history_lines == 0,
                self.view_offset == 0,
                self.cols_spec() == cols,
                row <= self.rows,
                forall|i: int| 0 <= i < self.lines@.len() ==> #[trigger] self.lines_view()[i] == if i
                    < row {
                    blank(cols)
                } else {
                    old_view[i]
                },
            decreases self.rows - row,
        {
            let index = self.ring_index(row);
            let width = self.lines[index].len();
            let line = blank_line(width);
            let ghost before = self.lines_view();
            self.lines.set(index, line);
            proof {
                let n = self.lines@.len() as int;
                assert(self.lines@[0]@.len() == cols);
                assert forall|j: int| 0 <= j < n && j != row implies #[trigger] wrap(self.start + j, n) != index by {}
                assert forall|i: int| 0 <= i < n implies #[trigger] self.lines_view()[i] == if i < row + 1 {
                    blank(cols)
                } else {
                    old_view[i]
                } by {
                    if i != row {
                        assert(self.lines_view()[i] == before[i]);
                    }
                }
            }
            row = row + 1;
        }
        assert(self@.lines =~= sb_clear(old(self)@, old(self).rows, cols).lines);
    }

    /// The largest offset the viewport can be moved up by.
    fn max_offset(&self) -> (r: usize)
        ensures
            r == self@.history,
    {
        self.history_lines
    }
}

/// A line of `n` spaces.
fn blank_line(n: usize) -> (r: Vec<char>)
    ensures
        r@ == blank(n as nat),
{
    let mut line: Vec<char> = Vec::new();
    while line.len() < n
        invariant
            line@.len() <= n,
            forall|i: int| 0 <= i < line@.len() ==> line@[i] == ' ',
        decreases n - line@.len(),
    {
        line.push(' ');
    }
    assert(line@ =~= blank(n as nat));
    line
}

/// The terminal after moving the cursor to (`col`, `row`), clamped to the screen.
pub open spec fn set_pos_model(v: TerminalView, col: usize, row: usize) -> TerminalView {
    let v1 = snap(v);
    let p = (
        if col < v1.cols { col } else if v1.cols >= 1 { (v1.cols - 1) as usize } else { 0usize },
        if row < v1.rows { row } else if v1.rows >= 1 { (v1.rows - 1) as usize } else { 0usize },
    );
    TerminalView { pos: p, output: v1.output.push(blank_op(v1.pos)).push(cursor_op(p)), ..v1 }
}

/// The terminal after `clear`: blank framebuffer, cursor at the top-left corner,
/// and the scrollback discarded.
pub open spec fn clear_model(v: TerminalView) -> TerminalView {
    TerminalView {
        pos: (0usize, 0usize),
        scrollback: match v.scrollback {
            Some(s) => Some(sb_clear(s, v.rows, v.cols as nat)),
            None => None,
        },
        output: v.output.push(DrawOp::Clear).push(cursor_op((0usize, 0usize))),
        ..v
    }
}

/// The terminal after writing the characters of `s` one by one.
pub open spec fn put_str_model(v: TerminalView, s: Seq<char>) -> TerminalView
    decreases s.len(),
{
    if s.len() == 0 {
        v
    } else {
        put_char_model(put_str_model(v, s.drop_last()), s.last(), DEFAULT_FG_COLOR, DEFAULT_BG_COLOR)
    }
}

/// A terminal for text output on a framebuffer, with a cursor and a scrollback.
pub struct Terminal {
    /// Number of columns (framebuffer width divided by the character width).
    cols: usize,
    /// Number of rows (framebuffer height divided by the character height).
    rows: usize,
    /// Cursor position (column, row) where the next character is printed.
    pos: (usize, usize),
    /// The size of the framebuffer used for rendering.
    framebuffer: Framebuffer,
    /// The stored text used for scrolling back; `None` until `enable_scrollback`,
    /// because the terminal exists before the kernel heap.
    scrollback: Option<Scrollback>,
    /// Framebuffer operations not yet taken by `take_output`.
    output: Vec<DrawOp>,
}

impl Terminal {
    pub closed spec fn view(&self) -> TerminalView {
        TerminalView {
            framebuffer: self.framebuffer,
            cols: self.cols,
            rows: self.rows,
            pos: self.pos,
            scrollback: match self.scrollback {
                Some(s) => Some(s@),
                None => None,
            },
            output: self.output@,
        }
    }

    /// The terminal size follows from the framebuffer, the cursor is on the
    /// screen, and the scrollback matches the screen size.
    pub closed spec fn wf(&self) -> bool {
        &&& self.cols == self.framebuffer.width / CHAR_WIDTH
        &&& self.rows == self.framebuffer.height / CHAR_HEIGHT
        &&& self.cols * CHAR_WIDTH <= self.framebuffer.width
        &&& self.rows * CHAR_HEIGHT <= self.framebuffer.height
        &&& (self.pos.0 < self.cols || self.pos.0 == 0)
        &&& (self.pos.1 < self.rows || self.pos.1 == 0)
        &&& match self.scrollback {
            Some(s) => s.wf() && s.rows == self.rows && s.cols_spec() == self.cols,
            None => true,
        }
    }

    /// Create a terminal for the given framebuffer; its size follows from the
    /// framebuffer size and the character size. The framebuffer is cleared.
    pub fn new(framebuffer: Framebuffer) -> (r: Terminal)
        ensures
            r.wf(),
            r@ == (TerminalView {
                framebuffer: framebuffer,
                cols: framebuffer.width / CHAR_WIDTH,
                rows: framebuffer.height / CHAR_HEIGHT,
                pos: (0usize, 0usize),
                scrollback: None,
                output: seq![DrawOp::Clear],
            }),
    {
        let cols = framebuffer.width / CHAR_WIDTH;
        let rows = framebuffer.height / CHAR_HEIGHT;
        let mut output: Vec<DrawOp> = Vec::new();
        output.push(DrawOp::Clear);
        assert(cols * CHAR_WIDTH <= framebuffer.width) by (nonlinear_arith)
            requires
                cols == framebuffer.width / CHAR_WIDTH,
        ;
        assert(rows * CHAR_HEIGHT <= framebuffer.height) by (nonlinear_arith)
            requires
                rows == framebuffer.height / CHAR_HEIGHT,
        ;
        let r = Terminal { cols, rows, pos: (0, 0), framebuffer, scrollback: None, output };
        assert(r@.output =~= seq![DrawOp::Clear]);
        r
    }

    /// Start recording output for the scrollback. Called once after the heap
    /// exists; output printed before is not recorded.
    pub fn enable_scrollback(&mut self)
        requires
            old(self).wf(),
        ensures
            final(self).wf(),
            old(self)@.scrollback is Some ==> final(self)@ == old(self)@,
            old(self)@.scrollback is None ==> final(self)@ == (TerminalView {
                scrollback: Some(
                    ScrollbackView {
                        lines: Seq::new(
                            (SCROLLBACK_LINES + old(self)@.rows) as nat,
                            |i: int| blank(old(self)@.cols as nat),
                        ),
                        history: 0,
                        offset: 0,
                    },
                ),
                ..old(self)@
            }),
    {
        if self.scrollback.is_none() {
            self.scrollback = Some(Scrollback::new(self.cols, self.rows));
        }
    }

    /// The framebuffer the terminal draws on.
    pub fn framebuffer(&self) -> (r: &Framebuffer)
        ensures
            *r == self@.framebuffer,
    {
        &self.framebuffer
    }

    /// The current cursor position (column, row).
    pub fn pos(&self) -> (r: (usize, usize))
        ensures
            r == self@.pos,
    {
        self.pos
    }

    /// The size of the terminal as (columns, rows).
    pub fn size(&self) -> (r: (usize, usize))
        ensures
            r == (self@.cols, self@.rows),
    {
        (self.cols, self.rows)
    }

    /// Hand out the framebuffer operations requested so far, in order.
    pub fn take_output(&mut self) -> (r: Vec<DrawOp>)
        requires
            old(self).wf(),
        ensures
            final(self).wf(),
            r@ == old(self)@.output,
            final(self)@ == (TerminalView { output: Seq::empty(), ..old(self)@ }),
    {
        let mut r: Vec<DrawOp> = Vec::new();
        std::mem::swap(&mut r, &mut self.output);
        assert(self@.output =~= Seq::<DrawOp>::empty());
        r
    }

    /// Append the operations that draw all lines of the viewport.
    fn render_viewport(sb: &Scrollback, output: &mut Vec<DrawOp>)
        requires
            sb.wf(),
            sb.lines@.len() <= usize::MAX / 2,
            sb.cols_spec() * CHAR_WIDTH <= usize::MAX,
            sb.rows * CHAR_HEIGHT <= usize::MAX,
        ensures
            final(output)@ == old(output)@ + render_rows(visible_rows(sb@, sb.rows)),
    {
        let ghost vis = visible_rows(sb@, sb.rows);
        let mut row: usize = 0;
        proof {
            assert(vis.take(0).len() == 0);
            assert(old(output)@ + render_rows(vis.take(0)) =~= old(output)@);
        }
        while row < sb.rows
            invariant
                sb.wf(),
                sb.lines@.len() <= usize::MAX / 2,
                sb.cols_spec() * CHAR_WIDTH <= usize::MAX,
                sb.rows * CHAR_HEIGHT <= usize::MAX,
                vis == visible_rows(sb@, sb.rows),
                row <= sb.rows,
                output@ == old(output)@ + render_rows(vis.take(row as int)),
            decreases sb.rows - row,
        {
            let index = sb.ring_index(sb.history_lines + row - sb.view_offset);
            let line = &sb.lines[index];
            let ghost base = output@;
            let y = row * CHAR_HEIGHT;
            let mut col: usize = 0;
            proof {
                let n = sb.lines@.len() as int;
                assert(sb.lines_view()[sb.history_lines + row - sb.view_offset] == sb.lines@[index as int]@);
                assert(line@ == vis[row as int]);
                assert(sb.lines@[index as int]@.len() == sb.lines@[0]@.len());
                assert(line@.len() == sb.cols_spec());
                assert(base + row_ops(vis[row as int], row as int).take(0) =~= base);
            }
            while col < line.len()
                invariant
                    row < sb.rows,
                    vis.len() == sb.rows,
                    line@ == vis[row as int],
                    line@.len() == sb.cols_spec(),
                    sb.cols_spec() * CHAR_WIDTH <= usize::MAX,
                    y == row * CHAR_HEIGHT,
                    col <= line@.len(),
                    output@ == base + row_ops(vis[row as int], row as int).take(col as int),
                decreases line@.len() - col,
            {
                let ghost before = output@;
                output.push(
                    DrawOp::Char {
                        c: line[col],
                        x: (col * CHAR_WIDTH) as usize,
                        y,
                        fg: DEFAULT_FG_COLOR,
                        bg: DEFAULT_BG_COLOR,
                    },
                );
                proof {
                    let ops = row_ops(vis[row as int], row as int);
                    assert(ops.len() == line@.len());
                    assert(ops[col as int] == DrawOp::Char {
                        c: line@[col as int],
                        x: (col * CHAR_WIDTH) as usize,
                        y,
                        fg: DEFAULT_FG_COLOR,
                        bg: DEFAULT_BG_COLOR,
                    });
                    assert(ops.take(col + 1) =~= ops.take(col as int).push(ops[col as int]));
                    assert(output@ =~= base + ops.take(col + 1));
                }
                col = col + 1;
            }
            proof {
                let t = vis.take(row + 1);
                assert(t.drop_last() =~= vis.take(row as int));
                assert(row_ops(vis[row as int], row as int).take(line@.len() as int) =~= row_ops(vis[row as int], row as int));
                assert(output@ =~= old(output)@ + render_rows(t));
            }
            row = row + 1;
        }
        proof {
            assert(vis.take(sb.rows as int) =~= vis);
        }
    }

    /// Return the viewport to the newest output if the user scrolled up, so new
    /// output is always shown.
    fn snap_to_bottom(&mut self)
        requires
            old(self).wf(),
        ensures
            final(self).wf(),
            final(self)@ == snap(old(self)@),
    {
        let mut taken: Option<Scrollback> = None;
        std::mem::swap(&mut taken, &mut self.scrollback);
        match taken {
            Some(mut sb) => {
                if sb.view_offset != 0 {
                    sb.view_offset = 0;
                    proof {
                        assert(sb.cols_spec() * CHAR_WIDTH <= usize::MAX) by (nonlinear_arith)
                            requires sb.cols_spec() == self.cols, self.cols * CHAR_WIDTH <= self.framebuffer.width;
                    }
                    Self::render_viewport(&sb, &mut self.output);
                }
                self.scrollback = Some(sb);
            },
            None => {},
        }
    }

    /// Append the operation that draws the cursor at the current position.
    fn draw_cursor(&mut self)
        requires
            old(self).wf(),
        ensures
            final(self).wf(),
            final(self)@ == (TerminalView { output: old(self)@.output.push(cursor_op(old(self)@.pos)), ..old(self)@ }),
    {
        let x = self.pos.0 * CHAR_WIDTH;
        let y = self.pos.1 * CHAR_HEIGHT;
        self.output.push(DrawOp::Char { c: ' ', x, y, fg: DEFAULT_FG_COLOR, bg: DEFAULT_FG_COLOR });
    }

    /// Append the operation that removes the cursor at the current position.
    fn clear_cursor(&mut self)
        requires
            old(self).wf(),
        ensures
            final(self).wf(),
            final(self)@ == (TerminalView { output: old(self)@.output.push(blank_op(old(self)@.pos)), ..old(self)@ }),
    {
        let x = self.pos.0 * CHAR_WIDTH;
        let y = self.pos.1 * CHAR_HEIGHT;
        self.output.push(DrawOp::Char { c: ' ', x, y, fg: DEFAULT_BG_COLOR, bg: DEFAULT_BG_COLOR });
    }

    /// Remember in the scrollback, if there is one, that `c` is shown at `pos`.
    fn record(&mut self, pos: (usize, usize), c: char)
        requires
            old(self).wf(),
            pos.0 < old(self).cols || pos.0 == 0,
            pos.1 < old(self).rows || pos.1 == 0,
        ensures
            final(self).wf(),
            final(self)@ == (TerminalView {
                scrollback: match old(self)@.scrollback {
                    Some(s) => Some(sb_write(s, pos, c)),
                    None => None,
                },
                ..old(self)@
            }),
    {
        let mut taken: Option<Scrollback> = None;
        std::mem::swap(&mut taken, &mut self.scrollback);
        match taken {
            Some(mut sb) => {
                sb.write(pos, c);
                self.scrollback = Some(sb);
            },
            None => {},
        }
    }

    /// Move the cursor to the given position, clamped to the terminal size.
    pub fn set_pos(&mut self, col: usize, row: usize)
        requires
            old(self).wf(),
        ensures
            final(self).wf(),
            final(self)@ == set_pos_model(old(self)@, col, row),
    {
        let new_pos = (
            if col < self.cols.saturating_sub(1) { col } else { self.cols.saturating_sub(1) },
            if row < self.rows.saturating_sub(1) { row } else { self.rows.saturating_sub(1) },
        );
        self.snap_to_bottom();
        self.clear_cursor();
        self.pos = new_pos;
        self.draw_cursor();
    }

    /// Clear the screen and move the cursor to the top-left corner. The
    /// scrollback is discarded as well, so `clear` removes all output.
    pub fn clear(&mut self)
        requires
            old(self).wf(),
        ensures
            final(self).wf(),
            final(self)@ == clear_model(old(self)@),
    {
        self.output.push(DrawOp::Clear);
        self.pos = (0, 0);
        let mut taken: Option<Scrollback> = None;
        std::mem::swap(&mut taken, &mut self.scrollback);
        match taken {
            Some(mut sb) => {
                sb.clear();
                self.scrollback = Some(sb);
            },
            None => {},
        }
        self.draw_cursor();
    }

    /// Show the viewport at the given offset and redraw the screen.
    fn set_view_offset(&mut self, offset: usize)
        requires
            old(self).wf(),
            old(self)@.scrollback matches Some(s) ==> offset <= s.history,
        ensures
            final(self).wf(),
            final(self)@ == view_offset_model(old(self)@, offset),
    {
        let mut taken: Option<Scrollback> = None;
        std::mem::swap(&mut taken, &mut self.scrollback);
        match taken {
            Some(mut sb) => {
                if sb.view_offset == offset {
                    self.scrollback = Some(sb);
                    return;
                }
                sb.view_offset = offset;
                proof {
                    assert(sb.cols_spec() * CHAR_WIDTH <= usize::MAX) by (nonlinear_arith)
                        requires sb.cols_spec() == self.cols, self.cols * CHAR_WIDTH <= self.framebuffer.width;
                }
                Self::render_viewport(&sb, &mut self.output);
                self.scrollback = Some(sb);
                if offset == 0 {
                    self.draw_cursor();
                }
            },
            None => {},
        }
    }

    /// Move the viewport towards older output by the given number of lines,
    /// stopping at the oldest stored line. Without a scrollback nothing happens.
    pub fn scroll_view_up(&mut self, lines: usize)
        requires
            old(self).wf(),
        ensures
            final(self).wf(),
            final(self)@ == match old(self)@.scrollback {
                Some(s) => view_offset_model(
                    old(self)@,
                    if s.offset + lines < s.history { (s.offset + lines) as usize } else { s.history },
                ),
                None => old(self)@,
            },
    {
        let target = match &self.scrollback {
            Some(sb) => {
                let wanted = sb.view_offset.saturating_add(lines);
                let most = sb.max_offset();
                if wanted < most { wanted } else { most }
            },
            None => {
                return;
            },
        };
        self.set_view_offset(target);
    }

    /// Move the viewport towards newer output by the given number of lines,
    /// stopping at the newest output.
    pub fn scroll_view_down(&mut self, lines: usize)
        requires
            old(self).wf(),
        ensures
            final(self).wf(),
            final(self)@ == match old(self)@.scrollback {
                Some(s) => view_offset_model(
                    old(self)@,
                    if s.offset >= lines { (s.offset - lines) as usize } else { 0usize },
                ),
                None => old(self)@,
            },
    {
        let target = match &self.scrollback {
            Some(sb) => sb.view_offset.saturating_sub(lines),
            None => {
                return;
            },
        };
        self.set_view_offset(target);
    }

    /// Move the cursor one position back and erase the character there; at the
    /// top-left corner nothing happens.
    fn erase_previous_char(&mut self)
        requires
            old(self).wf(),
        ensures
            final(self).wf(),
            final(self)@ == (TerminalView {
                scrollback: old(self)@.scrollback,
                ..erase_step(TerminalView { scrollback: None, ..old(self)@ })
            }),
    {
        if self.pos.0 > 0 {
            self.pos = (self.pos.0 - 1, self.pos.1);
        } else if self.pos.1 > 0 {
            self.pos = (self.cols.saturating_sub(1), self.pos.1 - 1);
        } else {
            return;
        }
        let x = self.pos.0 * CHAR_WIDTH;
        let y = self.pos.1 * CHAR_HEIGHT;
        self.output.push(DrawOp::Char { c: ' ', x, y, fg: DEFAULT_BG_COLOR, bg: DEFAULT_BG_COLOR });
    }

    /// Erase the last `count` characters before the cursor, stopping at the
    /// top-left corner. The caller decides how many characters may be erased.
    pub fn erase(&mut self, count: usize)
        requires
            old(self).wf(),
        ensures
            final(self).wf(),
            final(self)@ == erase_model(old(self)@, count),
    {
        if count == 0 {
            return;
        }
        self.snap_to_bottom();
        self.clear_cursor();
        let ghost start = self@;
        let mut i: usize = 0;
        while i < count
            invariant
                self.wf(),
                i <= count,
                erase_steps(start, count as nat) == erase_steps(self@, (count - i) as nat),
            decreases count - i,
        {
            let ghost cur = self@;
            self.erase_previous_char();
            let p = self.pos;
            self.record(p, ' ');
            proof {
                assert(self@ == erase_step(cur));
            }
            i = i + 1;
        }
        self.draw_cursor();
    }

    /// Erase the character before the cursor, wrapping to the end of the
    /// previous line; at the top-left corner nothing happens.
    pub fn backspace(&mut self)
        requires
            old(self).wf(),
        ensures
            final(self).wf(),
            final(self)@ == erase_model(old(self)@, 1),
    {
        self.erase(1);
    }

    /// Draw a character in the default colors at the cursor and advance it.
    pub fn put_char(&mut self, c: char)
        requires
            old(self).wf(),
        ensures
            final(self).wf(),
            final(self)@ == put_char_model(old(self)@, c, DEFAULT_FG_COLOR, DEFAULT_BG_COLOR),
    {
        self.put_char_colored(c, DEFAULT_FG_COLOR, DEFAULT_BG_COLOR);
    }

    /// Draw a colored character at the cursor and advance the cursor. A newline
    /// moves to the beginning of the next line; leaving the last line scrolls
    /// the screen up by one line, which the scrollback records.
    pub fn put_char_colored(&mut self, c: char, fg_color: u32, bg_color: u32)
        requires
            old(self).wf(),
        ensures
            final(self).wf(),
            final(self)@ == put_char_model(old(self)@, c, fg_color, bg_color),
    {
        self.snap_to_bottom();
        self.clear_cursor();
        if c == '\n' {
            self.pos = (0, self.pos.1 + 1);
        } else {
            let x = self.pos.0 * CHAR_WIDTH;
            let y = self.pos.1 * CHAR_HEIGHT;
            self.output.push(DrawOp::Char { c, x, y, fg: fg_color, bg: bg_color });
            let p = self.pos;
            self.record(p, c);
            if self.pos.0 + 1 >= self.cols {
                self.pos = (0, self.pos.1 + 1);
            } else {
                self.pos = (self.pos.0 + 1, self.pos.1);
            }
        }
        if self.pos.1 >= self.rows {
            self.output.push(DrawOp::ScrollUp { pixels: CHAR_HEIGHT });
            self.pos = (self.pos.0, self.rows.saturating_sub(1));
            let mut taken: Option<Scrollback> = None;
            std::mem::swap(&mut taken, &mut self.scrollback);
            match taken {
                Some(mut sb) => {
                    sb.scroll_up();
                    self.scrollback = Some(sb);
                },
                None => {},
            }
        }
        self.draw_cursor();
    }

    /// Write the characters of `s` with the default colors.
    pub fn write_str(&mut self, s: &str)
        requires
            old(self).wf(),
        ensures
            final(self).wf(),
            final(self)@ == put_str_model(old(self)@, s@),
    {
        let n = s.unicode_len();
        let mut i: usize = 0;
        proof {
            assert(s@.take(0).len() == 0);
        }
        while i < n
            invariant
                self.wf(),
                n == s@.len(),
                i <= n,
                self@ == put_str_model(old(self)@, s@.take(i as int)),
            decreases n - i,
        {
            let c = s.get_char(i);
            self.put_char(c);
            proof {
                assert(s@.take(i + 1).drop_last() =~= s@.take(i as int));
            }
            i = i + 1;
        }
        proof {
            assert(s@.take(n as int) =~= s@);
        }
    }
}

/// New output moves the view back to the newest output: after a character
/// is written, a terminal with a scrollback shows the bottom again.
pub proof fn lemma_output_snaps_to_bottom(v: TerminalView, c: char, fg: u32, bg: u32)
    requires
        v.scrollback is Some,
    ensures
        put_char_model(v, c, fg, bg).scrollback matches Some(s) && s.offset == 0,
{
}

/// Writing a non-empty string also leaves the view at the bottom.
pub proof fn lemma_write_snaps_to_bottom(v: TerminalView, s: Seq<char>)
    requires
        v.scrollback is Some,
        s.len() > 0,
    ensures
        put_str_model(v, s).scrollback matches Some(sb) && sb.offset == 0,
    decreases s.len(),
{
    if s.len() > 1 {
        lemma_write_snaps_to_bottom(v, s.drop_last());
        lemma_output_snaps_to_bottom(put_str_model(v, s.drop_last()), s.last(), DEFAULT_FG_COLOR, DEFAULT_BG_COLOR);
    } else {
        assert(s.drop_last().len() == 0);
        lemma_output_snaps_to_bottom(v, s.last(), DEFAULT_FG_COLOR, DEFAULT_BG_COLOR);
    }
}

/// The scrollback keeps at most `SCROLLBACK_LINES` lines of history: when
/// the screen scrolls with a full history, the oldest line is dropped.
pub proof fn lemma_scrollback_bounded(s: ScrollbackView, rows: usize, cols: nat)
    requires
        s.history <= SCROLLBACK_LINES,
    ensures
        sb_scroll_up(s, rows, cols).history <= SCROLLBACK_LINES,
        s.history == SCROLLBACK_LINES ==> sb_scroll_up(s, rows, cols).lines == s.lines.drop_first().push(blank(cols)),
{
}

/// The viewport at offset `k` shows the lines `k` positions older than the
/// viewport at offset 0: moving the view up by `d` lines moves every shown
/// line `d` rows down, and the top row at offset `k` shows the line that
/// scrolled off `k` lines ago, while offset 0 shows the screen.
pub proof fn lemma_viewport_moves_with_offset(s: ScrollbackView, rows: usize, a: usize, b: usize, r: int)
    requires
        a <= b,
        0 <= r,
        r + (b - a) < rows,
    ensures
        visible_rows(ScrollbackView { offset: b, ..s }, rows)[r + (b - a)] == visible_rows(
            ScrollbackView { offset: a, ..s },
            rows,
        )[r],
        visible_rows(ScrollbackView { offset: b, ..s }, rows)[0] == s.lines[s.history - b],
        visible_rows(ScrollbackView { offset: 0, ..s }, rows)[r] == s.lines[s.history + r],
{
}

} // verus!
