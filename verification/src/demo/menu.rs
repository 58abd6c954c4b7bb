//! The demo menu: moving the selection, launching the selected demo, leaving
//! the menu with Ctrl+C, and where the menu picture is drawn.
use vstd::prelude::*;
use crate::device::key::{KeyEvent, Scancode};
use crate::device::terminal::{DrawOp, BLACK, CHAR_HEIGHT, CHAR_WIDTH, GRAY, GREEN};
use vstd::string::StrSliceExecFns;
use crate::library::input::{is_ctrl_c, is_ctrl_spec};

verus! {

/// First terminal row used for the menu entries; the rows above hold the
/// title and the control hints.
pub const MENU_TOP: usize = 5;
/// Number of entries of the menu.
pub const MENU_ENTRY_COUNT: usize = 12;

/// The demos the menu offers, in menu order.
#[derive(Clone, Copy, Debug, PartialEq, Eq, Structural)]
pub enum Demo {
    Text,
    Keyboard,
    Heap,
    Speaker,
    Coroutine,
    CooperativeThreads,
    PreemptiveThreads,
    Filesystem,
    Bitmap,
    PeanutGb,
    PciScan,
    Rtl8139,
}

/// What a key event in the menu leads to.
#[derive(Clone, Copy, Debug, PartialEq, Eq, Structural)]
pub enum MenuKey {
    /// Nothing happens.
    Ignore,
    /// The selection moves to this entry and the menu is redrawn.
    Select(usize),
    /// The selected demo is started.
    Launch,
    /// The menu is left and the shell takes over again.
    Exit,
}

/// The entry above `selected`, wrapping around to the last entry.
pub open spec fn entry_above(selected: int) -> int {
    if selected == 0 {
        MENU_ENTRY_COUNT - 1
    } else {
        selected - 1
    }
}

/// What the key event `event` does in the menu with entry `selected` chosen.
/// Releases are ignored; Ctrl+C is tested before the plain keys, because it
/// reports the scancode of the C key.
pub open spec fn menu_key_spec(selected: int, event: KeyEvent) -> MenuKey {
    if !event.pressed {
        MenuKey::Ignore
    } else if is_ctrl_spec(event, Scancode::C) {
        MenuKey::Exit
    } else if event.scancode == Some(Scancode::Up) {
        MenuKey::Select(entry_above(selected) as usize)
    } else if event.scancode == Some(Scancode::Down) {
        MenuKey::Select(((selected + 1) % (MENU_ENTRY_COUNT as int)) as usize)
    } else if event.scancode == Some(Scancode::Enter) {
        MenuKey::Launch
    } else {
        MenuKey::Ignore
    }
}

/// What a key event does in the menu while entry `selected` is chosen.
pub fn read_menu_key(selected: usize, event: &KeyEvent) -> (r: MenuKey)
    requires
        selected < MENU_ENTRY_COUNT,
    ensures
        r == menu_key_spec(selected as int, *event),
        r matches MenuKey::Select(i) ==> i < MENU_ENTRY_COUNT,
{
    if !event.pressed() {
        return MenuKey::Ignore;
    }
    if is_ctrl_c(event) {
        return MenuKey::Exit;
    }
    match event.scancode() {
        Some(Scancode::Up) => MenuKey::Select(if selected == 0 { MENU_ENTRY_COUNT - 1 } else { selected - 1 }),
        Some(Scancode::Down) => MenuKey::Select((selected + 1) % MENU_ENTRY_COUNT),
        Some(Scancode::Enter) => MenuKey::Launch,
        _ => MenuKey::Ignore,
    }
}

/// Whether the event ends a running demo: a press of Escape.
pub fn is_escape(event: &KeyEvent) -> (r: bool)
    ensures
        r == (event.pressed && event.scancode == Some(Scancode::Escape)),
{
    event.pressed() && event.scancode() == Some(Scancode::Escape)
}

/// The demo behind menu entry `selected`, and whether the menu waits for
/// Escape after it returned (the demos that only draw once).
pub fn launch(selected: usize) -> (r: (Demo, bool))
    requires
        selected < MENU_ENTRY_COUNT,
    ensures
        r.1 == (selected == 0 || selected == 7 || selected == 8),
        selected == 0 ==> r.0 == Demo::Text,
        selected == 1 ==> r.0 == Demo::Keyboard,
        selected == 2 ==> r.0 == Demo::Heap,
        selected == 3 ==> r.0 == Demo::Speaker,
        selected == 4 ==> r.0 == Demo::Coroutine,
        selected == 5 ==> r.0 == Demo::CooperativeThreads,
        selected == 6 ==> r.0 == Demo::PreemptiveThreads,
        selected == 7 ==> r.0 == Demo::Filesystem,
        selected == 8 ==> r.0 == Demo::Bitmap,
        selected == 9 ==> r.0 == Demo::PeanutGb,
        selected == 10 ==> r.0 == Demo::PciScan,
        selected == 11 ==> r.0 == Demo::Rtl8139,
{
    if selected == 0 {
        (Demo::Text, true)
    } else if selected == 1 {
        (Demo::Keyboard, false)
    } else if selected == 2 {
        (Demo::Heap, false)
    } else if selected == 3 {
        (Demo::Speaker, false)
    } else if selected == 4 {
        (Demo::Coroutine, false)
    } else if selected == 5 {
        (Demo::CooperativeThreads, false)
    } else if selected == 6 {
        (Demo::PreemptiveThreads, false)
    } else if selected == 7 {
        (Demo::Filesystem, true)
    } else if selected == 8 {
        (Demo::Bitmap, true)
    } else if selected == 9 {
        (Demo::PeanutGb, false)
    } else if selected == 10 {
        (Demo::PciScan, false)
    } else {
        (Demo::Rtl8139, false)
    }
}

/// The background color of menu entry `index`: gray for the selected one.
pub fn entry_background(index: usize, selected: usize) -> (r: u32)
    ensures
        r == if index == selected { GRAY } else { BLACK },
{
    if index == selected {
        GRAY
    } else {
        BLACK
    }
}

/// The pixel row of menu entry `index`.
pub fn entry_y(index: usize) -> (r: usize)
    requires
        index < MENU_ENTRY_COUNT,
    ensures
        r == (MENU_TOP + index) * CHAR_HEIGHT,
{
    (MENU_TOP + index) * CHAR_HEIGHT
}

/// Where the menu picture goes on a `width` x `height` framebuffer: centered
/// horizontally, and centered vertically but never above the row below the
/// last menu entry.
pub fn image_position(width: usize, height: usize, image_width: usize, image_height: usize) -> (r: (usize, usize))
    ensures
        r.0 == (if width >= image_width { (width - image_width) / 2 } else { 0 }),
        r.1 == ({
            let centered = if height >= image_height { (height - image_height) / 2 } else { 0 };
            let bottom = (MENU_TOP + MENU_ENTRY_COUNT + 1) * CHAR_HEIGHT;
            if centered > bottom { centered } else { bottom }
        }),
{
    let x = width.saturating_sub(image_width) / 2;
    let menu_bottom = (MENU_TOP + MENU_ENTRY_COUNT + 1) * CHAR_HEIGHT;
    let centered_y = height.saturating_sub(image_height) / 2;
    let y = if centered_y > menu_bottom { centered_y } else { menu_bottom };
    (x, y)
}

/// The texts of the menu entries, in menu order.
pub open spec fn menu_entries() -> Seq<Seq<char>> {
    seq![
        "Text Demo                 "@,
        "Keyboard Demo             "@,
        "Heap Demo                 "@,
        "PC Speaker Demo           "@,
        "Coroutine Demo            "@,
        "Cooperative Thread Demo   "@,
        "Preemptive Thread Demo    "@,
        "Filesystem Demo           "@,
        "Bitmap Demo               "@,
        "Peanut-GB Demo            "@,
        "PCI Bus Scan              "@,
        "RTL8139 Demo              "@
    ]
}

/// The control hints shown below the menu title.
pub open spec fn menu_hints() -> Seq<Seq<char>> {
    seq![
        "Use Up/Down and Enter."@,
        "Esc exits a running demo."@,
        "Ctrl+C returns to the shell."@
    ]
}

/// The text of menu entry `index`.
pub fn menu_entry(index: usize) -> (r: &'static str)
    requires
        index < MENU_ENTRY_COUNT,
    ensures
        r@ == menu_entries()[index as int],
{
    if index == 0 {
        "Text Demo                 "
    } else if index == 1 {
        "Keyboard Demo             "
    } else if index == 2 {
        "Heap Demo                 "
    } else if index == 3 {
        "PC Speaker Demo           "
    } else if index == 4 {
        "Coroutine Demo            "
    } else if index == 5 {
        "Cooperative Thread Demo   "
    } else if index == 6 {
        "Preemptive Thread Demo    "
    } else if index == 7 {
        "Filesystem Demo           "
    } else if index == 8 {
        "Bitmap Demo               "
    } else if index == 9 {
        "Peanut-GB Demo            "
    } else if index == 10 {
        "PCI Bus Scan              "
    } else {
        "RTL8139 Demo              "
    }
}

/// The control hint in row `index` below the title.
pub fn menu_hint(index: usize) -> (r: &'static str)
    requires
        index < 3,
    ensures
        r@ == menu_hints()[index as int],
{
    if index == 0 {
        "Use Up/Down and Enter."
    } else if index == 1 {
        "Esc exits a running demo."
    } else {
        "Ctrl+C returns to the shell."
    }
}

/// Drawing `c` at pixel (`x`, `y`) in the given colors.
pub open spec fn char_op(c: char, x: int, y: int, fg: u32, bg: u32) -> DrawOp {
    DrawOp::Char { c: c, x: x as usize, y: y as usize, fg: fg, bg: bg }
}

/// Drawing the text `s` with its first character at pixel (`x`, `y`).
pub open spec fn text_ops(s: Seq<char>, x: int, y: int, fg: u32, bg: u32) -> Seq<DrawOp> {
    Seq::new(s.len(), |i: int| char_op(s[i], x + i * CHAR_WIDTH, y, fg, bg))
}

/// Append the drawing of `s` at pixel (`x`, `y`).
fn push_text(ops: &mut Vec<DrawOp>, s: &str, x: usize, y: usize, fg: u32, bg: u32)
    requires
        x + s@.len() * CHAR_WIDTH <= usize::MAX,
    ensures
        final(ops)@ == old(ops)@ + text_ops(s@, x as int, y as int, fg, bg),
{
    let n = s.unicode_len();
    let ghost start = ops@;
    let mut i: usize = 0;
    while i < n
        invariant
            n == s@.len(),
            i <= n,
            x + n * CHAR_WIDTH <= usize::MAX,
            ops@ == start + text_ops(s@, x as int, y as int, fg, bg).take(i as int),
        decreases n - i,
    {
        let op = DrawOp::Char { c: s.get_char(i), x: x + i * CHAR_WIDTH, y, fg, bg };
        ops.push(op);
        proof {
            assert(text_ops(s@, x as int, y as int, fg, bg)[i as int] == op);
            assert(text_ops(s@, x as int, y as int, fg, bg).take(i + 1) =~= text_ops(s@, x as int, y as int, fg, bg).take(
                i as int,
            ).push(op));
        }
        i = i + 1;
    }
    proof {
        assert(text_ops(s@, x as int, y as int, fg, bg).take(n as int) =~= text_ops(s@, x as int, y as int, fg, bg));
    }
}

/// The drawing of the menu entries from `from` on, with entry `selected` highlighted.
pub open spec fn entry_ops(from: nat, selected: int) -> Seq<DrawOp>
    decreases MENU_ENTRY_COUNT - from,
{
    if from >= MENU_ENTRY_COUNT {
        Seq::empty()
    } else {
        text_ops(
            menu_entries()[from as int],
            0,
            (MENU_TOP + from) * CHAR_HEIGHT,
            GREEN,
            if from == selected { GRAY } else { BLACK },
        ) + entry_ops(from + 1, selected)
    }
}

/// The text of the demo menu: the title, the control hints below it, and
/// the entries, the selected one on a gray background; green text.
pub open spec fn menu_text_ops(selected: int) -> Seq<DrawOp> {
    text_ops("Demo Menu:"@, 0, 0, GREEN, BLACK) + text_ops(menu_hints()[0], 0, CHAR_HEIGHT as int, GREEN, BLACK)
        + text_ops(menu_hints()[1], 0, 2 * CHAR_HEIGHT, GREEN, BLACK) + text_ops(
        menu_hints()[2],
        0,
        3 * CHAR_HEIGHT,
        GREEN,
        BLACK,
    ) + entry_ops(0, selected)
}

/// What to draw for the text of the demo menu with entry `selected` chosen;
/// the picture is placed by `image_position`.
pub fn menu_text(selected: usize) -> (r: Vec<DrawOp>)
    ensures
        r@ == menu_text_ops(selected as int),
{
    let mut ops: Vec<DrawOp> = Vec::new();
    proof {
        reveal_strlit("Demo Menu:");
        assert(menu_entries().len() == MENU_ENTRY_COUNT);
    }
    push_text(&mut ops, "Demo Menu:", 0, 0, GREEN, BLACK);
    let mut h: usize = 0;
    let ghost title = ops@;
    while h < 3
        invariant
            h <= 3,
            title == text_ops("Demo Menu:"@, 0, 0, GREEN, BLACK),
            ops@ == title + hint_ops(h as nat),
        decreases 3 - h,
    {
        let hint = menu_hint(h);
        proof {
            assert(hint@.len() <= 30) by {
                reveal_strlit("Use Up/Down and Enter.");
                reveal_strlit("Esc exits a running demo.");
                reveal_strlit("Ctrl+C returns to the shell.");
            }
        }
        push_text(&mut ops, hint, 0, (h + 1) * CHAR_HEIGHT, GREEN, BLACK);
        proof {
            assert(hint_ops((h + 1) as nat) =~= hint_ops(h as nat) + text_ops(menu_hints()[h as int], 0, (h + 1) * CHAR_HEIGHT, GREEN, BLACK));
        }
        h = h + 1;
    }
    let ghost head = ops@;
    let mut i: usize = 0;
    while i < MENU_ENTRY_COUNT
        invariant
            i <= MENU_ENTRY_COUNT,
            ops@ + entry_ops(i as nat, selected as int) == head + entry_ops(0, selected as int),
        decreases MENU_ENTRY_COUNT - i,
    {
        let entry = menu_entry(i);
        proof {
            assert(entry@.len() == 26) by {
                reveal_strlit("Text Demo                 ");
                reveal_strlit("Keyboard Demo             ");
                reveal_strlit("Heap Demo                 ");
                reveal_strlit("PC Speaker Demo           ");
                reveal_strlit("Coroutine Demo            ");
                reveal_strlit("Cooperative Thread Demo   ");
                reveal_strlit("Preemptive Thread Demo    ");
                reveal_strlit("Filesystem Demo           ");
                reveal_strlit("Bitmap Demo               ");
                reveal_strlit("Peanut-GB Demo            ");
                reveal_strlit("PCI Bus Scan              ");
                reveal_strlit("RTL8139 Demo              ");
            }
        }
        let background = entry_background(i, selected);
        let ghost before = ops@;
        push_text(&mut ops, entry, 0, (MENU_TOP + i) * CHAR_HEIGHT, GREEN, background);
        proof {
            assert(before + entry_ops(i as nat, selected as int) =~= ops@ + entry_ops((i + 1) as nat, selected as int));
        }
        i = i + 1;
    }
    proof {
        assert(entry_ops(MENU_ENTRY_COUNT as nat, selected as int) =~= Seq::<DrawOp>::empty());
        assert(hint_ops(1) =~= text_ops(menu_hints()[0], 0, CHAR_HEIGHT as int, GREEN, BLACK));
        assert(hint_ops(2) =~= hint_ops(1) + text_ops(menu_hints()[1], 0, 2 * CHAR_HEIGHT, GREEN, BLACK));
        assert(hint_ops(3) =~= hint_ops(2) + text_ops(menu_hints()[2], 0, 3 * CHAR_HEIGHT, GREEN, BLACK));
        assert(ops@ =~= menu_text_ops(selected as int));
    }
    ops
}

/// The drawing of the first `n` control hints, one per row below the title.
pub open spec fn hint_ops(n: nat) -> Seq<DrawOp>
    decreases n,
{
    if n == 0 {
        Seq::empty()
    } else {
        hint_ops((n - 1) as nat) + text_ops(menu_hints()[n - 1], 0, n * CHAR_HEIGHT, GREEN, BLACK)
    }
}

} // verus!
