//! The line editor of the shell: typing, Backspace, history recall with the
//! arrow keys, Tab completion of command names and the Ctrl shortcuts.
//!
//! The editor decides; it does not draw. For every key event it updates the
//! line being edited and returns the terminal actions that show the change.
use vstd::prelude::*;
use crate::device::key::{KeyEvent, Scancode, ALT_LEFT, ALT_RIGHT, CTRL_LEFT, CTRL_RIGHT};
use crate::library::input::{is_ctrl, is_ctrl_c, is_ctrl_spec};
use crate::shell::history::History;
use crate::shell::registry::{
    command_names, completions, has_prefix, longest_common_prefix, name_of, shared_prefix_len,
    CommandInfo,
};
use crate::text::{contains_ws, is_control, is_control_char, is_ws, pop_char, push_char, ws_index};
use vstd::string::{StrSliceExecFns, StringExecFns};

verus! {

/// The prompt printed before every input line.
pub const PROMPT: &'static str = "heineos> ";

/// A keyboard shortcut of the line editor, recognized from the physical key and
/// the Ctrl modifier.
#[derive(PartialEq, Eq, Structural, Clone, Copy, Debug)]
pub enum Shortcut {
    /// Ctrl+L: clear the screen and redraw prompt and input.
    ClearScreen,
    /// Ctrl+U: discard the text of the current input line.
    ClearLine,
    /// Ctrl+Up / Ctrl+PageUp: show older terminal output.
    ScrollUp(usize),
    /// Ctrl+Down / Ctrl+PageDown: show newer terminal output.
    ScrollDown(usize),
}

/// The shortcut a key event stands for, if any; `page` is the page size in lines.
pub open spec fn shortcut_of(event: KeyEvent, page: usize) -> Option<Shortcut> {
    if is_ctrl_spec(event, Scancode::L) {
        Some(Shortcut::ClearScreen)
    } else if is_ctrl_spec(event, Scancode::U) {
        Some(Shortcut::ClearLine)
    } else if is_ctrl_spec(event, Scancode::Up) {
        Some(Shortcut::ScrollUp(1))
    } else if is_ctrl_spec(event, Scancode::Down) {
        Some(Shortcut::ScrollDown(1))
    } else if is_ctrl_spec(event, Scancode::PageUp) {
        Some(Shortcut::ScrollUp(page))
    } else if is_ctrl_spec(event, Scancode::PageDown) {
        Some(Shortcut::ScrollDown(page))
    } else {
        None
    }
}

impl Shortcut {
    /// Recognize a shortcut in a key event. Returns `None` for every event that is
    /// not one of the Ctrl combinations of the line editor, which is what keeps
    /// Ctrl+Up (scrolling) apart from a plain Up (history).
    pub fn from_event(event: &KeyEvent, page: usize) -> (r: Option<Shortcut>)
        ensures
            r == shortcut_of(*event, page),
    {
        if is_ctrl(event, Scancode::L) {
            Some(Shortcut::ClearScreen)
        } else if is_ctrl(event, Scancode::U) {
            Some(Shortcut::ClearLine)
        } else if is_ctrl(event, Scancode::Up) {
            Some(Shortcut::ScrollUp(1))
        } else if is_ctrl(event, Scancode::Down) {
            Some(Shortcut::ScrollDown(1))
        } else if is_ctrl(event, Scancode::PageUp) {
            Some(Shortcut::ScrollUp(page))
        } else if is_ctrl(event, Scancode::PageDown) {
            Some(Shortcut::ScrollDown(page))
        } else {
            None
        }
    }
}

/// Number of lines a page scroll moves the viewport: one line less than the
/// terminal height, so one line of context stays visible, and at least one.
pub fn page_size(rows: usize) -> (r: usize)
    ensures
        r == if rows >= 2 { rows - 1 } else { 1 },
{
    let lines = rows.saturating_sub(1);
    if lines > 1 {
        lines
    } else {
        1
    }
}

/// The result of reading an input line.
#[derive(Debug)]
pub enum ReadLineResult {
    /// The user confirmed the line with Enter.
    Line(String),
    /// The user cancelled the line with Ctrl+C.
    Interrupted,
}

/// What the terminal has to do to show a change of the input line.
#[derive(Debug)]
pub enum EditAction {
    /// Print the text at the cursor.
    Print(String),
    /// Erase the given number of characters before the cursor.
    Erase(usize),
    /// Clear the screen.
    ClearScreen,
    /// Move the viewport towards older output by the given number of lines.
    ScrollUp(usize),
    /// Move the viewport towards newer output by the given number of lines.
    ScrollDown(usize),
}

/// The meaning of an `EditAction`.
pub enum ActionView {
    Print(Seq<char>),
    Erase(usize),
    ClearScreen,
    ScrollUp(usize),
    ScrollDown(usize),
}

impl EditAction {
    pub open spec fn view(&self) -> ActionView {
        match self {
            EditAction::Print(s) => ActionView::Print(s@),
            EditAction::Erase(n) => ActionView::Erase(*n),
            EditAction::ClearScreen => ActionView::ClearScreen,
            EditAction::ScrollUp(n) => ActionView::ScrollUp(*n),
            EditAction::ScrollDown(n) => ActionView::ScrollDown(*n),
        }
    }
}

/// The meanings of a list of actions.
pub open spec fn actions_view(a: Seq<EditAction>) -> Seq<ActionView> {
    a.map_values(|x: EditAction| x@)
}

/// Whether the key produces text. Keys without a known scancode are excluded too,
/// because their ASCII code may be left over from the previous event.
pub open spec fn produces_text_spec(event: KeyEvent) -> bool {
    match event.scancode {
        Some(s) => !(s == Scancode::Escape || s == Scancode::Tab || s == Scancode::Up || s
            == Scancode::Down || s == Scancode::Left || s == Scancode::Right || s == Scancode::Home
            || s == Scancode::End || s == Scancode::PageUp || s == Scancode::PageDown || s
            == Scancode::Insert || s == Scancode::Del || s == Scancode::Meta || s == Scancode::F1
            || s == Scancode::F2 || s == Scancode::F3 || s == Scancode::F4 || s == Scancode::F5
            || s == Scancode::F6 || s == Scancode::F7 || s == Scancode::F8 || s == Scancode::F9
            || s == Scancode::F10 || s == Scancode::F11 || s == Scancode::F12),
        None => false,
    }
}

/// Check whether the given key event belongs to a key that produces text.
pub fn produces_text(event: &KeyEvent) -> (r: bool)
    ensures
        r == produces_text_spec(*event),
{
    match event.scancode() {
        Some(s) => !matches!(s,
            Scancode::Escape | Scancode::Tab | Scancode::Up | Scancode::Down | Scancode::Left
            | Scancode::Right | Scancode::Home | Scancode::End | Scancode::PageUp
            | Scancode::PageDown | Scancode::Insert | Scancode::Del | Scancode::Meta
            | Scancode::F1 | Scancode::F2 | Scancode::F3 | Scancode::F4 | Scancode::F5
            | Scancode::F6 | Scancode::F7 | Scancode::F8 | Scancode::F9 | Scancode::F10
            | Scancode::F11 | Scancode::F12),
        None => false,
    }
}

/// The character a key event inserts into the line, if any: text keys without
/// Ctrl or Alt whose ASCII character is not a control character.
pub open spec fn inserted_char(event: KeyEvent) -> Option<char> {
    if !produces_text_spec(event) || (event.modifiers & (CTRL_LEFT | CTRL_RIGHT | ALT_LEFT
        | ALT_RIGHT)) != 0 {
        None
    } else {
        match event.ascii {
            Some(c) => if is_control(c) {
                None
            } else {
                Some(c)
            },
            None => None,
        }
    }
}

/// The actions that replace the shown input `old` by `text`.
pub open spec fn replace_actions(old: Seq<char>, text: Seq<char>) -> Seq<ActionView> {
    if old.len() > 0 {
        seq![ActionView::Erase(old.len() as usize), ActionView::Print(text)]
    } else {
        seq![ActionView::Print(text)]
    }
}

/// The state of the line editor: the input, the history position counted from
/// the newest entry (`None` while editing a new line), and the line typed before
/// walking through the history.
pub type EditorView = (Seq<char>, Option<usize>, Seq<char>);

/// The listing printed for an ambiguous completion: an empty line, one line per
/// candidate, another empty line, and the prompt with the current input.
pub open spec fn candidate_listing(names: Seq<Seq<char>>, input: Seq<char>) -> Seq<ActionView> {
    seq![ActionView::Print("\n"@)] + names.map_values(
        |n: Seq<char>| ActionView::Print("  "@ + n + "\n"@),
    ) + seq![ActionView::Print("\n"@), ActionView::Print(PROMPT@ + input)]
}

/// The effect of a key press on the editor, for keys that neither confirm nor
/// cancel the line: the new state and the terminal actions.
pub open spec fn edit_step(
    s: EditorView,
    h: Seq<Seq<char>>,
    event: KeyEvent,
    page: usize,
) -> (EditorView, Seq<ActionView>) {
    let (buffer, position, draft) = s;
    match shortcut_of(event, page) {
        Some(Shortcut::ClearScreen) => (s, seq![ActionView::ClearScreen, ActionView::Print(PROMPT@ + buffer)]),
        Some(Shortcut::ClearLine) => ((Seq::empty(), None, Seq::empty()), replace_actions(buffer, Seq::empty())),
        Some(Shortcut::ScrollUp(n)) => (s, seq![ActionView::ScrollUp(n)]),
        Some(Shortcut::ScrollDown(n)) => (s, seq![ActionView::ScrollDown(n)]),
        None => {
            if event.scancode == Some(Scancode::Backspace) {
                if buffer.len() > 0 {
                    ((buffer.drop_last(), position, draft), seq![ActionView::Erase(1)])
                } else {
                    (s, Seq::empty())
                }
            } else if event.scancode == Some(Scancode::Up) {
                let next: int = match position {
                    None => 0,
                    Some(c) => c + 1,
                };
                if next < h.len() {
                    let entry = h[h.len() - 1 - next];
                    let d = if position is None { buffer } else { draft };
                    ((entry, Some(next as usize), d), replace_actions(buffer, entry))
                } else {
                    (s, Seq::empty())
                }
            } else if event.scancode == Some(Scancode::Down) {
                match position {
                    None => (s, Seq::empty()),
                    Some(c) => if c == 0 {
                        ((draft, None, Seq::empty()), replace_actions(buffer, draft))
                    } else if c - 1 < h.len() {
                        let entry = h[h.len() - 1 - (c - 1)];
                        ((entry, Some((c - 1) as usize), draft), replace_actions(buffer, entry))
                    } else {
                        (s, Seq::empty())
                    },
                }
            } else if event.scancode == Some(Scancode::Tab) {
                let names = command_names().filter(has_prefix(buffer));
                if buffer.len() == 0 || ws_index(buffer) < buffer.len() || names.len() == 0 {
                    (s, Seq::empty())
                } else if names.len() == 1 {
                    ((names[0], position, draft), replace_actions(buffer, names[0]))
                } else {
                    let prefix = names[0].subrange(0, shared_prefix_len(names[0], names.drop_first()) as int);
                    if prefix.len() > buffer.len() {
                        ((prefix, position, draft), candidate_listing(names, buffer) + replace_actions(buffer, prefix))
                    } else {
                        (s, candidate_listing(names, buffer))
                    }
                }
            } else {
                match inserted_char(event) {
                    Some(c) => ((buffer.push(c), position, draft), seq![ActionView::Print(seq![c])]),
                    None => (s, Seq::empty()),
                }
            }
        },
    }
}

/// The line that is currently being edited, together with its history position.
pub struct LineEditor<'a> {
    /// The text entered so far; it matches what is shown after the prompt.
    buffer: String,
    /// The history the arrow keys walk through.
    history: &'a History,
    /// The position in the history, counted from the newest entry; `None` while
    /// the user edits a new line.
    position: Option<usize>,
    /// The line typed before walking through the history, restored when the
    /// user returns to the newest position.
    draft: String,
}

impl<'a> LineEditor<'a> {
    /// The editing state: input, history position and draft.
    pub closed spec fn view(&self) -> EditorView {
        (self.buffer@, self.position, self.draft@)
    }

    /// The history the editor reads.
    pub closed spec fn history(&self) -> Seq<Seq<char>> {
        self.history@
    }

    /// The history position is `None` or names an entry of the history.
    pub closed spec fn inv(&self) -> bool {
        match self.position {
            None => true,
            Some(p) => p < self.history@.len(),
        }
    }

    /// Create an editor for an empty input line.
    pub fn new(history: &'a History) -> (r: LineEditor<'a>)
        ensures
            r@ == (Seq::<char>::empty(), None::<usize>, Seq::<char>::empty()),
            r.history() == history@,
            r.inv(),
    {
        LineEditor { buffer: String::new(), history, position: None, draft: String::new() }
    }

    /// Consume the editor and return the line that was entered.
    pub fn into_line(self) -> (r: String)
        ensures
            r@ == self@.0,
    {
        self.buffer
    }

    /// Handle one key event.
    ///
    /// Releases are ignored. Ctrl+C cancels the line and Enter confirms it; both
    /// end the line and return a result. Other Ctrl shortcuts are handled before
    /// the plain keys, so Ctrl+Up scrolls instead of recalling and Ctrl+L does
    /// not type an 'l'. The history is only read.
    pub fn handle_key(&mut self, event: &KeyEvent, page: usize) -> (r: (
        Vec<EditAction>,
        Option<ReadLineResult>,
    ))
        requires
            old(self).inv(),
        ensures
            final(self).inv(),
            final(self).history() == old(self).history(),
            !event.pressed ==> final(self)@ == old(self)@ && r.0@.len() == 0 && r.1 is None,
            event.pressed && is_ctrl_spec(*event, Scancode::C) ==> actions_view(r.0@) == seq![
                ActionView::Print("^C\n"@),
            ] && r.1 matches Some(ReadLineResult::Interrupted),
            event.pressed && !is_ctrl_spec(*event, Scancode::C) && shortcut_of(*event, page) is None
                && event.scancode == Some(Scancode::Enter) ==> actions_view(r.0@) == seq![
                ActionView::Print("\n"@),
            ] && (r.1 matches Some(ReadLineResult::Line(l)) && l@ == old(self)@.0),
            event.pressed && !is_ctrl_spec(*event, Scancode::C) && !(shortcut_of(*event, page) is None
                && event.scancode == Some(Scancode::Enter)) ==> r.1 is None && (final(self)@,
                actions_view(r.0@)) == edit_step(old(self)@, old(self).history(), *event, page),
    {
        let mut actions: Vec<EditAction> = Vec::new();
        if !event.pressed() {
            return (actions, None);
        }
        if is_ctrl_c(event) {
            actions.push(EditAction::Print(String::from_str("^C\n")));
            proof {
                assert(actions_view(actions@) =~= seq![ActionView::Print("^C\n"@)]);
            }
            return (actions, Some(ReadLineResult::Interrupted));
        }
        if let Some(shortcut) = Shortcut::from_event(event, page) {
            let actions = self.handle_shortcut(shortcut);
            return (actions, None);
        }
        match event.scancode() {
            Some(Scancode::Enter) => {
                actions.push(EditAction::Print(String::from_str("\n")));
                proof {
                    assert(actions_view(actions@) =~= seq![ActionView::Print("\n"@)]);
                }
                let line = self.buffer.clone();
                (actions, Some(ReadLineResult::Line(line)))
            },
            Some(Scancode::Backspace) => (self.erase_last_char(), None),
            Some(Scancode::Up) => (self.recall_older(), None),
            Some(Scancode::Down) => (self.recall_newer(), None),
            Some(Scancode::Tab) => (self.complete(), None),
            _ => (self.insert_printable(event), None),
        }
    }

    /// Execute a keyboard shortcut.
    fn handle_shortcut(&mut self, shortcut: Shortcut) -> (r: Vec<EditAction>)
        requires
            old(self).inv(),
        ensures
            final(self).inv(),
            final(self).history() == old(self).history(),
            shortcut == Shortcut::ClearScreen ==> final(self)@ == old(self)@ && actions_view(r@)
                == seq![ActionView::ClearScreen, ActionView::Print(PROMPT@ + old(self)@.0)],
            shortcut == Shortcut::ClearLine ==> final(self)@ == (Seq::<char>::empty(), None::<usize>, Seq::<char>::empty())
                && actions_view(r@) == replace_actions(old(self)@.0, Seq::empty()),
            shortcut matches Shortcut::ScrollUp(n) ==> final(self)@ == old(self)@ && actions_view(r@)
                == seq![ActionView::ScrollUp(n)],
            shortcut matches Shortcut::ScrollDown(n) ==> final(self)@ == old(self)@ && actions_view(r@)
                == seq![ActionView::ScrollDown(n)],
    {
        let mut actions: Vec<EditAction> = Vec::new();
        match shortcut {
            Shortcut::ClearScreen => {
                actions.push(EditAction::ClearScreen);
                let text = String::from_str(PROMPT).concat(self.buffer.as_str());
                actions.push(EditAction::Print(text));
                proof {
                    assert(text@ == PROMPT@ + old(self)@.0);
                    assert(actions_view(actions@) =~= seq![ActionView::ClearScreen, ActionView::Print(PROMPT@ + old(self)@.0)]);
                }
            },
            Shortcut::ClearLine => {
                proof {
                    reveal_strlit("");
                }
                actions = self.replace_line("");
                self.position = None;
                self.draft = String::new();
            },
            Shortcut::ScrollUp(lines) => {
                actions.push(EditAction::ScrollUp(lines));
                assert(actions_view(actions@) =~= seq![ActionView::ScrollUp(lines)]);
            },
            Shortcut::ScrollDown(lines) => {
                actions.push(EditAction::ScrollDown(lines));
                assert(actions_view(actions@) =~= seq![ActionView::ScrollDown(lines)]);
            },
        }
        actions
    }

    /// Remove the last character from the input; nothing happens on an empty
    /// input, which keeps Backspace from erasing the prompt.
    fn erase_last_char(&mut self) -> (r: Vec<EditAction>)
        requires
            old(self).inv(),
        ensures
            final(self).inv(),
            final(self).history() == old(self).history(),
            old(self)@.0.len() > 0 ==> final(self)@ == (old(self)@.0.drop_last(), old(self)@.1, old(self)@.2)
                && actions_view(r@) == seq![ActionView::Erase(1)],
            old(self)@.0.len() == 0 ==> final(self)@ == old(self)@ && r@.len() == 0,
    {
        let mut actions: Vec<EditAction> = Vec::new();
        if pop_char(&mut self.buffer).is_some() {
            actions.push(EditAction::Erase(1));
            proof {
                assert(actions_view(actions@) =~= seq![ActionView::Erase(1)]);
            }
        }
        actions
    }

    /// Append the character of a printable key event and echo it. Non-text keys,
    /// combinations with Ctrl or Alt, and control characters are ignored.
    fn insert_printable(&mut self, event: &KeyEvent) -> (r: Vec<EditAction>)
        requires
            old(self).inv(),
        ensures
            final(self).inv(),
            final(self).history() == old(self).history(),
            inserted_char(*event) matches Some(c) ==> final(self)@ == (old(self)@.0.push(c), old(self)@.1, old(self)@.2)
                && actions_view(r@) == seq![ActionView::Print(seq![c])],
            inserted_char(*event) is None ==> final(self)@ == old(self)@ && r@.len() == 0,
    {
        let mut actions: Vec<EditAction> = Vec::new();
        if !produces_text(event) || (event.modifiers() & (CTRL_LEFT | CTRL_RIGHT | ALT_LEFT
            | ALT_RIGHT)) != 0 {
            return actions;
        }
        let character = match event.ascii() {
            Some(c) => c,
            None => {
                return actions;
            },
        };
        if is_control_char(character) {
            return actions;
        }
        push_char(&mut self.buffer, character);
        let mut text = String::new();
        push_char(&mut text, character);
        actions.push(EditAction::Print(text));
        proof {
            assert(text@ =~= seq![character]);
            assert(actions_view(actions@) =~= seq![ActionView::Print(seq![character])]);
        }
        actions
    }

    /// Show the next older history entry (Up). At the oldest entry nothing
    /// happens; the line typed before the first Up is kept as the draft.
    fn recall_older(&mut self) -> (r: Vec<EditAction>)
        requires
            old(self).inv(),
        ensures
            final(self).inv(),
            final(self).history() == old(self).history(),
            ({
                let (b, p, d) = old(self)@;
                let h = old(self).history();
                let next: int = match p {
                    None => 0,
                    Some(c) => c + 1,
                };
                if next < h.len() {
                    let entry = h[h.len() - 1 - next];
                    final(self)@ == (entry, Some(next as usize), if p is None { b } else { d })
                        && actions_view(r@) == replace_actions(b, entry)
                } else {
                    final(self)@ == old(self)@ && r@.len() == 0
                }
            }),
    {
        let history = self.history;
        let _count = history.len();
        let next = match self.position {
            None => 0,
            Some(current) => current + 1,
        };
        let entry = match history.get(next) {
            Some(e) => e,
            None => {
                return Vec::new();
            },
        };
        if self.position.is_none() {
            self.draft = self.buffer.clone();
        }
        self.position = Some(next);
        self.replace_line(entry)
    }

    /// Show the next newer history entry (Down). After the newest entry, the line
    /// typed before walking through the history is restored.
    fn recall_newer(&mut self) -> (r: Vec<EditAction>)
        requires
            old(self).inv(),
        ensures
            final(self).inv(),
            final(self).history() == old(self).history(),
            ({
                let (b, p, d) = old(self)@;
                let h = old(self).history();
                match p {
                    None => final(self)@ == old(self)@ && r@.len() == 0,
                    Some(c) => if c == 0 {
                        final(self)@ == (d, None::<usize>, Seq::<char>::empty()) && actions_view(r@)
                            == replace_actions(b, d)
                    } else {
                        let entry = h[h.len() - 1 - (c - 1)];
                        final(self)@ == (entry, Some((c - 1) as usize), d) && actions_view(r@)
                            == replace_actions(b, entry)
                    },
                }
            }),
    {
        let history = self.history;
        match self.position {
            None => Vec::new(),
            Some(0) => {
                let mut draft = String::new();
                std::mem::swap(&mut draft, &mut self.draft);
                self.position = None;
                self.replace_line(draft.as_str())
            },
            Some(current) => {
                let newer = current - 1;
                match history.get(newer) {
                    Some(entry) => {
                        self.position = Some(newer);
                        self.replace_line(entry)
                    },
                    None => Vec::new(),
                }
            },
        }
    }

    /// Complete the command name being typed (Tab). Only the first word is
    /// completed, so a line that already holds whitespace is left alone.
    fn complete(&mut self) -> (r: Vec<EditAction>)
        requires
            old(self).inv(),
        ensures
            final(self).inv(),
            final(self).history() == old(self).history(),
            ({
                let (b, p, d) = old(self)@;
                let names = command_names().filter(has_prefix(b));
                if b.len() == 0 || ws_index(b) < b.len() || names.len() == 0 {
                    final(self)@ == old(self)@ && r@.len() == 0
                } else if names.len() == 1 {
                    final(self)@ == (names[0], p, d) && actions_view(r@) == replace_actions(b, names[0])
                } else {
                    let prefix = names[0].subrange(0, shared_prefix_len(names[0], names.drop_first()) as int);
                    if prefix.len() > b.len() {
                        final(self)@ == (prefix, p, d) && actions_view(r@) == candidate_listing(names, b)
                            + replace_actions(b, prefix)
                    } else {
                        final(self)@ == old(self)@ && actions_view(r@) == candidate_listing(names, b)
                    }
                }
            }),
    {
        if self.buffer.as_str().unicode_len() == 0 || contains_ws(self.buffer.as_str()) {
            return Vec::new();
        }
        let candidates = completions(self.buffer.as_str());
        if candidates.len() == 0 {
            Vec::new()
        } else if candidates.len() == 1 {
            self.replace_line(candidates[0].name)
        } else {
            self.complete_ambiguous(&candidates)
        }
    }

    /// Handle a Tab completion with several candidates: list them, print prompt and
    /// input again, and complete as far as all candidates agree.
    fn complete_ambiguous(&mut self, candidates: &Vec<CommandInfo>) -> (r: Vec<EditAction>)
        requires
            old(self).inv(),
            candidates@.len() > 1,
        ensures
            final(self).inv(),
            final(self).history() == old(self).history(),
            ({
                let (b, p, d) = old(self)@;
                let names = candidates@.map_values(|c: CommandInfo| name_of(c));
                let prefix = names[0].subrange(0, shared_prefix_len(names[0], names.drop_first()) as int);
                if prefix.len() > b.len() {
                    final(self)@ == (prefix, p, d) && actions_view(r@) == candidate_listing(names, b)
                        + replace_actions(b, prefix)
                } else {
                    final(self)@ == old(self)@ && actions_view(r@) == candidate_listing(names, b)
                }
            }),
    {
        let ghost names = candidates@.map_values(|c: CommandInfo| name_of(c));
        let prefix = longest_common_prefix(candidates.as_slice());
        proof {
            assert(candidates@.drop_first().map_values(|c: CommandInfo| name_of(c)) =~= names.drop_first());
        }
        let mut actions: Vec<EditAction> = Vec::new();
        actions.push(EditAction::Print(String::from_str("\n")));
        let mut i: usize = 0;
        while i < candidates.len()
            invariant
                i <= candidates@.len(),
                names == candidates@.map_values(|c: CommandInfo| name_of(c)),
                actions_view(actions@) == seq![ActionView::Print("\n"@)] + names.subrange(0, i as int).map_values(
                    |n: Seq<char>| ActionView::Print("  "@ + n + "\n"@),
                ),
            decreases candidates.len() - i,
        {
            let line = String::from_str("  ").concat(candidates[i].name).concat("\n");
            let ghost before = actions@;
            actions.push(EditAction::Print(line));
            proof {
                assert(names.subrange(0, i + 1) =~= names.subrange(0, i as int).push(names[i as int]));
                assert(actions_view(actions@) =~= actions_view(before).push(ActionView::Print("  "@ + names[i as int] + "\n"@)));
                assert(actions_view(actions@) =~= seq![ActionView::Print("\n"@)] + names.subrange(0, i + 1).map_values(
                    |n: Seq<char>| ActionView::Print("  "@ + n + "\n"@),
                ));
            }
            i = i + 1;
        }
        let ghost listed = actions@;
        actions.push(EditAction::Print(String::from_str("\n")));
        actions.push(EditAction::Print(String::from_str(PROMPT).concat(self.buffer.as_str())));
        proof {
            assert(names.subrange(0, names.len() as int) =~= names);
            assert(actions_view(actions@) =~= candidate_listing(names, self.buffer@));
        }
        if prefix.as_str().unicode_len() > self.buffer.as_str().unicode_len() {
            let ghost listing = actions@;
            let mut more = self.replace_line(prefix.as_str());
            let ghost added = more@;
            actions.append(&mut more);
            proof {
                assert(actions_view(actions@) =~= actions_view(listing) + actions_view(added));
            }
        }
        actions
    }

    /// Replace the input line by `text`: erase the shown characters, then print the
    /// new text.
    fn replace_line(&mut self, text: &str) -> (r: Vec<EditAction>)
        ensures
            final(self)@ == (text@, old(self)@.1, old(self)@.2),
            final(self).history() == old(self).history(),
            final(self).position == old(self).position,
            actions_view(r@) == replace_actions(old(self)@.0, text@),
    {
        let mut actions: Vec<EditAction> = Vec::new();
        let visible_characters = self.buffer.as_str().unicode_len();
        if visible_characters > 0 {
            actions.push(EditAction::Erase(visible_characters));
        }
        self.buffer = String::from_str(text);
        actions.push(EditAction::Print(String::from_str(text)));
        proof {
            assert(actions_view(actions@) =~= replace_actions(old(self)@.0, text@));
        }
        actions
    }
}

/// A press of the arrow key `key` without modifiers.
pub open spec fn arrow_press(key: Scancode) -> KeyEvent {
    KeyEvent { scancode: Some(key), ascii: None, pressed: true, modifiers: 0 }
}

/// The editor state after `n` presses of the same key.
pub open spec fn presses(s: EditorView, h: Seq<Seq<char>>, event: KeyEvent, page: usize, n: nat) -> EditorView
    decreases n,
{
    if n == 0 {
        s
    } else {
        edit_step(presses(s, h, event, page, (n - 1) as nat), h, event, page).0
    }
}

/// An arrow key without modifiers is no shortcut.
proof fn lemma_arrow_is_no_shortcut(key: Scancode, page: usize)
    ensures
        shortcut_of(arrow_press(key), page) is None,
{
    assert((0u8 & (CTRL_LEFT | CTRL_RIGHT)) == 0) by (bit_vector);
}

/// After `j` presses of Up on a new line, the editor shows the `j`-th newest
/// history entry and keeps the typed line as the draft.
proof fn lemma_up_presses(d: Seq<char>, x: Seq<char>, h: Seq<Seq<char>>, page: usize, j: nat)
    requires
        1 <= j <= h.len(),
        h.len() <= usize::MAX,
    ensures
        presses((d, None, x), h, arrow_press(Scancode::Up), page, j) == (h[h.len() - j], Some((j - 1) as usize), d),
    decreases j,
{
    let e = arrow_press(Scancode::Up);
    lemma_arrow_is_no_shortcut(Scancode::Up, page);
    assert(e.scancode != Some(Scancode::Backspace));
    let prev = presses((d, None, x), h, e, page, (j - 1) as nat);
    if j > 1 {
        lemma_up_presses(d, x, h, page, (j - 1) as nat);
        assert(prev == (h[h.len() - (j - 1)], Some((j - 2) as usize), d));
    } else {
        assert(prev == (d, None::<usize>, x));
    }
    assert(presses((d, None, x), h, e, page, j) == edit_step(prev, h, e, page).0);
}

/// Pressing Down `m` times from the `j`-th newest entry walks back towards the
/// draft.
proof fn lemma_down_presses(d: Seq<char>, h: Seq<Seq<char>>, page: usize, j: nat, m: nat)
    requires
        1 <= j <= h.len(),
        h.len() <= usize::MAX,
        m <= j,
    ensures
        presses((h[h.len() - j], Some((j - 1) as usize), d), h, arrow_press(Scancode::Down), page, m)
            == if m == j {
            (d, None::<usize>, Seq::<char>::empty())
        } else {
            (h[h.len() - (j - m)], Some((j - m - 1) as usize), d)
        },
    decreases m,
{
    let e = arrow_press(Scancode::Down);
    let start = (h[h.len() - j], Some((j - 1) as usize), d);
    lemma_arrow_is_no_shortcut(Scancode::Down, page);
    assert(e.scancode != Some(Scancode::Backspace));
    assert(e.scancode != Some(Scancode::Up));
    if m > 0 {
        lemma_down_presses(d, h, page, j, (m - 1) as nat);
        let prev = presses(start, h, e, page, (m - 1) as nat);
        assert(prev == (h[h.len() - (j - (m - 1))], Some((j - (m - 1) - 1) as usize), d));
        assert(presses(start, h, e, page, m) == edit_step(prev, h, e, page).0);
    }
}

/// Walking `k` entries back through the history with Up and then `k` steps
/// forward with Down shows each history entry on the way, newest first, and
/// ends with the line that was typed before the first Up, as a new line again.
pub proof fn lemma_history_walk_restores_draft(d: Seq<char>, x: Seq<char>, h: Seq<Seq<char>>, page: usize, k: nat)
    requires
        1 <= k <= h.len(),
        h.len() <= usize::MAX,
    ensures
        forall|j: nat| 1 <= j <= k ==> #[trigger] presses((d, None, x), h, arrow_press(Scancode::Up), page, j)
            == (h[h.len() - j], Some((j - 1) as usize), d),
        presses(
            presses((d, None, x), h, arrow_press(Scancode::Up), page, k),
            h,
            arrow_press(Scancode::Down),
            page,
            k,
        ) == (d, None::<usize>, Seq::<char>::empty()),
{
    assert forall|j: nat| 1 <= j <= k implies #[trigger] presses((d, None, x), h, arrow_press(Scancode::Up), page, j)
        == (h[h.len() - j], Some((j - 1) as usize), d) by {
        lemma_up_presses(d, x, h, page, j);
    }
    lemma_up_presses(d, x, h, page, k);
    lemma_down_presses(d, h, page, k, k);
}

/// Whether the event presses a key while either Ctrl key is held.
pub open spec fn ctrl_press(event: KeyEvent, key: Scancode) -> bool {
    event.pressed && event.scancode == Some(key) && (event.modifiers & (CTRL_LEFT | CTRL_RIGHT)) != 0
}

/// The Ctrl combinations of the line editor: Ctrl+L clears the screen, Ctrl+U
/// discards the input line, Ctrl+Up and Ctrl+Down scroll by one line, and
/// Ctrl+PageUp and Ctrl+PageDown by a page. Ctrl+U leaves the editor with an
/// empty new line, and erases what was shown of the old one.
pub proof fn lemma_ctrl_shortcuts(s: EditorView, h: Seq<Seq<char>>, event: KeyEvent, page: usize)
    ensures
        ctrl_press(event, Scancode::L) ==> shortcut_of(event, page) == Some(Shortcut::ClearScreen),
        ctrl_press(event, Scancode::U) ==> shortcut_of(event, page) == Some(Shortcut::ClearLine),
        ctrl_press(event, Scancode::Up) ==> shortcut_of(event, page) == Some(Shortcut::ScrollUp(1)),
        ctrl_press(event, Scancode::Down) ==> shortcut_of(event, page) == Some(Shortcut::ScrollDown(1)),
        ctrl_press(event, Scancode::PageUp) ==> shortcut_of(event, page) == Some(Shortcut::ScrollUp(page)),
        ctrl_press(event, Scancode::PageDown) ==> shortcut_of(event, page) == Some(Shortcut::ScrollDown(page)),
        ctrl_press(event, Scancode::U) ==> {
            &&& edit_step(s, h, event, page).0 == (Seq::<char>::empty(), None::<usize>, Seq::<char>::empty())
            &&& s.0.len() > 0 ==> edit_step(s, h, event, page).1 == seq![
                ActionView::Erase(s.0.len() as usize),
                ActionView::Print(Seq::empty()),
            ]
        },
        ctrl_press(event, Scancode::L) ==> edit_step(s, h, event, page) == (s, seq![
            ActionView::ClearScreen,
            ActionView::Print(PROMPT@ + s.0),
        ]),
{
}

/// Backspace removes the last character of the input and erases it on the
/// screen; on an empty input it does nothing. The history position and the
/// saved line stay.
pub proof fn lemma_backspace(s: EditorView, h: Seq<Seq<char>>, event: KeyEvent, page: usize)
    requires
        event.scancode == Some(Scancode::Backspace),
    ensures
        s.0.len() > 0 ==> edit_step(s, h, event, page) == ((s.0.drop_last(), s.1, s.2), seq![ActionView::Erase(1)]),
        s.0.len() == 0 ==> edit_step(s, h, event, page) == (s, Seq::<ActionView>::empty()),
{
}

} // verus!
