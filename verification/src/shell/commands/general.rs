//! The commands of the shell itself: `help`, `clear` and `about`.
use vstd::prelude::*;
use crate::device::terminal::{clear_model, Terminal};
use crate::shell::parser::{command_name, split_command};
use crate::shell::registry::{
    command_names, command_table, commands, entry_texts, find, full_row, full_table, shortcut_table, shortcuts,
    CommandInfo, ShortcutInfo,
};
use crate::text::{
    decimal, left_padded, padded, push_char, push_decimal_right, push_padded, push_str, str_equal, trim, trim_str,
};
use vstd::string::StringExecFns;
use vstd::string::StrSliceExecFns;

verus! {

/// Column width used to align the descriptions in the `help` overview.
pub const USAGE_WIDTH: usize = 18;

/// What `help` shows.
pub enum HelpRequest<'a> {
    /// The overview of all commands and shortcuts.
    Overview,
    /// The detailed help of one command.
    Command(CommandInfo),
    /// No command of that name exists.
    NoHelp(&'a str),
}

/// The command `help` is asked about: the first word of its argument, if any.
pub open spec fn help_topic(argument: Seq<char>) -> Seq<char> {
    command_name(trim(argument))
}

/// Whether `r` is what `help` shows for `argument`: the overview for a blank
/// argument, else the table entry of the command named by the first word, or
/// that word if no command has that name.
pub open spec fn help_answer(r: HelpRequest<'_>, argument: Seq<char>) -> bool {
    if trim(argument).len() == 0 {
        r is Overview
    } else if command_names().contains(help_topic(argument)) {
        r matches HelpRequest::Command(c) && c.name@ == help_topic(argument) && exists|i: int|
            0 <= i < command_table().len() && #[trigger] command_table()[i] == entry_texts(c)
                && full_table()[i] == full_row(c)
    } else {
        r matches HelpRequest::NoHelp(n) && n@ == help_topic(argument)
    }
}

/// What `help` shows for its argument: the overview for an empty argument,
/// else the help of the command named by the first word; further words are
/// ignored.
pub fn help(argument: &str) -> (r: HelpRequest<'_>)
    ensures
        help_answer(r, argument@),
{
    let t = trim_str(argument);
    if t.unicode_len() == 0 {
        return HelpRequest::Overview;
    }
    let (name, _) = split_command(t);
    match find(name) {
        Some(c) => HelpRequest::Command(c),
        None => HelpRequest::NoHelp(name),
    }
}

/// Clear the terminal.
pub fn clear(terminal: &mut Terminal)
    requires
        old(terminal).wf(),
    ensures
        final(terminal).wf(),
        final(terminal)@ == clear_model(old(terminal)@),
{
    terminal.clear();
}

/// A line of the help overview: the usage, aligned, and the description.
pub open spec fn usage_line(usage: Seq<char>, description: Seq<char>) -> Seq<char> {
    seq![' ', ' '] + padded(usage, USAGE_WIDTH as nat) + seq![' '] + description
}

/// The overview lines of the commands `t`, following a command of category
/// `category`: a blank line and a heading start every new category.
pub open spec fn command_lines(t: Seq<(Seq<char>, Seq<char>, Seq<char>, Seq<char>)>, category: Seq<char>) -> Seq<Seq<char>>
    decreases t.len(),
{
    if t.len() == 0 {
        Seq::empty()
    } else {
        let e = t[0];
        let heading = if e.1 != category {
            seq![Seq::<char>::empty(), e.1.push(':')]
        } else {
            Seq::empty()
        };
        heading + seq![usage_line(e.2, e.3)] + command_lines(t.drop_first(), e.1)
    }
}

/// The lines of the help overview: all commands grouped by category, then
/// the keyboard shortcuts and a hint on `help <command>`.
pub open spec fn overview_text() -> Seq<Seq<char>> {
    seq![Seq::<char>::empty(), "Available commands:"@] + command_lines(command_table(), Seq::empty()) + seq![
        Seq::<char>::empty(),
        "Keyboard shortcuts:"@,
    ] + shortcut_table().map_values(|e: (Seq<char>, Seq<char>)| usage_line(e.0, e.1)) + seq![
        Seq::<char>::empty(),
        "Type 'help <command>' for more information about a single command."@,
        Seq::<char>::empty(),
    ]
}

/// A line of the help overview for `usage` and `description`.
fn overview_line(usage: &str, description: &str) -> (r: String)
    ensures
        r@ == usage_line(usage@, description@),
{
    let mut line = String::new();
    push_char(&mut line, ' ');
    push_char(&mut line, ' ');
    push_padded(&mut line, usage, USAGE_WIDTH);
    push_char(&mut line, ' ');
    push_str(&mut line, description);
    proof {
        assert(line@ =~= usage_line(usage@, description@));
    }
    line
}

/// The lines `help` prints without an argument, generated from the command
/// and shortcut tables so that they always match what the shell supports.
pub fn overview_lines() -> (r: Vec<String>)
    ensures
        r@.map_values(|l: String| l@) == overview_text(),
{
    let mut lines: Vec<String> = Vec::new();
    lines.push(String::new());
    lines.push(String::from_str("Available commands:"));
    let table = commands();
    let ghost t = command_table();
    let mut category: &str = "";
    let ghost head = lines@.map_values(|l: String| l@);
    proof {
        reveal_strlit("");
        assert(category@ =~= Seq::<char>::empty());
        assert(t.skip(0) =~= t);
    }
    let mut i: usize = 0;
    while i < table.len()
        invariant
            t == command_table(),
            table@.map_values(|c: CommandInfo| entry_texts(c)) == t,
            i <= table@.len(),
            i == 0 ==> category@ == Seq::<char>::empty(),
            i > 0 ==> category@ == t[i - 1].1,
            lines@.map_values(|l: String| l@) + command_lines(t.skip(i as int), category@) == head + command_lines(t, Seq::empty()),
        decreases table@.len() - i,
    {
        let entry = table[i];
        let ghost before = lines@.map_values(|l: String| l@);
        proof {
            assert(t[i as int] == entry_texts(entry));
            assert(t.skip(i as int)[0] == t[i as int]);
            assert(t.skip(i as int).drop_first() =~= t.skip(i + 1));
        }
        if !str_equal(entry.category, category) {
            lines.push(String::new());
            let mut heading = String::from_str(entry.category);
            push_char(&mut heading, ':');
            lines.push(heading);
            category = entry.category;
        }
        lines.push(overview_line(entry.usage, entry.description));
        proof {
            let after = lines@.map_values(|l: String| l@);
            let e = t[i as int];
            let heading = if e.1 != (if i == 0 { Seq::<char>::empty() } else { t[i - 1].1 }) {
                seq![Seq::<char>::empty(), e.1.push(':')]
            } else {
                Seq::empty()
            };
            assert(after =~= before + heading + seq![usage_line(e.2, e.3)]);
        }
        i = i + 1;
    }
    proof {
        assert(t.skip(i as int).len() == 0);
        assert(command_lines(t.skip(i as int), category@) =~= Seq::<Seq<char>>::empty());
        assert(lines@.map_values(|l: String| l@) =~= head + command_lines(t, Seq::empty()));
    }
    let ghost first = lines@.map_values(|l: String| l@);
    lines.push(String::new());
    lines.push(String::from_str("Keyboard shortcuts:"));
    proof {
        assert(lines@.map_values(|l: String| l@) =~= first + seq![Seq::<char>::empty(), "Keyboard shortcuts:"@]);
    }
    let keys = shortcuts();
    let ghost st = shortcut_table();
    let ghost mid = lines@.map_values(|l: String| l@);
    let mut k: usize = 0;
    while k < keys.len()
        invariant
            st == shortcut_table(),
            keys@.map_values(|e: ShortcutInfo| (e.keys@, e.description@)) == st,
            k <= keys@.len(),
            lines@.map_values(|l: String| l@) == mid + st.take(k as int).map_values(|e: (Seq<char>, Seq<char>)| usage_line(e.0, e.1)),
        decreases keys@.len() - k,
    {
        let e = keys[k];
        let ghost before = lines@.map_values(|l: String| l@);
        proof {
            assert(st[k as int] == (e.keys@, e.description@));
        }
        lines.push(overview_line(e.keys, e.description));
        proof {
            assert(lines@.map_values(|l: String| l@) =~= before.push(usage_line(e.keys@, e.description@)));
            assert(st.take(k + 1).map_values(|e: (Seq<char>, Seq<char>)| usage_line(e.0, e.1)) =~= st.take(k as int).map_values(
                |e: (Seq<char>, Seq<char>)| usage_line(e.0, e.1),
            ).push(usage_line(st[k as int].0, st[k as int].1)));
        }
        k = k + 1;
    }
    proof {
        assert(st.take(k as int) =~= st);
    }
    let ghost second = lines@.map_values(|l: String| l@);
    lines.push(String::new());
    lines.push(String::from_str("Type 'help <command>' for more information about a single command."));
    lines.push(String::new());
    proof {
        assert(lines@.map_values(|l: String| l@) =~= second + seq![
            Seq::<char>::empty(),
            "Type 'help <command>' for more information about a single command."@,
            Seq::<char>::empty(),
        ]);
        assert(head =~= seq![Seq::<char>::empty(), "Available commands:"@]);
        assert(lines@.map_values(|l: String| l@) =~= overview_text());
    }
    lines
}

/// The line the `history` command prints for entry `number` (counted from 1):
/// the number right-aligned in three columns, two spaces, then the entry.
pub fn history_line(number: usize, entry: &str) -> (r: String)
    ensures
        r@ == seq![' ', ' '] + left_padded(decimal(number as nat), 3) + seq![' ', ' '] + entry@,
{
    let mut line = String::new();
    push_char(&mut line, ' ');
    push_char(&mut line, ' ');
    push_decimal_right(&mut line, number, 3);
    push_char(&mut line, ' ');
    push_char(&mut line, ' ');
    push_str(&mut line, entry);
    proof {
        assert(line@ =~= seq![' ', ' '] + left_padded(decimal(number as nat), 3) + seq![' ', ' '] + entry@);
    }
    line
}

/// The lines printed by `about`.
pub open spec fn about_text() -> Seq<Seq<char>> {
    seq![
        ""@,
        "HeineOS"@,
        "Educational x86-64 operating system written in Rust."@,
        "Shell developed for Lesson 7 - Operating System Development."@,
        ""@,
    ]
}

/// The lines `about` prints: an empty line, the name of the system, what it
/// is, the lesson the shell was written for, and another empty line.
pub fn about_lines() -> (r: Vec<&'static str>)
    ensures
        r@.map_values(|l: &str| l@) == about_text(),
{
    let r = vec![
        "",
        "HeineOS",
        "Educational x86-64 operating system written in Rust.",
        "Shell developed for Lesson 7 - Operating System Development.",
        "",
    ];
    proof {
        assert(r@.map_values(|l: &str| l@) =~= about_text());
    }
    r
}

} // verus!
