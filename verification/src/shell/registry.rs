//! The table describing every shell command. The `help` overview, `help <command>`
//! and Tab completion all read this one table, so a command is described once.
use vstd::prelude::*;
use crate::text::{is_prefix_of, starts_with};
use vstd::string::StrSliceExecFns;
use std::borrow::ToOwned;

verus! {

/// Description of a single shell command.
#[derive(Clone, Copy, Debug)]
pub struct CommandInfo {
    /// The name of the command, as it has to be typed. Used for Tab completion.
    pub name: &'static str,
    /// The category the command belongs to, used to group the `help` output.
    pub category: &'static str,
    /// How the command is used, e.g. `echo <text>`.
    pub usage: &'static str,
    /// A short, single line description for the `help` overview.
    pub description: &'static str,
    /// The detailed help text, printed line by line by `help <command>`.
    pub help: &'static [&'static str],
}

/// Description of a keyboard shortcut of the line editor.
#[derive(Clone, Copy, Debug)]
pub struct ShortcutInfo {
    /// The keys that have to be pressed, e.g. `Ctrl+L`.
    pub keys: &'static str,
    /// What the shortcut does.
    pub description: &'static str,
}

/// The names of all commands, in the order of the command table.
pub open spec fn command_names() -> Seq<Seq<char>> {
    seq![
        "help"@,
        "clear"@,
        "echo"@,
        "about"@,
        "history"@,
        "time"@,
        "meminfo"@,
        "sysinfo"@,
        "fbinfo"@,
        "sleep"@,
        "ps"@,
        "tid"@,
        "ls"@,
        "cat"@,
        "stat"@,
        "hexdump"@,
        "lspci"@,
        "beep"@,
        "shutdown"@,
        "reboot"@,
        "demo"@
    ]
}

/// The name of a command entry.
pub open spec fn name_of(c: CommandInfo) -> Seq<char> {
    c.name@
}

/// Name, category, usage and description of every command, in table order.
pub open spec fn command_table() -> Seq<(Seq<char>, Seq<char>, Seq<char>, Seq<char>)> {
    seq![
        ("help"@, "General"@, "help [command]"@, "Show available commands"@),
        ("clear"@, "General"@, "clear"@, "Clear the terminal"@),
        ("echo"@, "General"@, "echo <text>"@, "Print text"@),
        ("about"@, "General"@, "about"@, "Show information about HeineOS"@),
        ("history"@, "General"@, "history"@, "Show previously entered commands"@),
        ("time"@, "System"@, "time"@, "Show system uptime (alias: uptime)"@),
        ("meminfo"@, "System"@, "meminfo"@, "Show kernel heap information"@),
        ("sysinfo"@, "System"@, "sysinfo"@, "Show an overview of the system"@),
        ("fbinfo"@, "System"@, "fbinfo"@, "Show framebuffer information"@),
        ("sleep"@, "System"@, "sleep <ms>"@, "Wait for the given number of milliseconds"@),
        ("ps"@, "Threads"@, "ps"@, "List the threads known to the scheduler"@),
        ("tid"@, "Threads"@, "tid"@, "Show the ID of the current thread"@),
        ("ls"@, "Filesystem"@, "ls [path]"@, "List the contents of a directory"@),
        ("cat"@, "Filesystem"@, "cat <file>"@, "Print the contents of a file"@),
        ("stat"@, "Filesystem"@, "stat <path>"@, "Show metadata of a file or directory"@),
        ("hexdump"@, "Filesystem"@, "hexdump <file>"@, "Show the contents of a file in hexadecimal"@),
        ("lspci"@, "Hardware"@, "lspci [-v]"@, "List the devices on the PCI bus"@),
        ("beep"@, "Hardware"@, "beep <hz> <ms>"@, "Play a tone on the PC speaker"@),
        ("shutdown"@, "System control"@, "shutdown"@, "Shut down HeineOS (alias: poweroff)"@),
        ("reboot"@, "System control"@, "reboot"@, "Reboot HeineOS"@),
        ("demo"@, "Applications"@, "demo"@, "Open the Demo Menu"@)
    ]
}

/// The texts of a command entry that the help overview shows.
pub open spec fn entry_texts(c: CommandInfo) -> (Seq<char>, Seq<char>, Seq<char>, Seq<char>) {
    (c.name@, c.category@, c.usage@, c.description@)
}

/// The help lines of every command, printed by `help <command>`, in table order.
pub open spec fn help_table() -> Seq<Seq<Seq<char>>> {
    seq![
        seq![
            "help - Show available commands"@,
            ""@,
            "Usage:"@,
            "  help            List all commands with a short description"@,
            "  help <command>  Show the detailed help of a single command"@,
        ],
        seq![
            "clear - Clear the terminal"@,
            ""@,
            "Usage:"@,
            "  clear"@,
            ""@,
            "The next prompt appears at the top of the screen."@,
        ],
        seq![
            "echo - Print text"@,
            ""@,
            "Usage:"@,
            "  echo <text>"@,
            ""@,
            "Everything after the command name is printed unchanged."@,
            "Without any argument, an empty line is printed."@,
        ],
        seq![
            "about - Show information about HeineOS"@,
            ""@,
            "Usage:"@,
            "  about"@,
        ],
        seq![
            "history - Show previously entered commands"@,
            ""@,
            "Usage:"@,
            "  history"@,
            ""@,
            "The history keeps a limited number of commands. Empty lines and"@,
            "repetitions of the previous command are not stored."@,
            "Use the Up and Down arrow keys to recall an entry at the prompt."@,
        ],
        seq![
            "time - Show the system uptime"@,
            ""@,
            "Usage:"@,
            "  time"@,
            "  uptime"@,
            ""@,
            "The uptime is measured by the PIT since the kernel was started and"@,
            "is printed as HH:MM:SS.mmm. HeineOS has no real time clock driver,"@,
            "so this is not the time of day."@,
        ],
        seq![
            "meminfo - Show information about the kernel heap"@,
            ""@,
            "Usage:"@,
            "  meminfo"@,
            ""@,
            "The values are read from the linked list allocator and describe the"@,
            "kernel heap only. HeineOS has no physical memory manager yet."@,
        ],
        seq![
            "sysinfo - Show an overview of the system"@,
            ""@,
            "Usage:"@,
            "  sysinfo"@,
            ""@,
            "Combines the information of time, meminfo, fbinfo, tid and lspci"@,
            "into a single summary."@,
        ],
        seq![
            "fbinfo - Show information about the framebuffer"@,
            ""@,
            "Usage:"@,
            "  fbinfo"@,
            ""@,
            "Shows the resolution reported by the bootloader, the size of a"@,
            "character cell and the resulting size of the terminal."@,
        ],
        seq![
            "sleep - Wait for a given amount of time"@,
            ""@,
            "Usage:"@,
            "  sleep <milliseconds>"@,
            ""@,
            "Waits using the PIT. While waiting, the shell thread yields the CPU,"@,
            "so other threads keep running. The maximum duration is 10000 ms."@,
        ],
        seq![
            "ps - List the threads known to the scheduler"@,
            ""@,
            "Usage:"@,
            "  ps"@,
            ""@,
            "Shows the running thread and the threads waiting in the ready queue."@,
            "The round robin scheduler of HeineOS has no other thread states."@,
            "Reading the list does not change the scheduler state."@,
        ],
        seq![
            "tid - Show the ID of the current thread"@,
            ""@,
            "Usage:"@,
            "  tid"@,
            ""@,
            "This is the ID of the thread running the shell."@,
        ],
        seq![
            "ls - List the contents of a directory"@,
            ""@,
            "Usage:"@,
            "  ls          List the root directory"@,
            "  ls <path>   List the given directory"@,
            ""@,
            "Directories are marked with a trailing slash."@,
        ],
        seq![
            "cat - Print the contents of a file"@,
            ""@,
            "Usage:"@,
            "  cat <file>"@,
            ""@,
            "Files that are not valid UTF-8 are printed as text anyway, with all"@,
            "non-printable bytes replaced by a dot. Use hexdump for binary files."@,
        ],
        seq![
            "stat - Show the metadata of a file or directory"@,
            ""@,
            "Usage:"@,
            "  stat <path>"@,
            ""@,
            "A tar archive only stores the name, the type and the size of an"@,
            "entry, so no other metadata can be shown."@,
        ],
        seq![
            "hexdump - Show the contents of a file in hexadecimal"@,
            ""@,
            "Usage:"@,
            "  hexdump <file>"@,
            ""@,
            "Prints an offset column followed by 16 bytes per line. Only the"@,
            "beginning of a large file is shown, which is stated in the output."@,
        ],
        seq![
            "lspci - List PCI devices"@,
            ""@,
            "Usage:"@,
            "  lspci"@,
            "  lspci -v"@,
            ""@,
            "Options:"@,
            "  -v    Show detailed information about every device"@,
            ""@,
            "The devices are the ones found during the PCI scan at boot time."@,
        ],
        seq![
            "beep - Play a tone on the PC speaker"@,
            ""@,
            "Usage:"@,
            "  beep <frequency> <duration>"@,
            ""@,
            "The frequency is given in hertz (20 - 20000) and the duration in"@,
            "milliseconds (1 - 5000). The shell blocks until the tone has ended."@,
        ],
        seq![
            "shutdown - Shut down HeineOS"@,
            ""@,
            "Usage:"@,
            "  shutdown"@,
            "  poweroff"@,
            ""@,
            "Requests an ACPI soft power off, which makes the virtual machine"@,
            "terminate. If the machine does not react, the CPU is halted."@,
        ],
        seq![
            "reboot - Reboot HeineOS"@,
            ""@,
            "Usage:"@,
            "  reboot"@,
            ""@,
            "Resets the machine through the keyboard controller, which is the"@,
            "classic way to reboot a PC. HeineOS starts again from the bootloader."@,
        ],
        seq![
            "demo - Open the Demo Menu"@,
            ""@,
            "Usage:"@,
            "  demo"@,
            ""@,
            "Controls inside the menu:"@,
            "  Up/Down   Select an entry"@,
            "  Enter     Start the selected demo"@,
            "  Ctrl+C    Return to the shell"@,
            ""@,
            "A running demo is left with Esc, which returns to the Demo Menu."@,
        ],
    ]
}

/// The help lines of a command.
pub open spec fn help_of(c: CommandInfo) -> Seq<Seq<char>> {
    c.help@.map_values(|l: &str| l@)
}

/// A full row of the command table: the texts and the help lines.
pub type CommandRow = ((Seq<char>, Seq<char>, Seq<char>, Seq<char>), Seq<Seq<char>>);

/// Every command with all its texts, in table order.
pub open spec fn full_table() -> Seq<CommandRow> {
    Seq::new(command_table().len(), |i: int| (command_table()[i], help_table()[i]))
}

/// All texts of a command, its help lines included.
pub open spec fn full_row(c: CommandInfo) -> CommandRow {
    (entry_texts(c), help_of(c))
}

/// Keys and description of every shortcut, in the order of the help output.
pub open spec fn shortcut_table() -> Seq<(Seq<char>, Seq<char>)> {
    seq![
        ("Backspace"@, "Delete the previous character"@),
        ("Up/Down"@, "Walk through the command history"@),
        ("Tab"@, "Complete the command name"@),
        ("Ctrl+C"@, "Cancel the current input line"@),
        ("Ctrl+L"@, "Clear the screen, keep the input"@),
        ("Ctrl+U"@, "Clear the current input line"@),
        ("Ctrl+Up/Down"@, "Scroll through older output"@),
        ("Ctrl+PgUp/PgDn"@, "Scroll by a whole page"@)
    ]
}

/// All commands supported by the shell, grouped by category. The order of the
/// table is the order of the `help` output.
pub fn commands() -> (r: Vec<CommandInfo>)
    ensures
        r@.map_values(|c: CommandInfo| name_of(c)) == command_names(),
        r@.map_values(|c: CommandInfo| entry_texts(c)) == command_table(),
        r@.map_values(|c: CommandInfo| full_row(c)) == full_table(),
{
    let v = vec![
        CommandInfo {
        name: "help",
        category: "General",
        usage: "help [command]",
        description: "Show available commands",
        help: &[
            "help - Show available commands",
            "",
            "Usage:",
            "  help            List all commands with a short description",
            "  help <command>  Show the detailed help of a single command",
        ],
        },
        CommandInfo {
        name: "clear",
        category: "General",
        usage: "clear",
        description: "Clear the terminal",
        help: &[
            "clear - Clear the terminal",
            "",
            "Usage:",
            "  clear",
            "",
            "The next prompt appears at the top of the screen.",
        ],
        },
        CommandInfo {
        name: "echo",
        category: "General",
        usage: "echo <text>",
        description: "Print text",
        help: &[
            "echo - Print text",
            "",
            "Usage:",
            "  echo <text>",
            "",
            "Everything after the command name is printed unchanged.",
            "Without any argument, an empty line is printed.",
        ],
        },
        CommandInfo {
        name: "about",
        category: "General",
        usage: "about",
        description: "Show information about HeineOS",
        help: &[
            "about - Show information about HeineOS",
            "",
            "Usage:",
            "  about",
        ],
        },
        CommandInfo {
        name: "history",
        category: "General",
        usage: "history",
        description: "Show previously entered commands",
        help: &[
            "history - Show previously entered commands",
            "",
            "Usage:",
            "  history",
            "",
            "The history keeps a limited number of commands. Empty lines and",
            "repetitions of the previous command are not stored.",
            "Use the Up and Down arrow keys to recall an entry at the prompt.",
        ],
        },
        CommandInfo {
        name: "time",
        category: "System",
        usage: "time",
        description: "Show system uptime (alias: uptime)",
        help: &[
            "time - Show the system uptime",
            "",
            "Usage:",
            "  time",
            "  uptime",
            "",
            "The uptime is measured by the PIT since the kernel was started and",
            "is printed as HH:MM:SS.mmm. HeineOS has no real time clock driver,",
            "so this is not the time of day.",
        ],
        },
        CommandInfo {
        name: "meminfo",
        category: "System",
        usage: "meminfo",
        description: "Show kernel heap information",
        help: &[
            "meminfo - Show information about the kernel heap",
            "",
            "Usage:",
            "  meminfo",
            "",
            "The values are read from the linked list allocator and describe the",
            "kernel heap only. HeineOS has no physical memory manager yet.",
        ],
        },
        CommandInfo {
        name: "sysinfo",
        category: "System",
        usage: "sysinfo",
        description: "Show an overview of the system",
        help: &[
            "sysinfo - Show an overview of the system",
            "",
            "Usage:",
            "  sysinfo",
            "",
            "Combines the information of time, meminfo, fbinfo, tid and lspci",
            "into a single summary.",
        ],
        },
        CommandInfo {
        name: "fbinfo",
        category: "System",
        usage: "fbinfo",
        description: "Show framebuffer information",
        help: &[
            "fbinfo - Show information about the framebuffer",
            "",
            "Usage:",
            "  fbinfo",
            "",
            "Shows the resolution reported by the bootloader, the size of a",
            "character cell and the resulting size of the terminal.",
        ],
        },
        CommandInfo {
        name: "sleep",
        category: "System",
        usage: "sleep <ms>",
        description: "Wait for the given number of milliseconds",
        help: &[
            "sleep - Wait for a given amount of time",
            "",
            "Usage:",
            "  sleep <milliseconds>",
            "",
            "Waits using the PIT. While waiting, the shell thread yields the CPU,",
            "so other threads keep running. The maximum duration is 10000 ms.",
        ],
        },
        CommandInfo {
        name: "ps",
        category: "Threads",
        usage: "ps",
        description: "List the threads known to the scheduler",
        help: &[
            "ps - List the threads known to the scheduler",
            "",
            "Usage:",
            "  ps",
            "",
            "Shows the running thread and the threads waiting in the ready queue.",
            "The round robin scheduler of HeineOS has no other thread states.",
            "Reading the list does not change the scheduler state.",
        ],
        },
        CommandInfo {
        name: "tid",
        category: "Threads",
        usage: "tid",
        description: "Show the ID of the current thread",
        help: &[
            "tid - Show the ID of the current thread",
            "",
            "Usage:",
            "  tid",
            "",
            "This is the ID of the thread running the shell.",
        ],
        },
        CommandInfo {
        name: "ls",
        category: "Filesystem",
        usage: "ls [path]",
        description: "List the contents of a directory",
        help: &[
            "ls - List the contents of a directory",
            "",
            "Usage:",
            "  ls          List the root directory",
            "  ls <path>   List the given directory",
            "",
            "Directories are marked with a trailing slash.",
        ],
        },
        CommandInfo {
        name: "cat",
        category: "Filesystem",
        usage: "cat <file>",
        description: "Print the contents of a file",
        help: &[
            "cat - Print the contents of a file",
            "",
            "Usage:",
            "  cat <file>",
            "",
            "Files that are not valid UTF-8 are printed as text anyway, with all",
            "non-printable bytes replaced by a dot. Use hexdump for binary files.",
        ],
        },
        CommandInfo {
        name: "stat",
        category: "Filesystem",
        usage: "stat <path>",
        description: "Show metadata of a file or directory",
        help: &[
            "stat - Show the metadata of a file or directory",
            "",
            "Usage:",
            "  stat <path>",
            "",
            "A tar archive only stores the name, the type and the size of an",
            "entry, so no other metadata can be shown.",
        ],
        },
        CommandInfo {
        name: "hexdump",
        category: "Filesystem",
        usage: "hexdump <file>",
        description: "Show the contents of a file in hexadecimal",
        help: &[
            "hexdump - Show the contents of a file in hexadecimal",
            "",
            "Usage:",
            "  hexdump <file>",
            "",
            "Prints an offset column followed by 16 bytes per line. Only the",
            "beginning of a large file is shown, which is stated in the output.",
        ],
        },
        CommandInfo {
        name: "lspci",
        category: "Hardware",
        usage: "lspci [-v]",
        description: "List the devices on the PCI bus",
        help: &[
            "lspci - List PCI devices",
            "",
            "Usage:",
            "  lspci",
            "  lspci -v",
            "",
            "Options:",
            "  -v    Show detailed information about every device",
            "",
            "The devices are the ones found during the PCI scan at boot time.",
        ],
        },
        CommandInfo {
        name: "beep",
        category: "Hardware",
        usage: "beep <hz> <ms>",
        description: "Play a tone on the PC speaker",
        help: &[
            "beep - Play a tone on the PC speaker",
            "",
            "Usage:",
            "  beep <frequency> <duration>",
            "",
            "The frequency is given in hertz (20 - 20000) and the duration in",
            "milliseconds (1 - 5000). The shell blocks until the tone has ended.",
        ],
        },
        CommandInfo {
        name: "shutdown",
        category: "System control",
        usage: "shutdown",
        description: "Shut down HeineOS (alias: poweroff)",
        help: &[
            "shutdown - Shut down HeineOS",
            "",
            "Usage:",
            "  shutdown",
            "  poweroff",
            "",
            "Requests an ACPI soft power off, which makes the virtual machine",
            "terminate. If the machine does not react, the CPU is halted.",
        ],
        },
        CommandInfo {
        name: "reboot",
        category: "System control",
        usage: "reboot",
        description: "Reboot HeineOS",
        help: &[
            "reboot - Reboot HeineOS",
            "",
            "Usage:",
            "  reboot",
            "",
            "Resets the machine through the keyboard controller, which is the",
            "classic way to reboot a PC. HeineOS starts again from the bootloader.",
        ],
        },
        CommandInfo {
        name: "demo",
        category: "Applications",
        usage: "demo",
        description: "Open the Demo Menu",
        help: &[
            "demo - Open the Demo Menu",
            "",
            "Usage:",
            "  demo",
            "",
            "Controls inside the menu:",
            "  Up/Down   Select an entry",
            "  Enter     Start the selected demo",
            "  Ctrl+C    Return to the shell",
            "",
            "A running demo is left with Esc, which returns to the Demo Menu.",
        ],
        },
    ];
    assert(v@.map_values(|c: CommandInfo| name_of(c)) =~= command_names());
    assert(v@.map_values(|c: CommandInfo| entry_texts(c)) =~= command_table());
    assert(v@.map_values(|c: CommandInfo| help_of(c)) =~~= help_table());
    assert(v@.map_values(|c: CommandInfo| full_row(c)) =~= full_table());
    v
}

/// The keyboard shortcuts of the shell, listed at the end of the `help` output.
pub fn shortcuts() -> (r: Vec<ShortcutInfo>)
    ensures
        r@.map_values(|s: ShortcutInfo| (s.keys@, s.description@)) == shortcut_table(),
{
    let v = vec![
        ShortcutInfo {
        keys: "Backspace",
        description: "Delete the previous character",
        },
        ShortcutInfo {
        keys: "Up/Down",
        description: "Walk through the command history",
        },
        ShortcutInfo {
        keys: "Tab",
        description: "Complete the command name",
        },
        ShortcutInfo {
        keys: "Ctrl+C",
        description: "Cancel the current input line",
        },
        ShortcutInfo {
        keys: "Ctrl+L",
        description: "Clear the screen, keep the input",
        },
        ShortcutInfo {
        keys: "Ctrl+U",
        description: "Clear the current input line",
        },
        ShortcutInfo {
        keys: "Ctrl+Up/Down",
        description: "Scroll through older output",
        },
        ShortcutInfo {
        keys: "Ctrl+PgUp/PgDn",
        description: "Scroll by a whole page",
        },
    ];
    assert(v@.map_values(|s: ShortcutInfo| (s.keys@, s.description@)) =~= shortcut_table());
    v
}

/// Look up a command by its exact name.
pub fn find(name: &str) -> (r: Option<CommandInfo>)
    ensures
        r is Some <==> command_names().contains(name@),
        r matches Some(c) ==> c.name@ == name@ && exists|i: int|
            0 <= i < command_table().len() && #[trigger] command_table()[i] == entry_texts(c)
                && full_table()[i] == full_row(c),
{
    let table = commands();
    let ghost names = table@.map_values(|c: CommandInfo| name_of(c));
    let mut i: usize = 0;
    while i < table.len()
        invariant
            table@.map_values(|c: CommandInfo| entry_texts(c)) == command_table(),
            table@.map_values(|c: CommandInfo| full_row(c)) == full_table(),
            names == command_names(),
            names == table@.map_values(|c: CommandInfo| name_of(c)),
            i <= table@.len(),
            forall|j: int| 0 <= j < i ==> names[j] != name@,
        decreases table.len() - i,
    {
        let entry = table[i];
        if crate::text::str_equal(entry.name, name) {
            proof {
                assert(names[i as int] == name@);
                assert(command_table()[i as int] == entry_texts(entry));
                assert(full_table()[i as int] == full_row(entry));
            }
            return Some(entry);
        }
        i = i + 1;
    }
    proof {
        if names.contains(name@) {
            let j = choose|j: int| 0 <= j < names.len() && names[j] == name@;
            assert(names[j] != name@);
        }
    }
    None
}

/// The predicate "the command table row's name starts with `prefix`".
pub open spec fn row_has_prefix(prefix: Seq<char>) -> spec_fn((Seq<char>, Seq<char>, Seq<char>, Seq<char>)) -> bool {
    |t: (Seq<char>, Seq<char>, Seq<char>, Seq<char>)| is_prefix_of(prefix, t.0)
}

/// The predicate "the full row's name starts with `prefix`".
pub open spec fn full_row_has_prefix(prefix: Seq<char>) -> spec_fn(CommandRow) -> bool {
    |t: CommandRow| is_prefix_of(prefix, t.0.0)
}

/// The predicate "the name starts with `prefix`".
pub open spec fn has_prefix(prefix: Seq<char>) -> spec_fn(Seq<char>) -> bool {
    |n: Seq<char>| is_prefix_of(prefix, n)
}

/// Collect all commands whose name starts with the given prefix, in table order.
pub fn completions(prefix: &str) -> (r: Vec<CommandInfo>)
    ensures
        r@.map_values(|c: CommandInfo| name_of(c)) == command_names().filter(has_prefix(prefix@)),
        r@.map_values(|c: CommandInfo| entry_texts(c)) == command_table().filter(row_has_prefix(prefix@)),
        r@.map_values(|c: CommandInfo| full_row(c)) == full_table().filter(full_row_has_prefix(prefix@)),
{
    let table = commands();
    let ghost names = table@.map_values(|c: CommandInfo| name_of(c));
    let ghost rows = table@.map_values(|c: CommandInfo| entry_texts(c));
    let ghost full = table@.map_values(|c: CommandInfo| full_row(c));
    let mut result: Vec<CommandInfo> = Vec::new();
    let mut i: usize = 0;
    proof {
        reveal(Seq::filter);
        assert(names.subrange(0, 0).filter(has_prefix(prefix@)) =~= Seq::empty());
        assert(rows.subrange(0, 0).filter(row_has_prefix(prefix@)) =~= Seq::empty());
        assert(full.subrange(0, 0).filter(full_row_has_prefix(prefix@)) =~= Seq::empty());
        assert(result@.map_values(|c: CommandInfo| full_row(c)) =~= Seq::empty());
        assert(result@.map_values(|c: CommandInfo| name_of(c)) =~= Seq::empty());
        assert(result@.map_values(|c: CommandInfo| entry_texts(c)) =~= Seq::empty());
    }
    while i < table.len()
        invariant
            names == command_names(),
            names == table@.map_values(|c: CommandInfo| name_of(c)),
            rows == command_table(),
            rows == table@.map_values(|c: CommandInfo| entry_texts(c)),
            full == full_table(),
            full == table@.map_values(|c: CommandInfo| full_row(c)),
            i <= table@.len(),
            result@.map_values(|c: CommandInfo| name_of(c)) == names.subrange(0, i as int).filter(
                has_prefix(prefix@),
            ),
            result@.map_values(|c: CommandInfo| entry_texts(c)) == rows.subrange(0, i as int).filter(
                row_has_prefix(prefix@),
            ),
            result@.map_values(|c: CommandInfo| full_row(c)) == full.subrange(0, i as int).filter(
                full_row_has_prefix(prefix@),
            ),
        decreases table.len() - i,
    {
        let entry = table[i];
        let ghost before = result@;
        proof {
            assert(names.subrange(0, i + 1) =~= names.subrange(0, i as int).push(names[i as int]));
            names.subrange(0, i as int).lemma_filter_push(names[i as int], has_prefix(prefix@));
            assert(rows.subrange(0, i + 1) =~= rows.subrange(0, i as int).push(rows[i as int]));
            rows.subrange(0, i as int).lemma_filter_push(rows[i as int], row_has_prefix(prefix@));
            assert(rows[i as int] == entry_texts(entry));
            assert(full.subrange(0, i + 1) =~= full.subrange(0, i as int).push(full[i as int]));
            full.subrange(0, i as int).lemma_filter_push(full[i as int], full_row_has_prefix(prefix@));
            assert(full[i as int] == full_row(entry));
            assert(names[i as int] == name_of(entry));
        }
        if starts_with(entry.name, prefix) {
            result.push(entry);
            proof {
                assert(result@.map_values(|c: CommandInfo| name_of(c)) =~= before.map_values(
                    |c: CommandInfo| name_of(c),
                ).push(name_of(entry)));
                assert(result@.map_values(|c: CommandInfo| entry_texts(c)) =~= before.map_values(
                    |c: CommandInfo| entry_texts(c),
                ).push(entry_texts(entry)));
                assert(result@.map_values(|c: CommandInfo| full_row(c)) =~= before.map_values(
                    |c: CommandInfo| full_row(c),
                ).push(full_row(entry)));
            }
        }
        i = i + 1;
    }
    proof {
        assert(names.subrange(0, table@.len() as int) =~= names);
        assert(rows.subrange(0, table@.len() as int) =~= rows);
        assert(full.subrange(0, table@.len() as int) =~= full);
    }
    result
}

/// Length of the longest common prefix of two character sequences.
pub open spec fn common_prefix_len(a: Seq<char>, b: Seq<char>) -> nat
    decreases a.len(),
{
    if a.len() == 0 || b.len() == 0 || a[0] != b[0] {
        0
    } else {
        1 + common_prefix_len(a.drop_first(), b.drop_first())
    }
}

/// Length of the prefix of `first` that all of `others` share with it.
pub open spec fn shared_prefix_len(first: Seq<char>, others: Seq<Seq<char>>) -> nat
    decreases others.len(),
{
    if others.len() == 0 {
        first.len()
    } else {
        let rest = shared_prefix_len(first, others.drop_last());
        let here = common_prefix_len(first, others.last());
        if here < rest {
            here
        } else {
            rest
        }
    }
}

proof fn lemma_common_prefix_step(a: Seq<char>, b: Seq<char>, i: int)
    requires
        0 <= i < a.len(),
        i < b.len(),
        a[i] == b[i],
    ensures
        common_prefix_len(a.subrange(i, a.len() as int), b.subrange(i, b.len() as int)) == 1
            + common_prefix_len(a.subrange(i + 1, a.len() as int), b.subrange(i + 1, b.len() as int)),
{
    assert(a.subrange(i, a.len() as int).drop_first() =~= a.subrange(i + 1, a.len() as int));
    assert(b.subrange(i, b.len() as int).drop_first() =~= b.subrange(i + 1, b.len() as int));
}

/// The number of leading characters that two names have in common.
pub fn common_prefix_length(first: &str, second: &str) -> (r: usize)
    ensures
        r == common_prefix_len(first@, second@),
        r <= first@.len(),
        r <= second@.len(),
{
    let n = first.unicode_len();
    let m = second.unicode_len();
    let mut i: usize = 0;
    proof {
        assert(first@.subrange(0, n as int) =~= first@);
        assert(second@.subrange(0, m as int) =~= second@);
    }
    while i < n && i < m && first.get_char(i) == second.get_char(i)
        invariant
            n == first@.len(),
            m == second@.len(),
            i <= n,
            i <= m,
            common_prefix_len(first@, second@) == i + common_prefix_len(
                first@.subrange(i as int, n as int),
                second@.subrange(i as int, m as int),
            ),
        decreases n - i,
    {
        proof {
            lemma_common_prefix_step(first@, second@, i as int);
        }
        i = i + 1;
    }
    proof {
        let a = first@.subrange(i as int, n as int);
        let b = second@.subrange(i as int, m as int);
        if i < n && i < m {
            assert(a[0] == first@[i as int]);
            assert(b[0] == second@[i as int]);
        }
    }
    i
}

/// Build the longest prefix that all given commands have in common; empty if
/// no command is given.
pub fn longest_common_prefix(commands: &[CommandInfo]) -> (r: String)
    ensures
        commands@.len() == 0 ==> r@ == Seq::<char>::empty(),
        commands@.len() > 0 ==> r@ == commands@[0].name@.subrange(
            0,
            shared_prefix_len(
                commands@[0].name@,
                commands@.drop_first().map_values(|c: CommandInfo| name_of(c)),
            ) as int,
        ),
{
    if commands.len() == 0 {
        return String::new();
    }
    let first = commands[0].name;
    let ghost others = commands@.drop_first().map_values(|c: CommandInfo| name_of(c));
    let mut length = first.unicode_len();
    let mut i: usize = 1;
    proof {
        assert(others.subrange(0, 0).len() == 0);
    }
    while i < commands.len()
        invariant
            1 <= i <= commands@.len(),
            first == commands@[0].name,
            others == commands@.drop_first().map_values(|c: CommandInfo| name_of(c)),
            length == shared_prefix_len(first@, others.subrange(0, i - 1)),
            length <= first@.len(),
        decreases commands.len() - i,
    {
        let here = common_prefix_length(first, commands[i].name);
        proof {
            let sub = others.subrange(0, i as int);
            assert(sub.drop_last() =~= others.subrange(0, i - 1));
            assert(sub.last() == commands@[i as int].name@);
        }
        if here < length {
            length = here;
        }
        i = i + 1;
    }
    proof {
        assert(others.subrange(0, commands@.len() - 1) =~= others);
    }
    first.substring_char(0, length).to_owned()
}

/// What `common_prefix_len` measures: the first `k` characters agree, and
/// the next ones differ unless one sequence ends there.
proof fn lemma_common_prefix_len(a: Seq<char>, b: Seq<char>)
    ensures
        common_prefix_len(a, b) <= a.len(),
        common_prefix_len(a, b) <= b.len(),
        a.take(common_prefix_len(a, b) as int) == b.take(common_prefix_len(a, b) as int),
        common_prefix_len(a, b) < a.len() && common_prefix_len(a, b) < b.len() ==> a[common_prefix_len(a, b) as int]
            != b[common_prefix_len(a, b) as int],
    decreases a.len(),
{
    if a.len() == 0 || b.len() == 0 || a[0] != b[0] {
        assert(a.take(0) =~= b.take(0));
    } else {
        lemma_common_prefix_len(a.drop_first(), b.drop_first());
        let k = common_prefix_len(a.drop_first(), b.drop_first()) as int;
        assert(a.take(k + 1) =~= seq![a[0]] + a.drop_first().take(k));
        assert(b.take(k + 1) =~= seq![b[0]] + b.drop_first().take(k));
    }
}

/// Tab completion inserts the longest prefix that all candidates share: the
/// first `shared_prefix_len(first, others)` characters of `first` begin every
/// other name, and no longer prefix of `first` does.
pub proof fn lemma_longest_common_prefix(first: Seq<char>, others: Seq<Seq<char>>)
    ensures
        shared_prefix_len(first, others) <= first.len(),
        forall|i: int| 0 <= i < others.len() ==> is_prefix_of(
            first.take(shared_prefix_len(first, others) as int),
            #[trigger] others[i],
        ),
        forall|k: int| #![trigger first.take(k)] shared_prefix_len(first, others) < k <= first.len() ==> exists|i: int|
            0 <= i < others.len() && !is_prefix_of(first.take(k), #[trigger] others[i]),
    decreases others.len(),
{
    if others.len() > 0 {
        let rest = others.drop_last();
        let last = others.last();
        lemma_longest_common_prefix(first, rest);
        lemma_common_prefix_len(first, last);
        let n = shared_prefix_len(first, others);
        let nr = shared_prefix_len(first, rest);
        let here = common_prefix_len(first, last);
        assert forall|i: int| 0 <= i < others.len() implies is_prefix_of(first.take(n as int), #[trigger] others[i]) by {
            assert(n <= nr && n <= here);
            if i < others.len() - 1 {
                assert(others[i] == rest[i]);
                assert(is_prefix_of(first.take(nr as int), rest[i]));
                assert(others[i].subrange(0, n as int) =~= others[i].subrange(0, nr as int).subrange(0, n as int));
                assert(first.take(n as int) =~= first.take(nr as int).subrange(0, n as int));
            } else {
                assert(others[i] == last);
                assert(last.subrange(0, n as int) =~= last.take(here as int).subrange(0, n as int));
                assert(first.take(n as int) =~= first.take(here as int).subrange(0, n as int));
            }
        }
        assert forall|k: int| #![trigger first.take(k)] n < k <= first.len() implies exists|i: int|
            0 <= i < others.len() && !is_prefix_of(first.take(k), #[trigger] others[i]) by {
            if k > nr {
                let j = choose|j: int| 0 <= j < rest.len() && !is_prefix_of(first.take(k), #[trigger] rest[j]);
                assert(others[j] == rest[j]);
            } else {
                assert(k > here);
                assert(others[others.len() - 1] == last);
                if is_prefix_of(first.take(k), last) {
                    if here < last.len() {
                        assert(last[here as int] == first.take(k)[here as int]);
                    }
                }
            }
        }
    }
}

/// Help and Tab completion read the same table: the full name of a command
/// is always among the completions of that name.
pub proof fn lemma_name_completes_to_itself(name: Seq<char>)
    requires
        command_names().contains(name),
    ensures
        command_names().filter(has_prefix(name)).contains(name),
{
    let i = choose|i: int| 0 <= i < command_names().len() && command_names()[i] == name;
    assert(name.subrange(0, name.len() as int) =~= name);
    assert(has_prefix(name)(name));
    command_names().lemma_filter_contains(has_prefix(name), i);
}

} // verus!
