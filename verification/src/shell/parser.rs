//! Turns an input line into a `Command`. Parsing works on borrowed slices of the
//! input line and does not validate the arguments; that is left to the commands.
use vstd::prelude::*;
use crate::text::{find_ws, is_ws, str_equal, trim, trim_start, trim_start_from, trim_str, ws_index};
use vstd::string::StrSliceExecFns;
use crate::shell::registry::command_names;

verus! {

/// A parsed shell command. The arguments borrow from the input line.
#[derive(Debug)]
pub enum Command<'a> {
    /// Show the list of commands, or the help of one command (empty for the overview).
    Help(&'a str),
    /// Clear the terminal.
    Clear,
    /// Print the given text.
    Echo(&'a str),
    /// Show information about HeineOS.
    About,
    /// Show the stored command history.
    History,
    /// Show the system uptime.
    Time,
    /// Show information about the kernel heap.
    MemInfo,
    /// Show a summary of the whole system.
    SysInfo,
    /// Show information about the framebuffer and the terminal.
    FbInfo,
    /// Wait for the given number of milliseconds.
    Sleep(&'a str),
    /// List the threads known to the scheduler.
    Ps,
    /// Show the ID of the current thread.
    Tid,
    /// List the contents of a directory. The argument may be empty.
    Ls(&'a str),
    /// Print the contents of a file.
    Cat(&'a str),
    /// Show the metadata of a file or directory.
    Stat(&'a str),
    /// Show the contents of a file in hexadecimal.
    Hexdump(&'a str),
    /// List the devices on the PCI bus; the argument holds the options.
    LsPci(&'a str),
    /// Play a tone on the PC speaker; the argument holds frequency and duration.
    Beep(&'a str),
    /// Shut the machine down.
    Shutdown,
    /// Reboot the machine.
    Reboot,
    /// Open the demo menu.
    Demo,
    /// The command name is not known; holds the name that was entered.
    Unknown(&'a str),
    /// The input line was empty or held only whitespace.
    Empty,
}

/// The variant of a `Command`, without its payload.
#[derive(PartialEq, Eq, Structural, Clone, Copy, Debug)]
pub enum CommandTag {
    Help,
    Clear,
    Echo,
    About,
    History,
    Time,
    MemInfo,
    SysInfo,
    FbInfo,
    Sleep,
    Ps,
    Tid,
    Ls,
    Cat,
    Stat,
    Hexdump,
    LsPci,
    Beep,
    Shutdown,
    Reboot,
    Demo,
    Unknown,
    Empty,
}

impl<'a> Command<'a> {
    /// The variant of this command.
    pub open spec fn tag(&self) -> CommandTag {
        match self {
            Command::Help(_) => CommandTag::Help,
            Command::Clear => CommandTag::Clear,
            Command::Echo(_) => CommandTag::Echo,
            Command::About => CommandTag::About,
            Command::History => CommandTag::History,
            Command::Time => CommandTag::Time,
            Command::MemInfo => CommandTag::MemInfo,
            Command::SysInfo => CommandTag::SysInfo,
            Command::FbInfo => CommandTag::FbInfo,
            Command::Sleep(_) => CommandTag::Sleep,
            Command::Ps => CommandTag::Ps,
            Command::Tid => CommandTag::Tid,
            Command::Ls(_) => CommandTag::Ls,
            Command::Cat(_) => CommandTag::Cat,
            Command::Stat(_) => CommandTag::Stat,
            Command::Hexdump(_) => CommandTag::Hexdump,
            Command::LsPci(_) => CommandTag::LsPci,
            Command::Beep(_) => CommandTag::Beep,
            Command::Shutdown => CommandTag::Shutdown,
            Command::Reboot => CommandTag::Reboot,
            Command::Demo => CommandTag::Demo,
            Command::Unknown(_) => CommandTag::Unknown,
            Command::Empty => CommandTag::Empty,
        }
    }

    /// The text this command carries: the argument text, the unknown name, or
    /// the empty sequence for commands without payload.
    pub open spec fn payload(&self) -> Seq<char> {
        match self {
            Command::Help(a) => a@,
            Command::Echo(a) => a@,
            Command::Sleep(a) => a@,
            Command::Ls(a) => a@,
            Command::Cat(a) => a@,
            Command::Stat(a) => a@,
            Command::Hexdump(a) => a@,
            Command::LsPci(a) => a@,
            Command::Beep(a) => a@,
            Command::Unknown(a) => a@,
            _ => Seq::empty(),
        }
    }
}

/// The command that a name selects; `time`/`uptime` and `shutdown`/`poweroff` are aliases.
pub open spec fn tag_of_name(n: Seq<char>) -> CommandTag {
    if n == "help"@ {
        CommandTag::Help
    } else if n == "clear"@ {
        CommandTag::Clear
    } else if n == "echo"@ {
        CommandTag::Echo
    } else if n == "about"@ {
        CommandTag::About
    } else if n == "history"@ {
        CommandTag::History
    } else if n == "time"@ || n == "uptime"@ {
        CommandTag::Time
    } else if n == "meminfo"@ {
        CommandTag::MemInfo
    } else if n == "sysinfo"@ {
        CommandTag::SysInfo
    } else if n == "fbinfo"@ {
        CommandTag::FbInfo
    } else if n == "sleep"@ {
        CommandTag::Sleep
    } else if n == "ps"@ {
        CommandTag::Ps
    } else if n == "tid"@ {
        CommandTag::Tid
    } else if n == "ls"@ {
        CommandTag::Ls
    } else if n == "cat"@ {
        CommandTag::Cat
    } else if n == "stat"@ {
        CommandTag::Stat
    } else if n == "hexdump"@ {
        CommandTag::Hexdump
    } else if n == "lspci"@ {
        CommandTag::LsPci
    } else if n == "beep"@ {
        CommandTag::Beep
    } else if n == "shutdown"@ || n == "poweroff"@ {
        CommandTag::Shutdown
    } else if n == "reboot"@ {
        CommandTag::Reboot
    } else if n == "demo"@ {
        CommandTag::Demo
    } else {
        CommandTag::Unknown
    }
}

/// Whether a command of this variant carries its argument text.
pub open spec fn takes_arguments(tag: CommandTag) -> bool {
    tag == CommandTag::Help || tag == CommandTag::Echo || tag == CommandTag::Sleep || tag
        == CommandTag::Ls || tag == CommandTag::Cat || tag == CommandTag::Stat || tag
        == CommandTag::Hexdump || tag == CommandTag::LsPci || tag == CommandTag::Beep
}

/// The command name of a trimmed, non-empty line: everything before the first whitespace.
pub open spec fn command_name(t: Seq<char>) -> Seq<char> {
    t.subrange(0, ws_index(t) as int)
}

/// The argument text of a trimmed line: everything after the first whitespace,
/// without leading whitespace; empty if the line is a single word.
pub open spec fn command_arguments(t: Seq<char>) -> Seq<char> {
    if ws_index(t) < t.len() {
        trim_start(t.subrange(ws_index(t) as int + 1, t.len() as int))
    } else {
        Seq::empty()
    }
}

/// The variant and payload that `parse` produces for a line.
pub open spec fn parsed(line: Seq<char>) -> (CommandTag, Seq<char>) {
    let t = trim(line);
    if t.len() == 0 {
        (CommandTag::Empty, Seq::empty())
    } else {
        let tag = tag_of_name(command_name(t));
        if takes_arguments(tag) {
            (tag, command_arguments(t))
        } else if tag == CommandTag::Unknown {
            (tag, command_name(t))
        } else {
            (tag, Seq::empty())
        }
    }
}

/// Parse a single input line into a `Command`.
///
/// Leading and trailing whitespace is removed and any amount of whitespace
/// between the name and the arguments is accepted. An empty line gives `Command::Empty`.
pub fn parse(line: &str) -> (r: Command<'_>)
    ensures
        (r.tag(), r.payload()) == parsed(line@),
{
    let line = trim_str(line);
    if line.unicode_len() == 0 {
        return Command::Empty;
    }
    let (name, arguments) = split_command(line);
    if str_equal(name, "help") {
        Command::Help(arguments)
    } else if str_equal(name, "clear") {
        Command::Clear
    } else if str_equal(name, "echo") {
        Command::Echo(arguments)
    } else if str_equal(name, "about") {
        Command::About
    } else if str_equal(name, "history") {
        Command::History
    } else if str_equal(name, "time") || str_equal(name, "uptime") {
        Command::Time
    } else if str_equal(name, "meminfo") {
        Command::MemInfo
    } else if str_equal(name, "sysinfo") {
        Command::SysInfo
    } else if str_equal(name, "fbinfo") {
        Command::FbInfo
    } else if str_equal(name, "sleep") {
        Command::Sleep(arguments)
    } else if str_equal(name, "ps") {
        Command::Ps
    } else if str_equal(name, "tid") {
        Command::Tid
    } else if str_equal(name, "ls") {
        Command::Ls(arguments)
    } else if str_equal(name, "cat") {
        Command::Cat(arguments)
    } else if str_equal(name, "stat") {
        Command::Stat(arguments)
    } else if str_equal(name, "hexdump") {
        Command::Hexdump(arguments)
    } else if str_equal(name, "lspci") {
        Command::LsPci(arguments)
    } else if str_equal(name, "beep") {
        Command::Beep(arguments)
    } else if str_equal(name, "shutdown") || str_equal(name, "poweroff") {
        Command::Shutdown
    } else if str_equal(name, "reboot") {
        Command::Reboot
    } else if str_equal(name, "demo") {
        Command::Demo
    } else {
        Command::Unknown(name)
    }
}

/// Split a trimmed line into the command name and the remaining argument text,
/// whose leading whitespace is removed.
pub fn split_command(line: &str) -> (r: (&str, &str))
    ensures
        r.0@ == command_name(line@),
        r.1@ == command_arguments(line@),
{
    let k = find_ws(line);
    let len = line.unicode_len();
    let name = line.substring_char(0, k);
    if k < len {
        (name, trim_start_from(line, k + 1))
    } else {
        (name, line.substring_char(len, len))
    }
}

/// A line of nothing but whitespace is the empty command, which only shows
/// a new prompt.
pub proof fn lemma_blank_line_is_empty(line: Seq<char>)
    requires
        trim(line).len() == 0,
    ensures
        parsed(line) == (CommandTag::Empty, Seq::<char>::empty()),
{
}

/// The name under which the command table lists each command; empty for
/// `Unknown` and `Empty`, which no name selects.
pub open spec fn name_of_tag(tag: CommandTag) -> Seq<char> {
    match tag {
        CommandTag::Help => "help"@,
        CommandTag::Clear => "clear"@,
        CommandTag::Echo => "echo"@,
        CommandTag::About => "about"@,
        CommandTag::History => "history"@,
        CommandTag::Time => "time"@,
        CommandTag::MemInfo => "meminfo"@,
        CommandTag::SysInfo => "sysinfo"@,
        CommandTag::FbInfo => "fbinfo"@,
        CommandTag::Sleep => "sleep"@,
        CommandTag::Ps => "ps"@,
        CommandTag::Tid => "tid"@,
        CommandTag::Ls => "ls"@,
        CommandTag::Cat => "cat"@,
        CommandTag::Stat => "stat"@,
        CommandTag::Hexdump => "hexdump"@,
        CommandTag::LsPci => "lspci"@,
        CommandTag::Beep => "beep"@,
        CommandTag::Shutdown => "shutdown"@,
        CommandTag::Reboot => "reboot"@,
        CommandTag::Demo => "demo"@,
        CommandTag::Unknown => Seq::empty(),
        CommandTag::Empty => Seq::empty(),
    }
}

/// Every name of the command table selects the command of that name: a line
/// whose first word is such a name parses to that command, which carries the
/// rest of the line (without leading whitespace) if it takes arguments.
pub proof fn lemma_table_names_select_their_command(line: Seq<char>)
    requires
        trim(line).len() > 0,
        command_names().contains(command_name(trim(line))),
    ensures
        name_of_tag(parsed(line).0) == command_name(trim(line)),
        parsed(line).0 != CommandTag::Unknown,
        takes_arguments(parsed(line).0) ==> parsed(line).1 == command_arguments(trim(line)),
        !takes_arguments(parsed(line).0) ==> parsed(line).1 == Seq::<char>::empty(),
{
    lemma_table_names_are_known();
}

/// Each name of the command table is mapped to the command of that name.
proof fn lemma_table_names_are_known()
    ensures
        forall|i: int| 0 <= i < command_names().len() ==> name_of_tag(#[trigger] tag_of_name(command_names()[i]))
            == command_names()[i] && tag_of_name(command_names()[i]) != CommandTag::Unknown,
{
    reveal_strlit("help");
    reveal_strlit("clear");
    reveal_strlit("echo");
    reveal_strlit("about");
    reveal_strlit("history");
    reveal_strlit("time");
    reveal_strlit("meminfo");
    reveal_strlit("sysinfo");
    reveal_strlit("fbinfo");
    reveal_strlit("sleep");
    reveal_strlit("ps");
    reveal_strlit("tid");
    reveal_strlit("ls");
    reveal_strlit("cat");
    reveal_strlit("stat");
    reveal_strlit("hexdump");
    reveal_strlit("lspci");
    reveal_strlit("beep");
    reveal_strlit("shutdown");
    reveal_strlit("reboot");
    reveal_strlit("demo");
    reveal_strlit("uptime");
    reveal_strlit("poweroff");
    assert("help"@[0] != "echo"@[0]);
    assert("help"@[0] != "time"@[0]);
    assert("help"@[0] != "stat"@[0]);
    assert("help"@[0] != "beep"@[0]);
    assert("help"@[0] != "demo"@[0]);
    assert("clear"@[0] != "about"@[0]);
    assert("clear"@[0] != "sleep"@[0]);
    assert("clear"@[0] != "lspci"@[0]);
    assert("echo"@[0] != "time"@[0]);
    assert("echo"@[0] != "stat"@[0]);
    assert("echo"@[0] != "beep"@[0]);
    assert("echo"@[0] != "demo"@[0]);
    assert("about"@[0] != "sleep"@[0]);
    assert("about"@[0] != "lspci"@[0]);
    assert("history"@[0] != "meminfo"@[0]);
    assert("history"@[0] != "sysinfo"@[0]);
    assert("history"@[1] != "hexdump"@[1]);
    assert("time"@[0] != "stat"@[0]);
    assert("time"@[0] != "beep"@[0]);
    assert("time"@[0] != "demo"@[0]);
    assert("meminfo"@[0] != "sysinfo"@[0]);
    assert("meminfo"@[0] != "hexdump"@[0]);
    assert("sysinfo"@[0] != "hexdump"@[0]);
    assert("fbinfo"@[0] != "reboot"@[0]);
    assert("fbinfo"@[0] != "uptime"@[0]);
    assert("sleep"@[0] != "lspci"@[0]);
    assert("ps"@[0] != "ls"@[0]);
    assert("tid"@[0] != "cat"@[0]);
    assert("stat"@[0] != "beep"@[0]);
    assert("stat"@[0] != "demo"@[0]);
    assert("beep"@[0] != "demo"@[0]);
    assert("shutdown"@[0] != "poweroff"@[0]);
    assert("reboot"@[0] != "uptime"@[0]);
    assert(command_names()[0] == "help"@);
    assert(name_of_tag(tag_of_name("help"@)) == "help"@ && tag_of_name("help"@) != CommandTag::Unknown);
    assert(command_names()[1] == "clear"@);
    assert(name_of_tag(tag_of_name("clear"@)) == "clear"@ && tag_of_name("clear"@) != CommandTag::Unknown);
    assert(command_names()[2] == "echo"@);
    assert(name_of_tag(tag_of_name("echo"@)) == "echo"@ && tag_of_name("echo"@) != CommandTag::Unknown);
    assert(command_names()[3] == "about"@);
    assert(name_of_tag(tag_of_name("about"@)) == "about"@ && tag_of_name("about"@) != CommandTag::Unknown);
    assert(command_names()[4] == "history"@);
    assert(name_of_tag(tag_of_name("history"@)) == "history"@ && tag_of_name("history"@) != CommandTag::Unknown);
    assert(command_names()[5] == "time"@);
    assert(name_of_tag(tag_of_name("time"@)) == "time"@ && tag_of_name("time"@) != CommandTag::Unknown);
    assert(command_names()[6] == "meminfo"@);
    assert(name_of_tag(tag_of_name("meminfo"@)) == "meminfo"@ && tag_of_name("meminfo"@) != CommandTag::Unknown);
    assert(command_names()[7] == "sysinfo"@);
    assert(name_of_tag(tag_of_name("sysinfo"@)) == "sysinfo"@ && tag_of_name("sysinfo"@) != CommandTag::Unknown);
    assert(command_names()[8] == "fbinfo"@);
    assert(name_of_tag(tag_of_name("fbinfo"@)) == "fbinfo"@ && tag_of_name("fbinfo"@) != CommandTag::Unknown);
    assert(command_names()[9] == "sleep"@);
    assert(name_of_tag(tag_of_name("sleep"@)) == "sleep"@ && tag_of_name("sleep"@) != CommandTag::Unknown);
    assert(command_names()[10] == "ps"@);
    assert(name_of_tag(tag_of_name("ps"@)) == "ps"@ && tag_of_name("ps"@) != CommandTag::Unknown);
    assert(command_names()[11] == "tid"@);
    assert(name_of_tag(tag_of_name("tid"@)) == "tid"@ && tag_of_name("tid"@) != CommandTag::Unknown);
    assert(command_names()[12] == "ls"@);
    assert(name_of_tag(tag_of_name("ls"@)) == "ls"@ && tag_of_name("ls"@) != CommandTag::Unknown);
    assert(command_names()[13] == "cat"@);
    assert(name_of_tag(tag_of_name("cat"@)) == "cat"@ && tag_of_name("cat"@) != CommandTag::Unknown);
    assert(command_names()[14] == "stat"@);
    assert(name_of_tag(tag_of_name("stat"@)) == "stat"@ && tag_of_name("stat"@) != CommandTag::Unknown);
    assert(command_names()[15] == "hexdump"@);
    assert(name_of_tag(tag_of_name("hexdump"@)) == "hexdump"@ && tag_of_name("hexdump"@) != CommandTag::Unknown);
    assert(command_names()[16] == "lspci"@);
    assert(name_of_tag(tag_of_name("lspci"@)) == "lspci"@ && tag_of_name("lspci"@) != CommandTag::Unknown);
    assert(command_names()[17] == "beep"@);
    assert(name_of_tag(tag_of_name("beep"@)) == "beep"@ && tag_of_name("beep"@) != CommandTag::Unknown);
    assert(command_names()[18] == "shutdown"@);
    assert(name_of_tag(tag_of_name("shutdown"@)) == "shutdown"@ && tag_of_name("shutdown"@) != CommandTag::Unknown);
    assert(command_names()[19] == "reboot"@);
    assert(name_of_tag(tag_of_name("reboot"@)) == "reboot"@ && tag_of_name("reboot"@) != CommandTag::Unknown);
    assert(command_names()[20] == "demo"@);
    assert(name_of_tag(tag_of_name("demo"@)) == "demo"@ && tag_of_name("demo"@) != CommandTag::Unknown);
}

/// `uptime` is another name of `time`, and `poweroff` of `shutdown`. Any other
/// word that is not the name of a command gives `Unknown` with that word, and
/// the rest of the line is ignored.
pub proof fn lemma_aliases_and_unknown_names(line: Seq<char>)
    requires
        trim(line).len() > 0,
    ensures
        command_name(trim(line)) == "uptime"@ ==> parsed(line) == (CommandTag::Time, Seq::<char>::empty()),
        command_name(trim(line)) == "poweroff"@ ==> parsed(line) == (CommandTag::Shutdown, Seq::<char>::empty()),
        !command_names().contains(command_name(trim(line))) && command_name(trim(line)) != "uptime"@
            && command_name(trim(line)) != "poweroff"@ ==> parsed(line) == (CommandTag::Unknown, command_name(trim(line))),
{
    let n = command_name(trim(line));
    lemma_table_names_are_known();
    if !command_names().contains(n) {
        assert(command_names()[0] == "help"@);
        assert(command_names()[1] == "clear"@);
        assert(command_names()[2] == "echo"@);
        assert(command_names()[3] == "about"@);
        assert(command_names()[4] == "history"@);
        assert(command_names()[5] == "time"@);
        assert(command_names()[6] == "meminfo"@);
        assert(command_names()[7] == "sysinfo"@);
        assert(command_names()[8] == "fbinfo"@);
        assert(command_names()[9] == "sleep"@);
        assert(command_names()[10] == "ps"@);
        assert(command_names()[11] == "tid"@);
        assert(command_names()[12] == "ls"@);
        assert(command_names()[13] == "cat"@);
        assert(command_names()[14] == "stat"@);
        assert(command_names()[15] == "hexdump"@);
        assert(command_names()[16] == "lspci"@);
        assert(command_names()[17] == "beep"@);
        assert(command_names()[18] == "shutdown"@);
        assert(command_names()[19] == "reboot"@);
        assert(command_names()[20] == "demo"@);
        assert forall|i: int| 0 <= i < command_names().len() implies command_names()[i] != n by {}
    }
    if n == "uptime"@ || n == "poweroff"@ {
        reveal_strlit("help");
        reveal_strlit("clear");
        reveal_strlit("echo");
        reveal_strlit("about");
        reveal_strlit("history");
        reveal_strlit("time");
        reveal_strlit("meminfo");
        reveal_strlit("sysinfo");
        reveal_strlit("fbinfo");
        reveal_strlit("sleep");
        reveal_strlit("ps");
        reveal_strlit("tid");
        reveal_strlit("ls");
        reveal_strlit("cat");
        reveal_strlit("stat");
        reveal_strlit("hexdump");
        reveal_strlit("lspci");
        reveal_strlit("beep");
        reveal_strlit("shutdown");
        reveal_strlit("reboot");
        reveal_strlit("demo");
        reveal_strlit("uptime");
        reveal_strlit("poweroff");
        assert("uptime"@[0] != "fbinfo"@[0]);
        assert("uptime"@[0] != "reboot"@[0]);
        assert("poweroff"@[0] != "shutdown"@[0]);
        assert(tag_of_name("uptime"@) == CommandTag::Time);
        lemma_poweroff();
    }
}

proof fn lemma_poweroff()
    ensures
        tag_of_name("poweroff"@) == CommandTag::Shutdown,
{
    reveal_strlit("help");
    reveal_strlit("clear");
    reveal_strlit("echo");
    reveal_strlit("about");
    reveal_strlit("history");
    reveal_strlit("time");
    reveal_strlit("meminfo");
    reveal_strlit("sysinfo");
    reveal_strlit("fbinfo");
    reveal_strlit("sleep");
    reveal_strlit("ps");
    reveal_strlit("tid");
    reveal_strlit("ls");
    reveal_strlit("cat");
    reveal_strlit("stat");
    reveal_strlit("hexdump");
    reveal_strlit("lspci");
    reveal_strlit("beep");
    reveal_strlit("shutdown");
    reveal_strlit("reboot");
    reveal_strlit("demo");
    reveal_strlit("uptime");
    reveal_strlit("poweroff");
    assert("poweroff"@.len() != "help"@.len() || "poweroff"@[0] != "help"@[0]);
    assert("poweroff"@.len() != "clear"@.len() || "poweroff"@[0] != "clear"@[0]);
    assert("poweroff"@.len() != "echo"@.len() || "poweroff"@[0] != "echo"@[0]);
    assert("poweroff"@.len() != "about"@.len() || "poweroff"@[0] != "about"@[0]);
    assert("poweroff"@.len() != "history"@.len() || "poweroff"@[0] != "history"@[0]);
    assert("poweroff"@.len() != "time"@.len() || "poweroff"@[0] != "time"@[0]);
    assert("poweroff"@.len() != "meminfo"@.len() || "poweroff"@[0] != "meminfo"@[0]);
    assert("poweroff"@.len() != "sysinfo"@.len() || "poweroff"@[0] != "sysinfo"@[0]);
    assert("poweroff"@.len() != "fbinfo"@.len() || "poweroff"@[0] != "fbinfo"@[0]);
    assert("poweroff"@.len() != "sleep"@.len() || "poweroff"@[0] != "sleep"@[0]);
    assert("poweroff"@.len() != "ps"@.len() || "poweroff"@[0] != "ps"@[0]);
    assert("poweroff"@.len() != "tid"@.len() || "poweroff"@[0] != "tid"@[0]);
    assert("poweroff"@.len() != "ls"@.len() || "poweroff"@[0] != "ls"@[0]);
    assert("poweroff"@.len() != "cat"@.len() || "poweroff"@[0] != "cat"@[0]);
    assert("poweroff"@.len() != "stat"@.len() || "poweroff"@[0] != "stat"@[0]);
    assert("poweroff"@.len() != "hexdump"@.len() || "poweroff"@[0] != "hexdump"@[0]);
    assert("poweroff"@.len() != "lspci"@.len() || "poweroff"@[0] != "lspci"@[0]);
    assert("poweroff"@.len() != "beep"@.len() || "poweroff"@[0] != "beep"@[0]);
    assert("poweroff"@.len() != "reboot"@.len() || "poweroff"@[0] != "reboot"@[0]);
    assert("poweroff"@.len() != "demo"@.len() || "poweroff"@[0] != "demo"@[0]);
    assert("poweroff"@[0] != "shutdown"@[0]);
}

/// `ws_index` is the position of the first whitespace character.
proof fn lemma_ws_index_is_first(s: Seq<char>)
    ensures
        ws_index(s) <= s.len(),
        forall|i: int| 0 <= i < ws_index(s) ==> !is_ws(#[trigger] s[i]),
        ws_index(s) < s.len() ==> is_ws(s[ws_index(s) as int]),
    decreases s.len(),
{
    if s.len() > 0 && !is_ws(s[0]) {
        let t = s.drop_first();
        lemma_ws_index_is_first(t);
        assert forall|i: int| 0 <= i < ws_index(s) implies !is_ws(#[trigger] s[i]) by {
            if i > 0 {
                assert(s[i] == t[i - 1]);
            }
        }
        if ws_index(s) < s.len() {
            assert(s[ws_index(s) as int] == t[ws_index(t) as int]);
        }
    }
}

/// `trim_start` drops exactly the leading whitespace.
proof fn lemma_trim_start_drops_leading_ws(s: Seq<char>)
    ensures
        exists|k: int| #![trigger s.subrange(k, s.len() as int)]
            0 <= k <= s.len() && trim_start(s) == s.subrange(k, s.len() as int) && (forall|i: int|
                0 <= i < k ==> is_ws(#[trigger] s[i])) && (k < s.len() ==> !is_ws(s[k])),
    decreases s.len(),
{
    if s.len() > 0 && is_ws(s[0]) {
        let t = s.drop_first();
        lemma_trim_start_drops_leading_ws(t);
        let k = choose|k: int| #![trigger t.subrange(k, t.len() as int)]
            0 <= k <= t.len() && trim_start(t) == t.subrange(k, t.len() as int) && (forall|i: int|
                0 <= i < k ==> is_ws(#[trigger] t[i])) && (k < t.len() ==> !is_ws(t[k]));
        assert(t.subrange(k, t.len() as int) =~= s.subrange(k + 1, s.len() as int));
        assert forall|i: int| 0 <= i < k + 1 implies is_ws(#[trigger] s[i]) by {
            if i > 0 {
                assert(s[i] == t[i - 1]);
            }
        }
        if k + 1 < s.len() {
            assert(s[k + 1] == t[k]);
        }
    } else {
        assert(s.subrange(0, s.len() as int) =~= s);
    }
}

/// How a trimmed line splits into the command name and its arguments: the
/// name is the line up to its first whitespace character and holds none; the
/// arguments are the rest of the line after the whitespace that follows the
/// name, so they do not start with whitespace, and they are empty if the line
/// is a single word.
pub proof fn lemma_name_and_arguments(t: Seq<char>)
    ensures
        command_name(t).len() <= t.len(),
        command_name(t) == t.subrange(0, command_name(t).len() as int),
        forall|i: int| 0 <= i < command_name(t).len() ==> !is_ws(#[trigger] command_name(t)[i]),
        command_name(t).len() < t.len() ==> is_ws(t[command_name(t).len() as int]),
        command_name(t).len() == t.len() ==> command_arguments(t) == Seq::<char>::empty(),
        exists|j: int| #![trigger t.subrange(j, t.len() as int)]
            command_name(t).len() <= j <= t.len() && command_arguments(t) == t.subrange(j, t.len() as int) && (
            forall|i: int| command_name(t).len() <= i < j ==> is_ws(#[trigger] t[i])),
        command_arguments(t).len() > 0 ==> !is_ws(command_arguments(t)[0]),
{
    lemma_ws_index_is_first(t);
    let w = ws_index(t) as int;
    assert(command_name(t).len() == w);
    assert forall|i: int| 0 <= i < w implies !is_ws(#[trigger] command_name(t)[i]) by {
        assert(command_name(t)[i] == t[i]);
    }
    if w < t.len() {
        let u = t.subrange(w + 1, t.len() as int);
        lemma_trim_start_drops_leading_ws(u);
        let k = choose|k: int| #![trigger u.subrange(k, u.len() as int)]
            0 <= k <= u.len() && trim_start(u) == u.subrange(k, u.len() as int) && (forall|i: int|
                0 <= i < k ==> is_ws(#[trigger] u[i])) && (k < u.len() ==> !is_ws(u[k]));
        let j = w + 1 + k;
        assert(u.subrange(k, u.len() as int) =~= t.subrange(j, t.len() as int));
        assert forall|i: int| w <= i < j implies is_ws(#[trigger] t[i]) by {
            if i > w {
                assert(t[i] == u[i - w - 1]);
            }
        }
        if command_arguments(t).len() > 0 {
            assert(command_arguments(t)[0] == u[k]);
        }
    } else {
        assert(t.subrange(t.len() as int, t.len() as int) =~= Seq::<char>::empty());
    }
}

} // verus!
