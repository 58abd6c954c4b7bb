//! The shell commands. Each command validates its arguments here and yields
//! what has to be done; printing and the device access happen outside.
pub mod filesystem;
pub mod general;
pub mod hardware;
pub mod system;
pub mod threads;

use vstd::prelude::*;
use crate::shell::parser::{Command, CommandTag};
use crate::text::{trim, trim_str};
use self::general::{help_answer, HelpRequest};
use self::hardware::{beep_request, lspci_mode, BeepError, LspciMode};
use self::system::{sleep_request, SleepError};

verus! {

/// What the shell does for a command, with its arguments validated.
pub enum Action<'a> {
    /// Show the help overview or the help of one command.
    Help(HelpRequest<'a>),
    /// Clear the terminal.
    Clear,
    /// Print the text.
    Echo(&'a str),
    /// Show information about HeineOS.
    About,
    /// Show the stored command history.
    History,
    /// Open the demo menu.
    Demo,
    /// Show the system uptime.
    Time,
    /// Show the heap statistics.
    MemInfo,
    /// Show the system overview.
    SysInfo,
    /// Show the framebuffer and terminal size.
    FbInfo,
    /// Wait for the given number of milliseconds, or report why not; holds the
    /// trimmed argument for the messages.
    Sleep(&'a str, Result<usize, SleepError>),
    /// Shut the machine down.
    Shutdown,
    /// Reboot the machine.
    Reboot,
    /// List the threads.
    Ps,
    /// Show the current thread ID.
    Tid,
    /// List the directory at the path.
    Ls(&'a str),
    /// Print the file at the path; `None` shows the usage.
    Cat(Option<&'a str>),
    /// Show the metadata of the path; `None` shows the usage.
    Stat(Option<&'a str>),
    /// Dump the file at the path; `None` shows the usage.
    Hexdump(Option<&'a str>),
    /// List the PCI devices in the given mode.
    LsPci(LspciMode),
    /// Play a tone of (frequency, duration), or report why not; holds the
    /// trimmed arguments for the messages.
    Beep(&'a str, Result<(usize, usize), BeepError>),
    /// Report the unknown command name.
    Unknown(&'a str),
    /// Nothing: the line was empty.
    Nothing,
}

/// The path a file command works on: its trimmed argument, if not empty.
pub open spec fn path_argument(p: Option<&str>, argument: Seq<char>) -> bool {
    if trim(argument).len() == 0 {
        p is None
    } else {
        p matches Some(x) && x@ == trim(argument)
    }
}

/// Decide what to do for a parsed command. Arguments are validated here, so
/// invalid input leads to a message and never to a failure.
pub fn execute<'a>(command: Command<'a>) -> (r: Action<'a>)
    ensures
        command.tag() == CommandTag::Help ==> (r matches Action::Help(h) && help_answer(h, command.payload())),
        command.tag() == CommandTag::Clear ==> r is Clear,
        command.tag() == CommandTag::Echo ==> (r matches Action::Echo(t) && t@ == command.payload()),
        command.tag() == CommandTag::About ==> r is About,
        command.tag() == CommandTag::History ==> r is History,
        command.tag() == CommandTag::Demo ==> r is Demo,
        command.tag() == CommandTag::Time ==> r is Time,
        command.tag() == CommandTag::MemInfo ==> r is MemInfo,
        command.tag() == CommandTag::SysInfo ==> r is SysInfo,
        command.tag() == CommandTag::FbInfo ==> r is FbInfo,
        command.tag() == CommandTag::Sleep ==> (r matches Action::Sleep(t, s) && t@ == trim(command.payload()) && s
            == sleep_request(command.payload())),
        command.tag() == CommandTag::Shutdown ==> r is Shutdown,
        command.tag() == CommandTag::Reboot ==> r is Reboot,
        command.tag() == CommandTag::Ps ==> r is Ps,
        command.tag() == CommandTag::Tid ==> r is Tid,
        command.tag() == CommandTag::Ls ==> (r matches Action::Ls(p) && (if trim(command.payload()).len() == 0 {
            p@ == seq!['/']
        } else {
            p@ == trim(command.payload())
        })),
        command.tag() == CommandTag::Cat ==> (r matches Action::Cat(p) && path_argument(p, command.payload())),
        command.tag() == CommandTag::Stat ==> (r matches Action::Stat(p) && path_argument(p, command.payload())),
        command.tag() == CommandTag::Hexdump ==> (r matches Action::Hexdump(p) && path_argument(p, command.payload())),
        command.tag() == CommandTag::LsPci ==> (r matches Action::LsPci(m) && m == lspci_mode(command.payload())),
        command.tag() == CommandTag::Beep ==> (r matches Action::Beep(t, b) && t@ == trim(command.payload()) && b
            == beep_request(command.payload())),
        command.tag() == CommandTag::Unknown ==> (r matches Action::Unknown(n) && n@ == command.payload()),
        command.tag() == CommandTag::Empty ==> r is Nothing,
{
    match command {
        Command::Help(argument) => Action::Help(general::help(argument)),
        Command::Clear => Action::Clear,
        Command::Echo(text) => Action::Echo(text),
        Command::About => Action::About,
        Command::History => Action::History,
        Command::Demo => Action::Demo,
        Command::Time => Action::Time,
        Command::MemInfo => Action::MemInfo,
        Command::SysInfo => Action::SysInfo,
        Command::FbInfo => Action::FbInfo,
        Command::Sleep(argument) => Action::Sleep(trim_str(argument), system::sleep(argument)),
        Command::Shutdown => Action::Shutdown,
        Command::Reboot => Action::Reboot,
        Command::Ps => Action::Ps,
        Command::Tid => Action::Tid,
        Command::Ls(argument) => Action::Ls(filesystem::ls_path(argument)),
        Command::Cat(argument) => Action::Cat(filesystem::require_path(argument)),
        Command::Stat(argument) => Action::Stat(filesystem::require_path(argument)),
        Command::Hexdump(argument) => Action::Hexdump(filesystem::require_path(argument)),
        Command::LsPci(options) => Action::LsPci(hardware::lspci(options)),
        Command::Beep(arguments) => Action::Beep(trim_str(arguments), hardware::beep(arguments)),
        Command::Unknown(name) => Action::Unknown(name),
        Command::Empty => Action::Nothing,
    }
}

} // verus!
