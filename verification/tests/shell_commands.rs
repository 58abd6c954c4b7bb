use heineos::device::key::{KeyEvent, Scancode, CTRL_LEFT, CTRL_RIGHT};
use heineos::filesystem::tarfs::{DirectoryEntry, FileType};
use heineos::shell::commands::filesystem::{hex_line, ls_line, ls_path, printable, require_path, sanitized, truncation_note};
use heineos::shell::commands::threads::ps_line;
use heineos::thread::scheduler::{ThreadInfo, ThreadState};
use heineos::shell::commands::general::{about_lines, help, history_line, overview_lines, HelpRequest};
use heineos::shell::commands::hardware::{beep, lspci, parse_number, BeepError, LspciMode, NumberError};
use heineos::shell::commands::system::{sleep, split_uptime, uptime_text, SleepError};
use heineos::shell::commands::{execute, Action};
use heineos::shell::history::History;
use heineos::shell::input::{page_size, EditAction, LineEditor, ReadLineResult, Shortcut};
use heineos::shell::parser::{parse, split_command, Command};
use heineos::shell::registry::{common_prefix_length, commands, completions, find, longest_common_prefix, shortcuts};

fn key(scancode: Scancode, ascii: Option<char>) -> KeyEvent {
    KeyEvent { scancode: Some(scancode), ascii, pressed: true, modifiers: 0 }
}

fn ctrl(scancode: Scancode, modifiers: u8) -> KeyEvent {
    KeyEvent { scancode: Some(scancode), ascii: None, pressed: true, modifiers }
}

#[test]
fn parse_commands_with_arguments() {
    assert!(matches!(parse("  echo   hello world  "), Command::Echo("hello world")));
    assert!(matches!(parse("help"), Command::Help("")));
    assert!(matches!(parse("help ls"), Command::Help("ls")));
    assert!(matches!(parse("ls"), Command::Ls("")));
    assert!(matches!(parse("cat /roms/a.txt"), Command::Cat("/roms/a.txt")));
    assert!(matches!(parse("beep 440 100"), Command::Beep("440 100")));
    assert!(matches!(parse("clear extra"), Command::Clear));
}

#[test]
fn parse_aliases() {
    assert!(matches!(parse("uptime"), Command::Time));
    assert!(matches!(parse("time"), Command::Time));
    assert!(matches!(parse("poweroff"), Command::Shutdown));
    assert!(matches!(parse("shutdown"), Command::Shutdown));
}

#[test]
fn parse_empty_and_unknown() {
    assert!(matches!(parse(""), Command::Empty));
    assert!(matches!(parse(" \t "), Command::Empty));
    assert!(matches!(parse("frobnicate now"), Command::Unknown("frobnicate")));
    assert!(matches!(parse("HELP"), Command::Unknown("HELP")));
}

#[test]
fn split_name_and_arguments() {
    assert_eq!(split_command("echo  a b"), ("echo", "a b"));
    assert_eq!(split_command("ls"), ("ls", ""));
}

#[test]
fn registry_lookup() {
    assert_eq!(commands().len(), 21);
    assert_eq!(find("hexdump").map(|c| c.name), Some("hexdump"));
    assert!(find("hex").is_none());
    assert!(find("uptime").is_none());
    assert!(!shortcuts().is_empty());
}

#[test]
fn completion_candidates() {
    let names: Vec<&str> = completions("s").iter().map(|c| c.name).collect();
    assert_eq!(names, vec!["sysinfo", "sleep", "stat", "shutdown"]);
    let names: Vec<&str> = completions("he").iter().map(|c| c.name).collect();
    assert_eq!(names, vec!["help", "hexdump"]);
    assert!(completions("zz").is_empty());
    assert_eq!(completions("").len(), 21);
}

#[test]
fn longest_prefix_of_candidates() {
    assert_eq!(longest_common_prefix(&completions("he")), "he");
    assert_eq!(longest_common_prefix(&completions("his")), "history");
    assert_eq!(longest_common_prefix(&completions("s")), "s");
    assert_eq!(longest_common_prefix(&[]), "");
    assert_eq!(common_prefix_length("sleep", "sleepy"), 5);
    assert_eq!(common_prefix_length("abc", "xbc"), 0);
}

#[test]
fn history_is_bounded_and_deduplicated() {
    let mut history = History::new();
    history.push("  ls  ");
    history.push("ls");
    history.push("   ");
    history.push("cat a");
    assert_eq!(history.len(), 2);
    assert_eq!(history.get(0), Some("cat a"));
    assert_eq!(history.get(1), Some("ls"));
    assert_eq!(history.get(2), None);
    for i in 0..40 {
        history.push(&format!("echo {}", i));
    }
    assert_eq!(history.len(), 32);
    assert_eq!(history.get(0), Some("echo 39"));
    assert_eq!(history.iter()[0], "echo 8");
}

#[test]
fn line_editor_types_and_submits() {
    let history = History::new();
    let mut editor = LineEditor::new(&history);
    let (actions, done) = editor.handle_key(&key(Scancode::L, Some('l')), 5);
    assert!(done.is_none());
    assert!(matches!(actions.as_slice(), [EditAction::Print(s)] if s == "l"));
    editor.handle_key(&key(Scancode::S, Some('s')), 5);
    let (actions, _) = editor.handle_key(&key(Scancode::Backspace, None), 5);
    assert!(matches!(actions.as_slice(), [EditAction::Erase(1)]));
    let (_, done) = editor.handle_key(&key(Scancode::Enter, Some('\r')), 5);
    assert!(matches!(done, Some(ReadLineResult::Line(ref l)) if l == "l"));
}

#[test]
fn line_editor_ctrl_c_interrupts() {
    let history = History::new();
    let mut editor = LineEditor::new(&history);
    editor.handle_key(&key(Scancode::E, Some('e')), 5);
    let (actions, done) = editor.handle_key(&ctrl(Scancode::C, CTRL_RIGHT), 5);
    assert!(matches!(done, Some(ReadLineResult::Interrupted)));
    assert!(matches!(actions.as_slice(), [EditAction::Print(s)] if s == "^C\n"));
}

#[test]
fn line_editor_recalls_history() {
    let mut history = History::new();
    history.push("ls");
    history.push("ps");
    let mut editor = LineEditor::new(&history);
    editor.handle_key(&key(Scancode::X, Some('x')), 5);
    editor.handle_key(&key(Scancode::Up, None), 5);
    let (actions, _) = editor.handle_key(&key(Scancode::Up, None), 5);
    assert!(matches!(actions.as_slice(), [EditAction::Erase(2), EditAction::Print(s)] if s == "ls"));
    editor.handle_key(&key(Scancode::Down, None), 5);
    let (actions, _) = editor.handle_key(&key(Scancode::Down, None), 5);
    assert!(matches!(actions.as_slice(), [EditAction::Erase(2), EditAction::Print(s)] if s == "x"));
    let (_, done) = editor.handle_key(&key(Scancode::Enter, None), 5);
    assert!(matches!(done, Some(ReadLineResult::Line(ref l)) if l == "x"));
}

#[test]
fn line_editor_completes_unique_name() {
    let history = History::new();
    let mut editor = LineEditor::new(&history);
    editor.handle_key(&key(Scancode::H, Some('h')), 5);
    editor.handle_key(&key(Scancode::I, Some('i')), 5);
    let (actions, _) = editor.handle_key(&key(Scancode::Tab, None), 5);
    assert!(matches!(actions.as_slice(), [EditAction::Erase(2), EditAction::Print(s)] if s == "history"));
    assert_eq!(editor.into_line(), "history");
}

#[test]
fn shortcuts_are_recognized_from_ctrl() {
    assert_eq!(Shortcut::from_event(&ctrl(Scancode::L, CTRL_LEFT), 10), Some(Shortcut::ClearScreen));
    assert_eq!(Shortcut::from_event(&ctrl(Scancode::PageUp, CTRL_LEFT), 10), Some(Shortcut::ScrollUp(10)));
    assert_eq!(Shortcut::from_event(&ctrl(Scancode::Down, CTRL_RIGHT), 10), Some(Shortcut::ScrollDown(1)));
    assert_eq!(Shortcut::from_event(&key(Scancode::Up, None), 10), None);
    assert_eq!(page_size(30), 29);
    assert_eq!(page_size(1), 1);
    assert_eq!(page_size(0), 1);
}

#[test]
fn uptime_is_split_and_formatted() {
    assert_eq!(split_uptime(3_723_004), (1, 2, 3, 4));
    assert_eq!(split_uptime(0), (0, 0, 0, 0));
    assert_eq!(uptime_text(3_723_004), "01:02:03.004");
    assert_eq!(uptime_text(360_000_000), "100:00:00.000");
}

#[test]
fn sleep_argument_is_validated() {
    assert_eq!(sleep(" 250 "), Ok(250));
    assert_eq!(sleep(""), Err(SleepError::Usage));
    assert_eq!(sleep("soon"), Err(SleepError::Invalid));
    assert_eq!(sleep("0"), Err(SleepError::OutOfRange));
    assert_eq!(sleep("10001"), Err(SleepError::OutOfRange));
    assert_eq!(sleep("10000"), Ok(10000));
}

#[test]
fn beep_arguments_are_validated() {
    assert_eq!(beep("440 100"), Ok((440, 100)));
    assert_eq!(beep("  440   100 "), Ok((440, 100)));
    assert_eq!(beep("440"), Err(BeepError::Usage));
    assert_eq!(beep(""), Err(BeepError::Usage));
    assert_eq!(beep("440 100 1"), Err(BeepError::Usage));
    assert_eq!(beep("x 100"), Err(BeepError::Frequency(NumberError::Invalid)));
    assert_eq!(beep("19 100"), Err(BeepError::Frequency(NumberError::OutOfRange)));
    assert_eq!(beep("440 0"), Err(BeepError::Duration(NumberError::OutOfRange)));
    assert_eq!(beep("440 5001"), Err(BeepError::Duration(NumberError::OutOfRange)));
    assert_eq!(parse_number("20000", 20, 20000), Ok(20000));
}

#[test]
fn lspci_options() {
    assert_eq!(lspci(""), LspciMode::List);
    assert_eq!(lspci(" -v "), LspciMode::Verbose);
    assert_eq!(lspci("-x"), LspciMode::Usage);
}

#[test]
fn help_requests() {
    assert!(matches!(help(""), HelpRequest::Overview));
    assert!(matches!(help("ls extra"), HelpRequest::Command(c) if c.name == "ls"));
    assert!(matches!(help("nope"), HelpRequest::NoHelp("nope")));
}

#[test]
fn execute_validates_arguments() {
    assert!(matches!(execute(parse("ls")), Action::Ls("/")));
    assert!(matches!(execute(parse("ls roms")), Action::Ls("roms")));
    assert!(matches!(execute(parse("cat")), Action::Cat(None)));
    assert!(matches!(execute(parse("stat  a.txt")), Action::Stat(Some("a.txt"))));
    assert!(matches!(execute(parse("sleep 5")), Action::Sleep("5", Ok(5))));
    assert!(matches!(execute(parse("beep 1 1")), Action::Beep("1 1", Err(BeepError::Frequency(NumberError::OutOfRange)))));
    assert!(matches!(execute(parse("lspci -v")), Action::LsPci(LspciMode::Verbose)));
    assert!(matches!(execute(parse("what")), Action::Unknown("what")));
    assert!(matches!(execute(parse("")), Action::Nothing));
    assert!(matches!(execute(parse("echo hi")), Action::Echo("hi")));
}

#[test]
fn file_command_paths() {
    assert_eq!(ls_path("  "), "/");
    assert_eq!(ls_path(" roms "), "roms");
    assert_eq!(require_path(""), None);
    assert_eq!(require_path(" x "), Some("x"));
}

#[test]
fn hexdump_lines() {
    assert_eq!(printable(b'A'), 'A');
    assert_eq!(printable(0x7f), '.');
    assert_eq!(printable(b'\n'), '.');
    assert_eq!(
        hex_line(16, b"Hi\n"),
        "00000010  48 69 0a                                         |Hi.|"
    );
    assert_eq!(
        hex_line(0, b"0123456789abcdef"),
        "00000000  30 31 32 33 34 35 36 37 38 39 61 62 63 64 65 66  |0123456789abcdef|"
    );
}

#[test]
fn help_overview_is_generated_from_the_tables() {
    let lines = overview_lines();
    assert_eq!(lines[0], "");
    assert_eq!(lines[1], "Available commands:");
    assert_eq!(lines[2], "");
    assert_eq!(lines[3], "General:");
    assert_eq!(lines[4], format!("  {:18} {}", "help [command]", "Show available commands"));
    assert_eq!(lines.last().map(|s| s.as_str()), Some(""));
    assert_eq!(lines[lines.len() - 2], "Type 'help <command>' for more information about a single command.");
    assert!(lines.contains(&format!("  {:18} {}", "Backspace", "Delete the previous character")));
    let headings = lines.iter().filter(|l| l.ends_with(':') && !l.starts_with(' ')).count();
    assert!(headings >= 3);
}

#[test]
fn listing_history_and_thread_lines() {
    let dir = DirectoryEntry { name: String::from("roms"), size: 0, file_type: FileType::Directory };
    assert_eq!(ls_line(&dir), format!("  {:24} <dir>", "roms/"));
    let file = DirectoryEntry { name: String::from("top.txt"), size: 5, file_type: FileType::File };
    assert_eq!(ls_line(&file), "  top.txt                  5 bytes");
    let long = DirectoryEntry { name: "x".repeat(30), size: 12, file_type: FileType::File };
    assert_eq!(ls_line(&long), format!("  {} 12 bytes", "x".repeat(30)));
    assert_eq!(history_line(7, "ls"), "    7  ls");
    assert_eq!(history_line(1234, "ps"), "  1234  ps");
    assert_eq!(ps_line(&ThreadInfo { id: 3, state: ThreadState::Running }), "  3     running");
    assert_eq!(ps_line(&ThreadInfo { id: 123456, state: ThreadState::Ready }), "  123456 ready");
}

#[test]
fn backspace_on_empty_line_does_nothing() {
    let history = History::new();
    let mut editor = LineEditor::new(&history);
    let (actions, done) = editor.handle_key(&key(Scancode::Backspace, None), 5);
    assert!(actions.is_empty());
    assert!(done.is_none());
    editor.handle_key(&key(Scancode::A, Some('a')), 5);
    editor.handle_key(&key(Scancode::B, Some('b')), 5);
    editor.handle_key(&key(Scancode::Backspace, None), 5);
    editor.handle_key(&key(Scancode::Backspace, None), 5);
    assert_eq!(editor.into_line(), "");
}

#[test]
fn binary_files_are_shown_sanitized() {
    assert_eq!(sanitized(&[b'a', 0x00, b'\t', b'b', b'\n', 0xff, b'~']), "a. b\n.~");
    assert_eq!(sanitized(&[]), "");
}

#[test]
fn truncation_is_noted() {
    assert_eq!(truncation_note(512, 2048), Some("-- truncated: showing 512 of 2048 bytes --".to_string()));
    assert_eq!(truncation_note(10, 10), None);
}

#[test]
fn about_text_lines() {
    assert_eq!(
        about_lines(),
        vec!["", "HeineOS", "Educational x86-64 operating system written in Rust.", "Shell developed for Lesson 7 - Operating System Development.", ""]
    );
}

#[test]
fn completions_carry_their_table_rows() {
    let found = completions("hel");
    assert_eq!(found.len(), 1);
    assert_eq!(found[0].name, "help");
    assert_eq!(found[0].usage, "help [command]");
    assert_eq!(found[0].description, "Show available commands");
    assert_eq!(completions("").len(), commands().len());
}

#[test]
fn found_commands_carry_their_help_lines() {
    let ls = find("ls").unwrap();
    assert_eq!(ls.usage, "ls [path]");
    assert_eq!(
        ls.help,
        &[
            "ls - List the contents of a directory",
            "",
            "Usage:",
            "  ls          List the root directory",
            "  ls <path>   List the given directory",
            "",
            "Directories are marked with a trailing slash.",
        ]
    );
    assert_eq!(completions("ls")[0].help, ls.help);
}
