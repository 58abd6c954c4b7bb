use heineos::logger::{level_abbreviation, level_from_abbreviation, log_prefix, Level, Logger};

#[test]
fn abbreviations_name_levels() {
    assert_eq!(level_from_abbreviation("TRC"), Some(Level::Trace));
    assert_eq!(level_from_abbreviation("dbg"), Some(Level::Debug));
    assert_eq!(level_from_abbreviation("INF"), Some(Level::Info));
    assert_eq!(level_from_abbreviation("wrn"), Some(Level::Warn));
    assert_eq!(level_from_abbreviation("ERR"), Some(Level::Error));
    assert_eq!(level_from_abbreviation("Err"), None);
    assert_eq!(level_from_abbreviation("INFO"), None);
    assert_eq!(level_from_abbreviation(""), None);
}

#[test]
fn abbreviation_round_trip() {
    for level in [Level::Trace, Level::Debug, Level::Info, Level::Warn, Level::Error] {
        assert_eq!(level_from_abbreviation(level_abbreviation(level)), Some(level));
    }
}

#[test]
fn prefix_holds_time_level_and_location() {
    assert_eq!(log_prefix(12345, Level::Info, "boot.rs", 42), "[12.345] [INF] [boot.rs@42] : ");
    assert_eq!(log_prefix(7, Level::Error, "a.rs", 0), "[0.007] [ERR] [a.rs@0] : ");
}

#[test]
fn terminal_logging_switch() {
    let mut logger = Logger::new();
    assert!(!logger.terminal_logging());
    logger.enable_terminal_logging(true);
    assert!(logger.terminal_logging());
    logger.enable_terminal_logging(false);
    assert!(!logger.terminal_logging());
}
