use tsconcat::level::{level_for_verbosity, level_from_lowercase, level_from_str, Level};

#[test]
fn level_names_any_case() {
    assert_eq!(level_from_str("INFO"), Ok(Level::Info));
    assert_eq!(level_from_str("Trace"), Ok(Level::Trace));
    assert_eq!(level_from_str("debug"), Ok(Level::Debug));
    assert_eq!(level_from_str("WaRn"), Ok(Level::Warn));
    assert_eq!(level_from_str("ERROR"), Ok(Level::Error));
    assert_eq!(level_from_str("OFF"), Ok(Level::Off));
}

#[test]
fn unknown_level_is_error() {
    assert!(level_from_str("verbose").is_err());
    assert!(level_from_str("").is_err());
}

#[test]
fn lowercase_names_only() {
    assert_eq!(level_from_lowercase(&"warn".to_string()), Ok(Level::Warn));
    assert!(level_from_lowercase(&"WARN".to_string()).is_err());
}

#[test]
fn verbosity_levels() {
    assert_eq!(level_for_verbosity(0), Level::Warn);
    assert_eq!(level_for_verbosity(1), Level::Info);
    assert_eq!(level_for_verbosity(2), Level::Debug);
    assert_eq!(level_for_verbosity(3), Level::Trace);
    assert_eq!(level_for_verbosity(255), Level::Trace);
}
