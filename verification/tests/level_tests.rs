use arboretum::level::Level;
use arboretum::otlp::severity_to_level;

#[test]
fn test_level_from_severity() {
    assert_eq!(Level::from_severity(2), Some(Level::Trace));
    assert_eq!(Level::from_severity(5), Some(Level::Debug));
    assert_eq!(Level::from_severity(9), Some(Level::Info));
    assert_eq!(Level::from_severity(13), Some(Level::Warn));
    assert_eq!(Level::from_severity(17), Some(Level::Error));
    assert_eq!(Level::from_severity(21), Some(Level::Fatal));
    assert_eq!(Level::from_severity(0), None);
    assert_eq!(Level::from_severity(100), None);
}

#[test]
fn test_level_from_str() {
    assert_eq!("TRACE".parse::<Level>().unwrap(), Level::Trace);
    assert_eq!("DEBUG".parse::<Level>().unwrap(), Level::Debug);
    assert_eq!("INFO".parse::<Level>().unwrap(), Level::Info);
    assert_eq!("WARN".parse::<Level>().unwrap(), Level::Warn);
    assert_eq!("WARNING".parse::<Level>().unwrap(), Level::Warn);
    assert_eq!("ERROR".parse::<Level>().unwrap(), Level::Error);
    assert_eq!("FATAL".parse::<Level>().unwrap(), Level::Fatal);
    assert_eq!("info".parse::<Level>().unwrap(), Level::Info);
    assert!("INVALID".parse::<Level>().is_err());
}

#[test]
fn test_level_display() {
    assert_eq!(Level::Info.to_string(), "INFO");
    assert_eq!(Level::Error.to_string(), "ERROR");
}

#[test]
fn test_level_ordering() {
    assert!(Level::Trace < Level::Debug);
    assert!(Level::Debug < Level::Info);
    assert!(Level::Info < Level::Warn);
    assert!(Level::Warn < Level::Error);
    assert!(Level::Error < Level::Fatal);
}

#[test]
fn test_severity_to_level() {
    assert_eq!(severity_to_level(2), Some(Level::Trace));
    assert_eq!(severity_to_level(5), Some(Level::Debug));
    assert_eq!(severity_to_level(9), Some(Level::Info));
    assert_eq!(severity_to_level(13), Some(Level::Warn));
    assert_eq!(severity_to_level(17), Some(Level::Error));
    assert_eq!(severity_to_level(21), Some(Level::Fatal));
}

#[test]
fn severity_range_edges() {
    assert_eq!(Level::from_severity(1), Some(Level::Trace));
    assert_eq!(Level::from_severity(4), Some(Level::Trace));
    assert_eq!(Level::from_severity(8), Some(Level::Debug));
    assert_eq!(Level::from_severity(12), Some(Level::Info));
    assert_eq!(Level::from_severity(16), Some(Level::Warn));
    assert_eq!(Level::from_severity(20), Some(Level::Error));
    assert_eq!(Level::from_severity(24), Some(Level::Fatal));
    assert_eq!(Level::from_severity(25), None);
    assert_eq!(Level::from_severity(-3), None);
}

#[test]
fn level_names_round_trip() {
    let all = [Level::Trace, Level::Debug, Level::Info, Level::Warn, Level::Error, Level::Fatal];
    for l in all {
        assert_eq!(l.as_str().parse::<Level>().unwrap(), l);
        assert_eq!(l.to_string(), l.as_str());
        assert_eq!(Level::from_int(l.to_int()), Some(l));
        assert_eq!(l.as_str().to_lowercase().parse::<Level>().unwrap(), l);
    }
    assert_eq!(Level::Trace.as_str(), "TRACE");
    assert_eq!(Level::Fatal.as_str(), "FATAL");
}

#[test]
fn level_ranks_as_integers() {
    assert_eq!(Level::Trace.to_int(), 0);
    assert_eq!(Level::Warn.to_int(), 3);
    assert_eq!(Level::Fatal.to_int(), 5);
    assert_eq!(Level::from_int(6), None);
    assert_eq!(Level::from_int(-1), None);
}

#[test]
fn level_parse_any_case_and_error_message() {
    assert_eq!("Warning".parse::<Level>().unwrap(), Level::Warn);
    assert_eq!("fAtAl".parse::<Level>().unwrap(), Level::Fatal);
    assert_eq!(Level::parse_name("verbose"), Err("Invalid level: verbose".to_string()));
    assert_eq!(Level::parse_name(""), Err("Invalid level: ".to_string()));
    assert!(Level::parse_name(" info").is_err());
}

#[test]
fn level_at_least() {
    assert!(Level::Error.is_at_least(&Level::Warn));
    assert!(Level::Warn.is_at_least(&Level::Warn));
    assert!(!Level::Info.is_at_least(&Level::Warn));
}
