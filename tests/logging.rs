use prom_scrape::logging::{convert_to_level, level_from_lowercase, LogLevel};

#[test]
fn test_convert_to_level() {
    let levels = ["info", "INFO", "ERROR", "error", "debug", "DEBUG", "warn", "WARN"];
    let result = levels
        .iter()
        .map(|l| convert_to_level(l))
        .filter(|x| x.is_err())
        .count();
    assert_eq!(result, 0);
    let failure = convert_to_level("fail");
    assert!(failure.is_err());
    assert_eq!(failure.err().unwrap(), "failed to convert value into Level")
}

#[test]
fn levels_ignore_case() {
    assert_eq!(convert_to_level("WaRn").unwrap(), LogLevel::Warn);
    assert_eq!(convert_to_level("DEBUG").unwrap(), LogLevel::Debug);
    assert_eq!(convert_to_level("Error").unwrap(), LogLevel::Error);
    assert_eq!(level_from_lowercase("info").unwrap(), LogLevel::Info);
    assert!(level_from_lowercase("INFO").is_err());
}
