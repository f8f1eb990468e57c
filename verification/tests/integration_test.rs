use process_key_sender::config::{parse_duration, Config, DurationMs, IndependentKey};

#[test]
fn test_duration_parsing_edge_cases() {
    // Valid cases
    assert_eq!(parse_duration("0ms").unwrap(), DurationMs::from_millis(0));
    assert_eq!(parse_duration("1000").unwrap(), DurationMs::from_millis(1000));
    assert_eq!(parse_duration("5S").unwrap(), DurationMs::from_secs(5)); // Case insensitive
    assert_eq!(parse_duration(" 2m ").unwrap(), DurationMs::from_secs(120)); // Whitespace

    // Invalid cases
    assert!(parse_duration("").is_err());
    assert!(parse_duration("abc").is_err());
    assert!(parse_duration("1000x").is_err());
    assert!(parse_duration("-1000ms").is_err());
}

#[test]
fn test_config_validation_errors() {
    // Empty process name
    let mut config = Config {
        process_name: "".to_string(),
        key_sequence: vec![],
        independent_keys: vec![],
        max_retries: 10,
        pause_hotkey: "ctrl+alt+r".to_string(),
        verbose: false,
        loop_sequence: true,
        repeat_count: 0,
    };

    assert!(config.validate().is_err());

    // No keys configured
    config.process_name = "test.exe".to_string();
    assert!(config.validate().is_err());

    // Zero retries
    config.independent_keys.push(IndependentKey {
        key: "space".to_string(),
        interval: DurationMs::from_millis(1000),
    });
    config.max_retries = 0;
    assert!(config.validate().is_err());
}
