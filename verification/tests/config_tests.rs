use process_key_sender::config::{parse_duration, duration_to_string, DurationMs, DurationError};
use process_key_sender::config::{Config, ConfigError, IndependentKey, KeyAction};
use process_key_sender::config::{default_loop_sequence, default_max_retries, default_pause_hotkey};

#[test]
fn test_parse_duration() {
    assert_eq!(parse_duration("1000ms").unwrap(), DurationMs::from_millis(1000));
    assert_eq!(parse_duration("5s").unwrap(), DurationMs::from_secs(5));
    assert_eq!(parse_duration("2m").unwrap(), DurationMs::from_secs(120));
    assert_eq!(parse_duration("500").unwrap(), DurationMs::from_millis(500));
    assert_eq!(parse_duration(" 1000MS ").unwrap(), DurationMs::from_millis(1000));
}

#[test]
fn test_parse_duration_errors() {
    assert!(parse_duration("abc").is_err());
    assert!(parse_duration("").is_err());
    assert!(parse_duration("1000x").is_err());
}

#[test]
fn test_duration_to_string() {
    assert_eq!(duration_to_string(DurationMs::from_millis(1000)), "1s");
    assert_eq!(duration_to_string(DurationMs::from_millis(1500)), "1500ms");
    assert_eq!(duration_to_string(DurationMs::from_millis(60000)), "1m");
    assert_eq!(duration_to_string(DurationMs::from_millis(500)), "500ms");
}

#[test]
fn test_config_validation() {
    let mut config = Config {
        process_name: "test.exe".to_string(),
        key_sequence: vec![],
        independent_keys: vec![IndependentKey {
            key: "r".to_string(),
            interval: DurationMs::from_millis(1000),
        }],
        max_retries: 10,
        pause_hotkey: "ctrl+alt+r".to_string(),
        verbose: false,
        loop_sequence: true,
        repeat_count: 0,
    };

    assert!(config.validate().is_ok());

    // Empty process name is rejected.
    config.process_name = "".to_string();
    assert!(config.validate().is_err());

    // A configuration without any keys is rejected.
    config.process_name = "test.exe".to_string();
    config.independent_keys.clear();
    assert!(config.validate().is_err());
}

#[test]
fn test_parse_duration_error_kinds() {
    // Not a number with a recognized suffix.
    assert_eq!(parse_duration("abc"), Err(DurationError::Invalid));
    assert_eq!(parse_duration("ms"), Err(DurationError::Invalid));
    assert_eq!(parse_duration("12.5s"), Err(DurationError::Invalid));
    assert_eq!(parse_duration("+5s"), Err(DurationError::Invalid));
    // Well-formed but beyond u64 milliseconds.
    assert_eq!(parse_duration("18446744073709551616"), Err(DurationError::Overflow));
    assert_eq!(parse_duration("99999999999999999999s"), Err(DurationError::Overflow));
    assert_eq!(parse_duration("400000000000000000m"), Err(DurationError::Overflow));
    // The largest representable value still parses.
    assert_eq!(
        parse_duration("18446744073709551615"),
        Ok(DurationMs::from_millis(u64::MAX))
    );
}

#[test]
fn test_duration_round_trip_compact_forms() {
    // Canonical compact forms survive parse-then-format unchanged.
    for v in ["1500ms", "750ms", "90s", "1s", "2m", "59s", "1m", "10m"] {
        let parsed = parse_duration(v).unwrap();
        assert_eq!(duration_to_string(parsed), v);
    }
    // Non-compact spellings normalize to the compact form.
    assert_eq!(duration_to_string(parse_duration("1000ms").unwrap()), "1s");
    assert_eq!(duration_to_string(parse_duration("120s").unwrap()), "2m");
    assert_eq!(duration_to_string(parse_duration(" 0500MS ").unwrap()), "500ms");
}

#[test]
fn test_defaults() {
    assert_eq!(default_max_retries(), 10);
    assert_eq!(default_pause_hotkey(), "ctrl+alt+r");
    assert!(default_loop_sequence());
}

#[test]
fn test_validation_reports_first_fault() {
    let base = Config {
        process_name: "app.exe".to_string(),
        key_sequence: vec![],
        independent_keys: vec![],
        max_retries: 10,
        pause_hotkey: "ctrl+alt+r".to_string(),
        verbose: false,
        loop_sequence: true,
        repeat_count: 0,
    };

    let mut c = base.clone();
    c.process_name = "   ".to_string();
    assert_eq!(c.validate(), Err(ConfigError::EmptyProcessName));

    let c = base.clone();
    assert_eq!(c.validate(), Err(ConfigError::NoKeysConfigured));

    let mut c = base.clone();
    c.key_sequence.push(KeyAction {
        key: "a".to_string(),
        interval_after: DurationMs::from_millis(100),
    });
    c.independent_keys.push(IndependentKey {
        key: "b".to_string(),
        interval: DurationMs::from_millis(100),
    });
    assert_eq!(c.validate(), Err(ConfigError::BothModesConfigured));

    let mut c = base.clone();
    c.independent_keys.push(IndependentKey {
        key: "b".to_string(),
        interval: DurationMs::from_millis(100),
    });
    c.max_retries = 0;
    assert_eq!(c.validate(), Err(ConfigError::ZeroMaxRetries));

    let mut c = base.clone();
    c.key_sequence.push(KeyAction {
        key: "a".to_string(),
        interval_after: DurationMs::from_millis(100),
    });
    c.key_sequence.push(KeyAction {
        key: " ".to_string(),
        interval_after: DurationMs::from_millis(100),
    });
    assert_eq!(c.validate(), Err(ConfigError::EmptySequenceKey(1)));

    let mut c = base.clone();
    c.key_sequence.push(KeyAction {
        key: "a".to_string(),
        interval_after: DurationMs::from_millis(0),
    });
    assert_eq!(c.validate(), Err(ConfigError::ShortSequenceInterval(0)));

    let mut c = base.clone();
    c.independent_keys.push(IndependentKey {
        key: "".to_string(),
        interval: DurationMs::from_millis(100),
    });
    assert_eq!(c.validate(), Err(ConfigError::EmptyIndependentKey(0)));

    let mut c = base.clone();
    c.independent_keys.push(IndependentKey {
        key: "b".to_string(),
        interval: DurationMs::from_millis(0),
    });
    assert_eq!(c.validate(), Err(ConfigError::ShortIndependentInterval(0)));
}
