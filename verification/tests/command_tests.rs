use afk::command::{Config, ConfigError};

#[test]
fn test_config_speed_normal() {
    let c = Config::new(None, false, false, "normal").unwrap();
    assert_eq!(c.fps, 100);
    assert!(c.colored);
    assert!(c.show_timestamp);
    assert!(c.reason.is_none());
}

#[test]
fn test_config_speed_slow() {
    let c = Config::new(None, false, false, "slow").unwrap();
    assert_eq!(c.fps, 150);
}

#[test]
fn test_config_speed_fast() {
    let c = Config::new(None, false, false, "fast").unwrap();
    assert_eq!(c.fps, 75);
}

#[test]
fn test_config_invalid_speed_is_refused() {
    assert!(matches!(
        Config::new(None, false, false, "turbo"),
        Err(ConfigError::InvalidSpeed)
    ));
    assert!(matches!(
        Config::new(None, false, false, ""),
        Err(ConfigError::InvalidSpeed)
    ));
}

#[test]
fn test_config_toggles_are_negated() {
    let c = Config::new(Some("tea".to_string()), true, true, "normal").unwrap();
    assert!(!c.colored);
    assert!(!c.show_timestamp);
    assert_eq!(c.reason.as_deref(), Some("tea"));
}

#[test]
fn test_footer_presence() {
    let both = Config::new(Some("tea".to_string()), false, false, "normal").unwrap();
    assert!(both.is_exist_footer());
    let neither = Config::new(None, false, true, "normal").unwrap();
    assert!(!neither.is_exist_footer());
    let reason_only = Config::new(Some("tea".to_string()), false, true, "normal").unwrap();
    assert!(reason_only.is_exist_footer());
}
